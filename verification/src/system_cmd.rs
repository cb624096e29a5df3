//! The process controller: how the shipper is started or restarted.
//!
//! This module says which command to run and what its outcome means. Running
//! the command is the caller's part: it hands back a [`CommandResult`].

use crate::text::{join, join3, joined, texts};
use vstd::prelude::*;
use vstd::std_specs::iter::IteratorSpec;

verus! {

/// The shipper's binary.
pub const SHIPPER_BINARY: &'static str = "/usr/share/filebeat/filebeat";

/// A command line: a program and its arguments.
#[derive(Debug, Clone, PartialEq, Eq)]
pub struct Invocation {
    pub program: String,
    pub args: Vec<String>,
}

/// The mathematical value of an [`Invocation`].
pub ghost struct InvocationView {
    pub program: Seq<char>,
    pub args: Seq<Seq<char>>,
}

impl View for Invocation {
    type V = InvocationView;

    open spec fn view(&self) -> InvocationView {
        InvocationView { program: self.program@, args: texts(self.args@) }
    }
}

/// What a command that ran left behind.
#[derive(Debug, Clone, PartialEq, Eq)]
pub struct Output {
    /// Whether the command ended with success.
    pub success: bool,
    /// The exit status, as the system writes it.
    pub status: String,
    /// The standard output as text, with a mark for what is not UTF-8.
    pub stdout: String,
    /// Whether the standard output is UTF-8 throughout.
    pub stdout_is_utf8: bool,
    /// The standard error as text, with a mark for what is not UTF-8.
    pub stderr: String,
}

/// What running a command gave.
#[derive(Debug, Clone, PartialEq, Eq)]
pub enum CommandResult {
    /// The command ran.
    Ran(Output),
    /// The command could not be run, for the reason given.
    NotRun(String),
}

/// Why the shipper was not started or restarted.
#[derive(Debug, Clone, PartialEq, Eq)]
pub enum ControlError {
    /// The shipper's binary could not be run.
    ShipperNotRun { reason: String },
    /// The shipper ended without success.
    ShipperFailed { config_path: String, stdout: String, stderr: String },
    /// A command of the container runtime could not be run.
    CommandNotRun { reason: String },
    /// Looking for the container ended without success.
    LookupFailed { status: String },
    /// Looking for the container gave output that is not UTF-8.
    LookupNotText,
    /// No running container matches the service.
    NoContainer { service_name: String },
    /// More than one running container matches the service.
    AmbiguousContainer { service_name: String, candidates: Vec<String> },
    /// Restarting the container ended without success.
    RestartFailed { container_id: String },
}

/// The mathematical value of a [`ControlError`].
pub ghost enum ControlErrorView {
    ShipperNotRun { reason: Seq<char> },
    ShipperFailed { config_path: Seq<char>, stdout: Seq<char>, stderr: Seq<char> },
    CommandNotRun { reason: Seq<char> },
    LookupFailed { status: Seq<char> },
    LookupNotText,
    NoContainer { service_name: Seq<char> },
    AmbiguousContainer { service_name: Seq<char>, candidates: Seq<Seq<char>> },
    RestartFailed { container_id: Seq<char> },
}

impl View for ControlError {
    type V = ControlErrorView;

    open spec fn view(&self) -> ControlErrorView {
        match self {
            ControlError::ShipperNotRun { reason } => ControlErrorView::ShipperNotRun {
                reason: reason@,
            },
            ControlError::ShipperFailed { config_path, stdout, stderr } => {
                ControlErrorView::ShipperFailed {
                    config_path: config_path@,
                    stdout: stdout@,
                    stderr: stderr@,
                }
            },
            ControlError::CommandNotRun { reason } => ControlErrorView::CommandNotRun {
                reason: reason@,
            },
            ControlError::LookupFailed { status } => ControlErrorView::LookupFailed {
                status: status@,
            },
            ControlError::LookupNotText => ControlErrorView::LookupNotText,
            ControlError::NoContainer { service_name } => ControlErrorView::NoContainer {
                service_name: service_name@,
            },
            ControlError::AmbiguousContainer { service_name, candidates } => {
                ControlErrorView::AmbiguousContainer {
                    service_name: service_name@,
                    candidates: texts(candidates@),
                }
            },
            ControlError::RestartFailed { container_id } => ControlErrorView::RestartFailed {
                container_id: container_id@,
            },
        }
    }
}

impl ControlErrorView {
    /// The error in words.
    pub open spec fn message(self) -> Seq<char> {
        match self {
            ControlErrorView::ShipperNotRun { reason } => "Failed to execute command: "@ + reason,
            ControlErrorView::ShipperFailed { config_path, stdout, stderr } => {
                "Failed to start Filebeat with config: "@ + config_path + "\nStdout: "@ + stdout
                    + "\nStderr: "@ + stderr
            },
            ControlErrorView::CommandNotRun { reason } => reason,
            ControlErrorView::LookupFailed { status } => "Command failed with status: "@ + status,
            ControlErrorView::LookupNotText => "Container lookup gave output that is not UTF-8"@,
            ControlErrorView::NoContainer { service_name } => "No running container matches: "@
                + service_name,
            ControlErrorView::AmbiguousContainer { service_name, candidates } => {
                "More than one running container matches: "@ + service_name
            },
            ControlErrorView::RestartFailed { container_id } => "Failed to restart container: "@
                + container_id,
        }
    }
}

impl ControlError {
    /// The error in words.
    pub fn message(&self) -> (r: String)
        ensures
            r@ == self@.message(),
    {
        match self {
            ControlError::ShipperNotRun { reason } => join(
                "Failed to execute command: ",
                reason.as_str(),
            ),
            ControlError::ShipperFailed { config_path, stdout, stderr } => {
                let head = join3(
                    "Failed to start Filebeat with config: ",
                    config_path.as_str(),
                    "\nStdout: ",
                );
                join3(head.as_str(), stdout.as_str(), join("\nStderr: ", stderr.as_str()).as_str())
            },
            ControlError::CommandNotRun { reason } => reason.clone(),
            ControlError::LookupFailed { status } => join(
                "Command failed with status: ",
                status.as_str(),
            ),
            ControlError::LookupNotText => "Container lookup gave output that is not UTF-8".to_owned(),
            ControlError::NoContainer { service_name } => join(
                "No running container matches: ",
                service_name.as_str(),
            ),
            ControlError::AmbiguousContainer { service_name, candidates } => join(
                "More than one running container matches: ",
                service_name.as_str(),
            ),
            ControlError::RestartFailed { container_id } => join(
                "Failed to restart container: ",
                container_id.as_str(),
            ),
        }
    }
}

/// The value of a result of the shipper's start.
pub open spec fn start_view(r: Result<(), ControlError>) -> Result<(), ControlErrorView> {
    match r {
        Ok(_) => Ok(()),
        Err(e) => Err(e@),
    }
}

/// The value of a result that names a container.
pub open spec fn named_view(r: Result<String, ControlError>) -> Result<Seq<char>, ControlErrorView> {
    match r {
        Ok(id) => Ok(id@),
        Err(e) => Err(e@),
    }
}

/// The command that starts the shipper on the configuration at
/// `config_path`: the binary with `-e -c` and the path.
pub open spec fn start_command(config_path: Seq<char>) -> InvocationView {
    InvocationView { program: SHIPPER_BINARY@, args: seq!["-e"@, "-c"@, config_path] }
}

/// The command that starts the shipper on the configuration at
/// `filebeat_config_path`.
pub fn start_filebeat(filebeat_config_path: &str) -> (r: Invocation)
    ensures
        r@ == start_command(filebeat_config_path@),
{
    let mut args: Vec<String> = Vec::new();
    args.push("-e".to_owned());
    args.push("-c".to_owned());
    args.push(filebeat_config_path.to_owned());
    assert(texts(args@) =~= seq!["-e"@, "-c"@, filebeat_config_path@]);
    Invocation { program: SHIPPER_BINARY.to_owned(), args }
}

/// What the outcome of the shipper's start means: success where the command
/// ran and ended with success, and else why not.
pub open spec fn start_result(config_path: Seq<char>, result: CommandResult) -> Result<
    (),
    ControlErrorView,
> {
    match result {
        CommandResult::Ran(output) => if output.success {
            Ok(())
        } else {
            Err(
                ControlErrorView::ShipperFailed {
                    config_path,
                    stdout: output.stdout@,
                    stderr: output.stderr@,
                },
            )
        },
        CommandResult::NotRun(reason) => Err(ControlErrorView::ShipperNotRun { reason: reason@ }),
    }
}

/// What the outcome of the shipper's start means.
pub fn start_filebeat_outcome(filebeat_config_path: &str, result: &CommandResult) -> (r: Result<
    (),
    ControlError,
>)
    ensures
        start_view(r) == start_result(filebeat_config_path@, *result),
{
    match result {
        CommandResult::Ran(output) => {
            if output.success {
                Ok(())
            } else {
                Err(
                    ControlError::ShipperFailed {
                        config_path: filebeat_config_path.to_owned(),
                        stdout: output.stdout.clone(),
                        stderr: output.stderr.clone(),
                    },
                )
            }
        },
        CommandResult::NotRun(reason) => Err(ControlError::ShipperNotRun { reason: reason.clone() }),
    }
}

/// Whether `c` is white space, as `char::is_whitespace` has it.
pub uninterp spec fn is_whitespace(c: char) -> bool;

/// Calls `char::is_whitespace`, and names what it returns: the same
/// character is always white space or never.
#[verifier::external_body]
fn whitespace(c: char) -> (r: bool)
    ensures
        r == is_whitespace(c),
{
    c.is_whitespace()
}

/// The words of a text: its longest runs of characters that are not white
/// space, in order.
pub open spec fn words(s: Seq<char>) -> Seq<Seq<char>>
    decreases s.len(),
{
    if s.len() == 0 {
        Seq::empty()
    } else {
        let before = words(s.drop_last());
        let c = s.last();
        if is_whitespace(c) {
            before
        } else if s.len() >= 2 && !is_whitespace(s[s.len() - 2]) && before.len() > 0 {
            before.update(before.len() - 1, before.last().push(c))
        } else {
            before.push(seq![c])
        }
    }
}

/// The words of a text.
pub fn split_words(text: &str) -> (r: Vec<String>)
    ensures
        texts(r@) == words(text@),
{
    broadcast use vstd::string::group_string_axioms;

    let mut out: Vec<String> = Vec::new();
    let mut it = text.chars();
    let ghost total = text@;
    let mut i: usize = 0;
    let mut start: usize = 0;
    let mut inside: bool = false;
    let length = text.unicode_len();
    assert(total.take(0) =~= Seq::empty());
    assert(texts(out@) =~= Seq::empty());
    loop
        invariant_except_break
            inside ==> start < i && !is_whitespace(total[i - 1]),
            inside ==> words(total.take(i as int)) == texts(out@).push(
                total.subrange(start as int, i as int),
            ),
            !inside ==> words(total.take(i as int)) == texts(out@),
            !inside ==> (i == 0 || is_whitespace(total[i - 1])),
        invariant
            it.obeys_prophetic_iter_laws(),
            it.decrease() is Some,
            total == text@,
            length == total.len(),
            i <= total.len(),
            it.remaining() == total.skip(i as int),
            start <= i,
        ensures
            texts(out@) == words(total),
        decreases it.decrease()->0,
    {
        let ghost before = it;
        let ghost sofar = out@;
        match it.next() {
            Some(c) => {
                assert(before.remaining().len() > 0);
                assert(i < total.len());
                assert(c == total[i as int]);
                assert(it.remaining() =~= total.skip(i + 1));
                assert(total.take(i + 1).drop_last() =~= total.take(i as int));
                assert(total.take(i + 1).last() == c);
                if whitespace(c) {
                    if inside {
                        let word = text.substring_char(start, i);
                        out.push(word.to_owned());
                        assert(texts(out@) =~= texts(sofar).push(
                            total.subrange(start as int, i as int),
                        ));
                        inside = false;
                    }
                } else {
                    if inside {
                        assert(total.take(i + 1)[i - 1] == total[i - 1]);
                        assert(total.subrange(start as int, i + 1) =~= total.subrange(
                            start as int,
                            i as int,
                        ).push(c));
                        let ghost t = texts(sofar).push(total.subrange(start as int, i as int));
                        assert(t.update(t.len() - 1, t.last().push(c)) =~= texts(sofar).push(
                            total.subrange(start as int, i + 1),
                        ));
                    } else {
                        if i > 0 {
                            assert(total.take(i + 1)[i - 1] == total[i - 1]);
                        }
                        assert(total.subrange(i as int, i + 1) =~= seq![c]);
                        start = i;
                        inside = true;
                    }
                }
                i = i + 1;
            },
            None => {
                assert(it.remaining().len() == 0);
                assert(i == total.len());
                assert(total.take(i as int) =~= total);
                if inside {
                    let word = text.substring_char(start, i);
                    out.push(word.to_owned());
                    assert(texts(out@) =~= texts(sofar).push(
                        total.subrange(start as int, i as int),
                    ));
                }
                break ;
            },
        }
    }
    out
}

/// The command that lists the identifiers of the running containers that
/// match `service_name`.
pub open spec fn lookup_command(service_name: Seq<char>) -> InvocationView {
    InvocationView {
        program: "sh"@,
        args: seq!["-c"@, "docker ps | grep '"@ + service_name + "' | awk '{print $1}'"@],
    }
}

/// The command that restarts the container `container_id`.
pub open spec fn restart_command(container_id: Seq<char>) -> InvocationView {
    InvocationView { program: "docker"@, args: seq!["restart"@, container_id] }
}

/// The container that a lookup found: the one identifier in its output.
/// There is none where the lookup could not be run, ended without success,
/// gave no text, matched no container, or matched more than one.
pub open spec fn lookup_result(service_name: Seq<char>, result: CommandResult) -> Result<
    Seq<char>,
    ControlErrorView,
> {
    match result {
        CommandResult::NotRun(reason) => Err(ControlErrorView::CommandNotRun { reason: reason@ }),
        CommandResult::Ran(output) => if !output.success {
            Err(ControlErrorView::LookupFailed { status: output.status@ })
        } else if !output.stdout_is_utf8 {
            Err(ControlErrorView::LookupNotText)
        } else if words(output.stdout@).len() == 0 {
            Err(ControlErrorView::NoContainer { service_name })
        } else if words(output.stdout@).len() == 1 {
            Ok(words(output.stdout@)[0])
        } else {
            Err(
                ControlErrorView::AmbiguousContainer {
                    service_name,
                    candidates: words(output.stdout@),
                },
            )
        },
    }
}

/// What the outcome of a restart means: the container's identifier where
/// the command ran and ended with success, and else why not.
pub open spec fn restart_result(container_id: Seq<char>, result: CommandResult) -> Result<
    Seq<char>,
    ControlErrorView,
> {
    match result {
        CommandResult::NotRun(reason) => Err(ControlErrorView::CommandNotRun { reason: reason@ }),
        CommandResult::Ran(output) => if output.success {
            Ok(container_id)
        } else {
            Err(ControlErrorView::RestartFailed { container_id })
        },
    }
}

/// The command that lists the identifiers of the running containers that
/// match `service_name`.
pub fn locate_container(service_name: &str) -> (r: Invocation)
    ensures
        r@ == lookup_command(service_name@),
{
    let mut args: Vec<String> = Vec::new();
    args.push("-c".to_owned());
    args.push(join3("docker ps | grep '", service_name, "' | awk '{print $1}'"));
    assert(texts(args@) =~= lookup_command(service_name@).args);
    Invocation { program: "sh".to_owned(), args }
}

/// The container that a lookup found.
pub fn choose_container(service_name: &str, result: &CommandResult) -> (r: Result<
    String,
    ControlError,
>)
    ensures
        named_view(r) == lookup_result(service_name@, *result),
{
    match result {
        CommandResult::NotRun(reason) => Err(ControlError::CommandNotRun { reason: reason.clone() }),
        CommandResult::Ran(output) => {
            if !output.success {
                Err(ControlError::LookupFailed { status: output.status.clone() })
            } else if !output.stdout_is_utf8 {
                Err(ControlError::LookupNotText)
            } else {
                let mut candidates = split_words(output.stdout.as_str());
                assert(texts(candidates@).len() == candidates@.len());
                if candidates.len() == 0 {
                    Err(ControlError::NoContainer { service_name: service_name.to_owned() })
                } else if candidates.len() == 1 {
                    let ghost all = candidates@;
                    let id = candidates.remove(0);
                    assert(texts(all)[0] == id@);
                    Ok(id)
                } else {
                    Err(
                        ControlError::AmbiguousContainer {
                            service_name: service_name.to_owned(),
                            candidates,
                        },
                    )
                }
            }
        },
    }
}

/// The command that restarts the container `container_id`.
pub fn restart_container(container_id: &str) -> (r: Invocation)
    ensures
        r@ == restart_command(container_id@),
{
    let mut args: Vec<String> = Vec::new();
    args.push("restart".to_owned());
    args.push(container_id.to_owned());
    assert(texts(args@) =~= seq!["restart"@, container_id@]);
    Invocation { program: "docker".to_owned(), args }
}

/// What the outcome of a restart means.
pub fn restart_outcome(container_id: &str, result: &CommandResult) -> (r: Result<
    String,
    ControlError,
>)
    ensures
        named_view(r) == restart_result(container_id@, *result),
{
    match result {
        CommandResult::NotRun(reason) => Err(ControlError::CommandNotRun { reason: reason.clone() }),
        CommandResult::Ran(output) => {
            if output.success {
                Ok(container_id.to_owned())
            } else {
                Err(ControlError::RestartFailed { container_id: container_id.to_owned() })
            }
        },
    }
}

/// Where the restart of a service's container stands.
#[derive(Debug, Clone, PartialEq, Eq)]
pub enum ContainerRestart {
    /// The lookup of the container runs.
    Locating { service_name: String },
    /// The restart of the container runs.
    Restarting { container_id: String },
    /// The restart is over.
    Finished,
}

/// What the caller is to do next for the restart of a container.
#[derive(Debug, PartialEq, Eq)]
pub enum RestartAction {
    /// Run this command and hand back what it gave.
    Run(Invocation),
    /// The restart is over: it restarted the container named, or failed.
    Report(Result<String, ControlError>),
    /// Nothing: the restart was over before.
    Nothing,
}

/// The mathematical value of a [`ContainerRestart`].
pub ghost enum ContainerRestartView {
    Locating { service_name: Seq<char> },
    Restarting { container_id: Seq<char> },
    Finished,
}

/// The mathematical value of a [`RestartAction`].
pub ghost enum RestartActionView {
    Run(InvocationView),
    Report(Result<Seq<char>, ControlErrorView>),
    Nothing,
}

impl View for ContainerRestart {
    type V = ContainerRestartView;

    open spec fn view(&self) -> ContainerRestartView {
        match self {
            ContainerRestart::Locating { service_name } => ContainerRestartView::Locating {
                service_name: service_name@,
            },
            ContainerRestart::Restarting { container_id } => ContainerRestartView::Restarting {
                container_id: container_id@,
            },
            ContainerRestart::Finished => ContainerRestartView::Finished,
        }
    }
}

impl View for RestartAction {
    type V = RestartActionView;

    open spec fn view(&self) -> RestartActionView {
        match self {
            RestartAction::Run(invocation) => RestartActionView::Run(invocation@),
            RestartAction::Report(outcome) => RestartActionView::Report(named_view(*outcome)),
            RestartAction::Nothing => RestartActionView::Nothing,
        }
    }
}

/// The step that the outcome of the running command leads to.
///
/// A lookup that found one container leads to its restart; one that did not
/// ends the restart with the reason. The outcome of the restart command ends
/// it, with the container's identifier or the reason. Nothing follows the
/// end.
pub open spec fn restart_step(state: ContainerRestartView, result: CommandResult) -> (
    ContainerRestartView,
    RestartActionView,
) {
    match state {
        ContainerRestartView::Locating { service_name } => match lookup_result(
            service_name,
            result,
        ) {
            Ok(container_id) => (
                ContainerRestartView::Restarting { container_id },
                RestartActionView::Run(restart_command(container_id)),
            ),
            Err(e) => (ContainerRestartView::Finished, RestartActionView::Report(Err(e))),
        },
        ContainerRestartView::Restarting { container_id } => (
            ContainerRestartView::Finished,
            RestartActionView::Report(restart_result(container_id, result)),
        ),
        ContainerRestartView::Finished => (
            ContainerRestartView::Finished,
            RestartActionView::Nothing,
        ),
    }
}

/// Begins the restart of the container that runs `service_name`: the state
/// to keep and the command to run first.
pub fn get_and_restart_container(service_name: &str) -> (r: (ContainerRestart, Invocation))
    ensures
        r.0@ == (ContainerRestartView::Locating { service_name: service_name@ }),
        r.1@ == lookup_command(service_name@),
{
    (
        ContainerRestart::Locating { service_name: service_name.to_owned() },
        locate_container(service_name),
    )
}

impl ContainerRestart {
    /// Takes what the running command gave: the state to keep and what to do
    /// next.
    pub fn advance(self, result: &CommandResult) -> (r: (ContainerRestart, RestartAction))
        ensures
            (r.0@, r.1@) == restart_step(self@, *result),
    {
        match self {
            ContainerRestart::Locating { service_name } => {
                match choose_container(service_name.as_str(), result) {
                    Ok(container_id) => {
                        let command = restart_container(container_id.as_str());
                        (ContainerRestart::Restarting { container_id }, RestartAction::Run(command))
                    },
                    Err(e) => (ContainerRestart::Finished, RestartAction::Report(Err(e))),
                }
            },
            ContainerRestart::Restarting { container_id } => (
                ContainerRestart::Finished,
                RestartAction::Report(restart_outcome(container_id.as_str(), result)),
            ),
            ContainerRestart::Finished => (ContainerRestart::Finished, RestartAction::Nothing),
        }
    }
}

/// The parts of the command text that looks for `patterns` in `path`, one
/// after the other: the first search reads the file, each further one reads
/// what the one before it found.
pub open spec fn search_parts(path: Seq<char>, patterns: Seq<Seq<char>>) -> Seq<Seq<char>>
    decreases patterns.len(),
{
    if patterns.len() == 0 {
        Seq::empty()
    } else if patterns.len() == 1 {
        seq!["grep -a "@ + patterns[0] + " "@ + path]
    } else {
        search_parts(path, patterns.drop_last()).push(" | grep -a "@ + patterns.last())
    }
}

/// The command that looks for the lines of `path` that match every one of
/// `patterns`.
pub open spec fn search_command(path: Seq<char>, patterns: Seq<Seq<char>>) -> InvocationView {
    InvocationView { program: "bash"@, args: seq!["-c"@, joined(search_parts(path, patterns))] }
}

/// The command that looks for the lines of `path` that match every one of
/// `patterns`. There is at least one pattern.
pub fn grep_multiple_layers(path: &str, patterns: &Vec<String>) -> (r: Invocation)
    requires
        patterns@.len() > 0,
    ensures
        r@ == search_command(path@, texts(patterns@)),
{
    let ghost all = texts(patterns@);
    let first = join3("grep -a ", patterns[0].as_str(), " ");
    let mut command = join(first.as_str(), path);
    proof {
        let one = search_parts(path@, all.take(1));
        assert(all.take(1).len() == 1);
        assert(all.take(1)[0] == patterns@[0]@);
        assert(one =~= seq!["grep -a "@ + patterns@[0]@ + " "@ + path@]);
        assert(one.drop_last() =~= Seq::empty());
        assert(joined(one.drop_last()) =~= Seq::empty());
        assert(joined(one) =~= one.last());
    }
    let mut i: usize = 1;
    while i < patterns.len()
        invariant
            1 <= i <= patterns.len(),
            all == texts(patterns@),
            command@ == joined(search_parts(path@, all.take(i as int))),
        decreases patterns.len() - i,
    {
        let piece = join(" | grep -a ", patterns[i].as_str());
        proof {
            let next = all.take(i + 1);
            assert(next.drop_last() =~= all.take(i as int));
            assert(next.last() == patterns@[i as int]@);
            let parts = search_parts(path@, next);
            assert(parts.drop_last() =~= search_parts(path@, all.take(i as int)));
        }
        command.append(piece.as_str());
        i = i + 1;
    }
    assert(all.take(i as int) =~= all);
    let mut args: Vec<String> = Vec::new();
    args.push("-c".to_owned());
    args.push(command);
    assert(texts(args@) =~= seq!["-c"@, joined(search_parts(path@, all))]);
    Invocation { program: "bash".to_owned(), args }
}

} // verus!
