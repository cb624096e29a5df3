use log_searching::system_cmd::{
    choose_container, get_and_restart_container, grep_multiple_layers, locate_container,
    restart_container, restart_outcome, split_words, start_filebeat, start_filebeat_outcome,
    CommandResult, ContainerRestart, ControlError, Invocation, Output, RestartAction,
    SHIPPER_BINARY,
};

fn s(text: &str) -> String {
    text.to_string()
}

fn ran(success: bool, stdout: &str) -> CommandResult {
    CommandResult::Ran(Output {
        success,
        status: s(if success { "exit status: 0" } else { "exit status: 1" }),
        stdout: s(stdout),
        stdout_is_utf8: true,
        stderr: s("warnings"),
    })
}

#[test]
fn start_filebeat_runs_the_binary_on_the_configuration() {
    assert_eq!(
        start_filebeat("/etc/filebeat/filebeat.yml"),
        Invocation {
            program: s("/usr/share/filebeat/filebeat"),
            args: vec![s("-e"), s("-c"), s("/etc/filebeat/filebeat.yml")],
        }
    );
    assert_eq!(SHIPPER_BINARY, "/usr/share/filebeat/filebeat");
}

#[test]
fn start_filebeat_outcome_is_success_on_exit_zero() {
    assert_eq!(start_filebeat_outcome("/c.yml", &ran(true, "anything")), Ok(()));
}

#[test]
fn start_filebeat_outcome_says_what_the_shipper_printed() {
    let failed = start_filebeat_outcome("/c.yml", &ran(false, "out")).expect_err("exit 1");
    assert_eq!(
        failed,
        ControlError::ShipperFailed { config_path: s("/c.yml"), stdout: s("out"), stderr: s("warnings") }
    );
    assert_eq!(
        failed.message(),
        "Failed to start Filebeat with config: /c.yml\nStdout: out\nStderr: warnings"
    );
}

#[test]
fn start_filebeat_outcome_says_why_the_binary_did_not_run() {
    let failed = start_filebeat_outcome("/c.yml", &CommandResult::NotRun(s("No such file")))
        .expect_err("not run");
    assert_eq!(failed, ControlError::ShipperNotRun { reason: s("No such file") });
    assert_eq!(failed.message(), "Failed to execute command: No such file");
}

#[test]
fn split_words_splits_on_white_space() {
    assert_eq!(split_words("abc123\n"), vec![s("abc123")]);
    assert_eq!(split_words("  a\tb\r\n\nc  "), vec![s("a"), s("b"), s("c")]);
    assert_eq!(split_words("one"), vec![s("one")]);
    assert_eq!(split_words(""), Vec::<String>::new());
    assert_eq!(split_words(" \n\t "), Vec::<String>::new());
    assert_eq!(split_words("\u{3000}é日本\u{a0}ü"), vec![s("é日本"), s("ü")]);
}

#[test]
fn locate_container_asks_the_runtime_for_the_service() {
    assert_eq!(
        locate_container("filebeat"),
        Invocation {
            program: s("sh"),
            args: vec![s("-c"), s("docker ps | grep 'filebeat' | awk '{print $1}'")],
        }
    );
}

#[test]
fn choose_container_takes_the_one_match() {
    assert_eq!(choose_container("filebeat", &ran(true, "3f2a9c1b7d10\n")), Ok(s("3f2a9c1b7d10")));
}

#[test]
fn choose_container_fails_without_a_match() {
    assert_eq!(
        choose_container("filebeat", &ran(true, "")),
        Err(ControlError::NoContainer { service_name: s("filebeat") })
    );
    assert_eq!(
        choose_container("filebeat", &ran(true, "\n")),
        Err(ControlError::NoContainer { service_name: s("filebeat") })
    );
}

#[test]
fn choose_container_fails_on_more_than_one_match() {
    assert_eq!(
        choose_container("filebeat", &ran(true, "aaa\nbbb\n")),
        Err(ControlError::AmbiguousContainer {
            service_name: s("filebeat"),
            candidates: vec![s("aaa"), s("bbb")],
        })
    );
}

#[test]
fn choose_container_fails_where_the_lookup_failed() {
    assert_eq!(
        choose_container("filebeat", &ran(false, "aaa\n")),
        Err(ControlError::LookupFailed { status: s("exit status: 1") })
    );
    assert_eq!(
        choose_container("filebeat", &CommandResult::NotRun(s("no sh"))),
        Err(ControlError::CommandNotRun { reason: s("no sh") })
    );
    let garbled = CommandResult::Ran(Output {
        success: true,
        status: s("exit status: 0"),
        stdout: s("aaa\u{fffd}"),
        stdout_is_utf8: false,
        stderr: s(""),
    });
    assert_eq!(choose_container("filebeat", &garbled), Err(ControlError::LookupNotText));
}

#[test]
fn restart_container_asks_the_runtime_to_restart() {
    assert_eq!(
        restart_container("3f2a9c1b7d10"),
        Invocation { program: s("docker"), args: vec![s("restart"), s("3f2a9c1b7d10")] }
    );
}

#[test]
fn restart_outcome_names_the_container() {
    assert_eq!(restart_outcome("abc", &ran(true, "abc\n")), Ok(s("abc")));
    assert_eq!(
        restart_outcome("abc", &ran(false, "")),
        Err(ControlError::RestartFailed { container_id: s("abc") })
    );
    assert_eq!(
        restart_outcome("abc", &CommandResult::NotRun(s("no docker"))),
        Err(ControlError::CommandNotRun { reason: s("no docker") })
    );
}

#[test]
fn container_restart_runs_lookup_then_restart() {
    let (state, first) = get_and_restart_container("filebeat");
    assert_eq!(state, ContainerRestart::Locating { service_name: s("filebeat") });
    assert_eq!(first, locate_container("filebeat"));

    let (state, action) = state.advance(&ran(true, "abc\n"));
    assert_eq!(state, ContainerRestart::Restarting { container_id: s("abc") });
    assert_eq!(action, RestartAction::Run(restart_container("abc")));

    let (state, action) = state.advance(&ran(true, "abc\n"));
    assert_eq!(state, ContainerRestart::Finished);
    assert_eq!(action, RestartAction::Report(Ok(s("abc"))));

    let (state, action) = state.advance(&ran(true, "abc\n"));
    assert_eq!((state, action), (ContainerRestart::Finished, RestartAction::Nothing));
}

#[test]
fn container_restart_ends_where_the_lookup_finds_no_single_container() {
    let (state, _) = get_and_restart_container("filebeat");
    let (state, action) = state.advance(&ran(true, "aaa bbb"));
    assert_eq!(state, ContainerRestart::Finished);
    assert_eq!(
        action,
        RestartAction::Report(Err(ControlError::AmbiguousContainer {
            service_name: s("filebeat"),
            candidates: vec![s("aaa"), s("bbb")],
        }))
    );
}

#[test]
fn container_restart_ends_where_the_restart_fails() {
    let state = ContainerRestart::Restarting { container_id: s("abc") };
    let (state, action) = state.advance(&ran(false, ""));
    assert_eq!(state, ContainerRestart::Finished);
    assert_eq!(
        action,
        RestartAction::Report(Err(ControlError::RestartFailed { container_id: s("abc") }))
    );
}

#[test]
fn control_errors_read_as_messages() {
    assert_eq!(ControlError::CommandNotRun { reason: s("no sh") }.message(), "no sh");
    assert_eq!(
        ControlError::LookupFailed { status: s("exit status: 2") }.message(),
        "Command failed with status: exit status: 2"
    );
    assert_eq!(
        ControlError::LookupNotText.message(),
        "Container lookup gave output that is not UTF-8"
    );
    assert_eq!(
        ControlError::NoContainer { service_name: s("filebeat") }.message(),
        "No running container matches: filebeat"
    );
    assert_eq!(
        ControlError::AmbiguousContainer { service_name: s("filebeat"), candidates: vec![] }.message(),
        "More than one running container matches: filebeat"
    );
    assert_eq!(
        ControlError::RestartFailed { container_id: s("abc") }.message(),
        "Failed to restart container: abc"
    );
}

#[test]
fn grep_multiple_layers_chains_one_search_for_each_pattern() {
    assert_eq!(
        grep_multiple_layers("/var/log/a.log", &vec![s("ERROR")]),
        Invocation { program: s("bash"), args: vec![s("-c"), s("grep -a ERROR /var/log/a.log")] }
    );
    assert_eq!(
        grep_multiple_layers("/var/log/a.log", &vec![s("ERROR"), s("db"), s("timeout")]),
        Invocation {
            program: s("bash"),
            args: vec![
                s("-c"),
                s("grep -a ERROR /var/log/a.log | grep -a db | grep -a timeout"),
            ],
        }
    );
}
