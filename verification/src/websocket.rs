//! The edge agent: what one host answers to the central service.
//!
//! The agent serves connections that each carry one command at a time. This
//! module decides; sockets, directories and child processes are the caller's.
//! For every event on a connection [`WebSocketServer::handle_connection`] says
//! which state follows and what is to be done, in order.

use crate::json::{
    json_parsed, json_rendered, text_values, value_of_ref, values_of, Json, JsonValue,
};
use crate::modify_filebeat_yaml::RewriteFailure;
use crate::text::{optional_text, same_text, texts};
use vstd::prelude::*;

verus! {

/// The live connections of an agent, each known by its handle.
pub struct ConnectionSet {
    handles: Vec<u64>,
}

impl View for ConnectionSet {
    type V = Set<u64>;

    closed spec fn view(&self) -> Set<u64> {
        self.handles@.to_set()
    }
}

impl ConnectionSet {
    #[verifier::type_invariant]
    spec fn distinct(&self) -> bool {
        self.handles@.no_duplicates()
    }

    /// The set without connections.
    pub fn new() -> (r: ConnectionSet)
        ensures
            r@ == Set::<u64>::empty(),
    {
        let handles: Vec<u64> = Vec::new();
        assert(handles@.to_set() =~= Set::<u64>::empty());
        ConnectionSet { handles }
    }

    /// Whether `handle` is a live connection.
    pub fn contains(&self, handle: u64) -> (r: bool)
        ensures
            r == self@.contains(handle),
    {
        let mut i: usize = 0;
        while i < self.handles.len()
            invariant
                i <= self.handles.len(),
                forall|j: int| 0 <= j < i ==> self.handles@[j] != handle,
            decreases self.handles.len() - i,
        {
            if self.handles[i] == handle {
                assert(self.handles@.contains(handle));
                return true;
            }
            i = i + 1;
        }
        assert(!self.handles@.contains(handle));
        false
    }

    /// How many connections are live.
    pub fn len(&self) -> (r: usize)
        ensures
            r == self@.len(),
            self@.finite(),
    {
        proof {
            use_type_invariant(self);
            self.handles@.unique_seq_to_set();
        }
        self.handles.len()
    }

    /// Makes `handle` a live connection. One that is live already stays so.
    pub fn insert(&mut self, handle: u64)
        ensures
            final(self)@ == old(self)@.insert(handle),
    {
        proof {
            use_type_invariant(&*self);
        }
        if !self.contains(handle) {
            let ghost before = self.handles@;
            let mut handles: Vec<u64> = Vec::new();
            std::mem::swap(&mut self.handles, &mut handles);
            handles.push(handle);
            assert(handles@ == before.push(handle));
            assert(handles@.no_duplicates()) by {
                assert forall|a: int, b: int|
                    0 <= a < handles@.len() && 0 <= b < handles@.len() && a != b implies handles@[a]
                    != handles@[b] by {
                    if a < before.len() {
                        assert(before.contains(handles@[a]));
                    }
                    if b < before.len() {
                        assert(before.contains(handles@[b]));
                    }
                }
            }
            assert(handles@.to_set() =~= before.to_set().insert(handle)) by {
                assert forall|h: u64| handles@.contains(h) <==> (before.contains(h) || h
                    == handle) by {
                    if handles@.contains(h) {
                        let k = choose|k: int| 0 <= k < handles@.len() && handles@[k] == h;
                        if k < before.len() {
                            assert(before[k] == h);
                        }
                    }
                    if before.contains(h) {
                        let k = choose|k: int| 0 <= k < before.len() && before[k] == h;
                        assert(handles@[k] == h);
                    }
                    if h == handle {
                        assert(handles@[before.len() as int] == h);
                    }
                }
            }
            std::mem::swap(&mut self.handles, &mut handles);
        } else {
            assert(self@.insert(handle) =~= self@);
        }
    }

    /// Takes `handle` out of the live connections. One that is not live is
    /// not missed.
    pub fn remove(&mut self, handle: u64)
        ensures
            final(self)@ == old(self)@.remove(handle),
    {
        proof {
            use_type_invariant(&*self);
        }
        let ghost before = self.handles@;
        let mut handles: Vec<u64> = Vec::new();
        std::mem::swap(&mut self.handles, &mut handles);
        let mut i: usize = 0;
        while i < handles.len() && handles[i] != handle
            invariant
                i <= handles.len(),
                handles@ == before,
                forall|j: int| 0 <= j < i ==> before[j] != handle,
            decreases handles.len() - i,
        {
            i = i + 1;
        }
        if i < handles.len() {
            handles.remove(i);
            let ghost after = handles@;
            assert(after == before.remove(i as int));
            assert(after.no_duplicates()) by {
                assert forall|a: int, b: int| 0 <= a < after.len() && 0 <= b < after.len() && a
                    != b implies after[a] != after[b] by {
                    let a0 = if a < i { a } else { a + 1 };
                    let b0 = if b < i { b } else { b + 1 };
                    assert(after[a] == before[a0]);
                    assert(after[b] == before[b0]);
                }
            }
            assert(after.to_set() =~= before.to_set().remove(handle)) by {
                assert forall|h: u64| after.contains(h) <==> (before.contains(h) && h
                    != handle) by {
                    if after.contains(h) {
                        let k = choose|k: int| 0 <= k < after.len() && after[k] == h;
                        let k0 = if k < i { k } else { k + 1 };
                        assert(before[k0] == h);
                        assert(k0 != i);
                    }
                    if before.contains(h) && h != handle {
                        let k = choose|k: int| 0 <= k < before.len() && before[k] == h;
                        let k1 = if k < i { k } else { k - 1 };
                        assert(after[k1] == h);
                    }
                }
            }
        } else {
            assert(!before.contains(handle));
            assert(before.to_set().remove(handle) =~= before.to_set());
        }
        std::mem::swap(&mut self.handles, &mut handles);
    }
}

/// One service of a host and the directories that hold its logs.
#[derive(Debug, Clone, PartialEq, Eq)]
pub struct ServiceType {
    pub service_type: String,
    pub path: Vec<String>,
}

impl ServiceType {
    /// The service's name beside each of its directories, in order.
    pub open spec fn pairs(self) -> Seq<(Seq<char>, Seq<char>)> {
        Seq::new(self.path@.len(), |j: int| (self.service_type@, self.path@[j]@))
    }
}

/// The watched directories of a list of services: each service's name beside
/// each of its directories, service by service.
pub open spec fn watched_of(services: Seq<ServiceType>) -> Seq<(Seq<char>, Seq<char>)>
    decreases services.len(),
{
    if services.len() == 0 {
        Seq::empty()
    } else {
        watched_of(services.drop_last()) + services.last().pairs()
    }
}

/// Whether every service of a list has a name.
pub open spec fn all_named(services: Seq<ServiceType>) -> bool {
    forall|i: int| 0 <= i < services.len() ==> (#[trigger] services[i]).service_type@.len() > 0
}

/// What a host watches: its services and their log directories. Every
/// service has a name; a service may have no directory.
#[derive(Debug, PartialEq, Eq)]
pub struct EdgeDescriptor {
    log_inputs: Vec<ServiceType>,
}

impl EdgeDescriptor {
    #[verifier::type_invariant]
    spec fn named(&self) -> bool {
        all_named(self.log_inputs@)
    }

    /// The services, in the order of the descriptor.
    pub closed spec fn services(&self) -> Seq<ServiceType> {
        self.log_inputs@
    }

    /// The watched directories, each with its service's name.
    pub open spec fn watched(&self) -> Seq<(Seq<char>, Seq<char>)> {
        watched_of(self.services())
    }

    /// The descriptor of `log_inputs`, or `None` where a service has no name.
    pub fn new(log_inputs: Vec<ServiceType>) -> (r: Option<EdgeDescriptor>)
        ensures
            r is Some <==> all_named(log_inputs@),
            r matches Some(d) ==> d.services() == log_inputs@,
    {
        let mut i: usize = 0;
        while i < log_inputs.len()
            invariant
                i <= log_inputs.len(),
                forall|j: int| 0 <= j < i ==> (#[trigger] log_inputs@[j]).service_type@.len() > 0,
            decreases log_inputs.len() - i,
        {
            if log_inputs[i].service_type.as_str().is_empty() {
                assert(log_inputs@[i as int].service_type@.len() == 0);
                return None;
            }
            i = i + 1;
        }
        Some(EdgeDescriptor { log_inputs })
    }

    /// The services, in the order of the descriptor, each with a name.
    pub fn log_inputs(&self) -> (r: &Vec<ServiceType>)
        ensures
            r@ == self.services(),
            all_named(r@),
    {
        proof {
            use_type_invariant(self);
        }
        &self.log_inputs
    }

    /// The watched directories: each service's name beside each of its
    /// directories, service by service.
    pub fn watched_paths(&self) -> (r: Vec<(String, String)>)
        ensures
            pair_texts(r@) == self.watched(),
    {
        let mut out: Vec<(String, String)> = Vec::new();
        let mut i: usize = 0;
        assert(self.log_inputs@.take(0) =~= Seq::empty());
        while i < self.log_inputs.len()
            invariant
                i <= self.log_inputs.len(),
                pair_texts(out@) =~= watched_of(self.log_inputs@.take(i as int)),
            decreases self.log_inputs.len() - i,
        {
            let service = &self.log_inputs[i];
            let ghost done = pair_texts(out@);
            let mut j: usize = 0;
            while j < service.path.len()
                invariant
                    j <= service.path.len(),
                    pair_texts(out@) =~= done + service.pairs().take(j as int),
                decreases service.path.len() - j,
            {
                let ghost sofar = out@;
                out.push((service.service_type.clone(), service.path[j].clone()));
                assert(pair_texts(out@) =~= pair_texts(sofar).push(service.pairs()[j as int]));
                assert(service.pairs().take(j + 1) =~= service.pairs().take(j as int).push(
                    service.pairs()[j as int],
                ));
                j = j + 1;
            }
            assert(service.pairs().take(j as int) =~= service.pairs());
            assert(self.log_inputs@.take(i + 1).drop_last() =~= self.log_inputs@.take(i as int));
            assert(self.log_inputs@.take(i + 1).last() == *service);
            i = i + 1;
        }
        assert(self.log_inputs@.take(i as int) =~= self.log_inputs@);
        out
    }
}

/// The characters of each pair of texts of a list, in order.
pub open spec fn pair_texts(pairs: Seq<(String, String)>) -> Seq<(Seq<char>, Seq<char>)> {
    Seq::new(pairs.len(), |i: int| (pairs[i].0@, pairs[i].1@))
}

/// One entry of a directory, as reading the directory gave it.
#[derive(Debug, Clone, PartialEq, Eq)]
pub enum EntryName {
    /// An entry and its file name.
    Name(String),
    /// An entry whose file name is not Unicode.
    NotUnicode,
    /// An entry that could not be read.
    Unreadable,
}

/// What reading one directory gave.
#[derive(Debug, Clone, PartialEq, Eq)]
pub enum Listing {
    /// The entries, in the order they were read.
    Entries(Vec<EntryName>),
    /// The directory is missing or could not be opened.
    Unreadable,
}

/// The file name that an entry stands for: its own, or the empty name where
/// it has none to show.
pub open spec fn name_of(entry: EntryName) -> Seq<char> {
    match entry {
        EntryName::Name(name) => name@,
        _ => Seq::empty(),
    }
}

/// Whether every entry of a list could be read.
pub open spec fn all_readable(entries: Seq<EntryName>) -> bool {
    forall|i: int| 0 <= i < entries.len() ==> !(#[trigger] entries[i] is Unreadable)
}

/// The file names that a listing reports: those of its entries where the
/// directory and each entry could be read, none otherwise.
pub open spec fn files_of(listing: Listing) -> Seq<Seq<char>> {
    match listing {
        Listing::Entries(entries) => if all_readable(entries@) {
            Seq::new(entries@.len(), |i: int| name_of(entries@[i]))
        } else {
            Seq::empty()
        },
        Listing::Unreadable => Seq::empty(),
    }
}

/// The file names that a listing reports.
pub fn get_files_in_directory(listing: &Listing) -> (r: Vec<String>)
    ensures
        texts(r@) == files_of(*listing),
{
    let mut out: Vec<String> = Vec::new();
    match listing {
        Listing::Entries(entries) => {
            let mut i: usize = 0;
            while i < entries.len()
                invariant
                    i <= entries.len(),
                    out.len() == i,
                    *listing == Listing::Entries(*entries),
                    forall|j: int| 0 <= j < i ==> !(#[trigger] entries@[j] is Unreadable),
                    forall|j: int| 0 <= j < i ==> (#[trigger] out@[j])@ == name_of(entries@[j]),
                decreases entries.len() - i,
            {
                match &entries[i] {
                    EntryName::Name(name) => {
                        out.push(name.clone());
                    },
                    EntryName::NotUnicode => {
                        out.push(String::new());
                    },
                    EntryName::Unreadable => {
                        let none: Vec<String> = Vec::new();
                        assert(!all_readable(entries@));
                        assert(texts(none@) =~= Seq::empty());
                        return none;
                    },
                }
                i = i + 1;
            }
            assert(all_readable(entries@));
            assert(texts(out@) =~= files_of(*listing));
            out
        },
        Listing::Unreadable => {
            assert(texts(out@) =~= Seq::empty());
            out
        },
    }
}

/// The log files of one watched directory.
#[derive(Debug, Clone, PartialEq, Eq)]
pub struct ServiceFiles {
    pub service_type: String,
    pub dir: String,
    pub log_files: Vec<String>,
}

/// The mathematical value of a [`ServiceFiles`].
pub ghost struct ServiceFilesView {
    pub service_type: Seq<char>,
    pub dir: Seq<char>,
    pub log_files: Seq<Seq<char>>,
}

impl View for ServiceFiles {
    type V = ServiceFilesView;

    open spec fn view(&self) -> ServiceFilesView {
        ServiceFilesView {
            service_type: self.service_type@,
            dir: self.dir@,
            log_files: texts(self.log_files@),
        }
    }
}

/// The value of each entry of a list, in order.
pub open spec fn service_views(services: Seq<ServiceFiles>) -> Seq<ServiceFilesView> {
    Seq::new(services.len(), |i: int| services[i]@)
}

/// The inventory of a host whose watched directories are `watched` and were
/// read as `listings`: one entry for each directory, in order, with the
/// service's name, the directory as the descriptor writes it, and the file
/// names that its listing reports.
pub open spec fn inventory_of(
    watched: Seq<(Seq<char>, Seq<char>)>,
    listings: Seq<Listing>,
) -> Seq<ServiceFilesView> {
    Seq::new(
        watched.len(),
        |i: int|
            ServiceFilesView {
                service_type: watched[i].0,
                dir: watched[i].1,
                log_files: files_of(listings[i]),
            },
    )
}

/// An inventory has exactly one entry for each watched directory, in order;
/// each entry carries the service's name, the directory as the descriptor
/// writes it, and exactly the file names that the directory's listing
/// reports.
pub proof fn lemma_inventory_entries(watched: Seq<(Seq<char>, Seq<char>)>, listings: Seq<Listing>)
    ensures
        inventory_of(watched, listings).len() == watched.len(),
        forall|i: int|
            0 <= i < watched.len() ==> {
                &&& (#[trigger] inventory_of(watched, listings)[i]).service_type == watched[i].0
                &&& inventory_of(watched, listings)[i].dir == watched[i].1
                &&& inventory_of(watched, listings)[i].log_files == files_of(listings[i])
            },
{
}

/// A directory that could not be read has no file names in the inventory,
/// and what the inventory says of the other directories does not depend on
/// it: it is what it would be had the directory been read as anything else.
pub proof fn lemma_unreadable_directory(
    watched: Seq<(Seq<char>, Seq<char>)>,
    listings: Seq<Listing>,
    others: Seq<Listing>,
    k: int,
)
    requires
        0 <= k < watched.len(),
        listings.len() == watched.len(),
        others.len() == watched.len(),
        listings[k] is Unreadable || (listings[k] matches Listing::Entries(entries)
            && !all_readable(entries@)),
        forall|i: int| 0 <= i < watched.len() && i != k ==> listings[i] == others[i],
    ensures
        inventory_of(watched, listings)[k].log_files == Seq::<Seq<char>>::empty(),
        forall|i: int|
            0 <= i < watched.len() && i != k ==> #[trigger] inventory_of(watched, listings)[i]
                == inventory_of(watched, others)[i],
{
}

/// The reply to a discovery request.
#[derive(Debug, Clone, PartialEq, Eq)]
pub struct Response {
    pub cmd: String,
    pub services: Vec<ServiceFiles>,
}

impl EdgeDescriptor {
    /// The inventory of the host, from one listing for each watched
    /// directory, in the order of [`EdgeDescriptor::watched_paths`]. `None`
    /// where the listings are not one for each directory.
    pub fn inventory(&self, listings: &Vec<Listing>) -> (r: Option<Vec<ServiceFiles>>)
        ensures
            r is Some <==> listings@.len() == self.watched().len(),
            r matches Some(services) ==> service_views(services@) == inventory_of(
                self.watched(),
                listings@,
            ),
    {
        let watched = self.watched_paths();
        assert(pair_texts(watched@).len() == watched@.len());
        if listings.len() != watched.len() {
            return None;
        }
        let mut out: Vec<ServiceFiles> = Vec::new();
        let mut i: usize = 0;
        while i < watched.len()
            invariant
                i <= watched.len(),
                listings.len() == watched.len(),
                out.len() == i,
                pair_texts(watched@) == self.watched(),
                forall|j: int|
                    0 <= j < i ==> (#[trigger] out@[j])@ == inventory_of(
                        self.watched(),
                        listings@,
                    )[j],
            decreases watched.len() - i,
        {
            let log_files = get_files_in_directory(&listings[i]);
            assert(pair_texts(watched@)[i as int] == (watched@[i as int].0@, watched@[i as int].1@));
            out.push(
                ServiceFiles {
                    service_type: watched[i].0.clone(),
                    dir: watched[i].1.clone(),
                    log_files,
                },
            );
            i = i + 1;
        }
        assert(service_views(out@) =~= inventory_of(self.watched(), listings@));
        Some(out)
    }
}

impl ServiceFilesView {
    /// The entry as the wire carries it.
    pub open spec fn document(self) -> JsonValue {
        JsonValue::empty_object().with("service_type"@, JsonValue::Text(self.service_type)).with(
            "dir"@,
            JsonValue::Text(self.dir),
        ).with("log_files"@, JsonValue::Array(text_values(self.log_files)))
    }
}

/// The wire documents of a list of entries, in order.
pub open spec fn service_documents(services: Seq<ServiceFilesView>) -> Seq<JsonValue> {
    Seq::new(services.len(), |i: int| services[i].document())
}

/// The reply to a discovery request as the wire carries it: the command's
/// name and one entry for each watched directory.
pub open spec fn response_document(cmd: Seq<char>, services: Seq<ServiceFilesView>) -> JsonValue {
    JsonValue::empty_object().with("cmd"@, JsonValue::Text(cmd)).with(
        "services"@,
        JsonValue::Array(service_documents(services)),
    )
}

impl ServiceFiles {
    /// The entry as the wire carries it.
    pub fn to_json(&self) -> (r: Json)
        ensures
            r@ == self@.document(),
    {
        Json::object().with("service_type", Json::text(self.service_type.as_str())).with(
            "dir",
            Json::text(self.dir.as_str()),
        ).with("log_files", Json::texts(&self.log_files))
    }
}

impl Response {
    /// The reply as the wire carries it.
    pub fn to_json(&self) -> (r: Json)
        ensures
            r@ == response_document(self.cmd@, service_views(self.services@)),
    {
        let mut entries: Vec<Json> = Vec::new();
        let mut i: usize = 0;
        while i < self.services.len()
            invariant
                i <= self.services.len(),
                entries.len() == i,
                forall|j: int| 0 <= j < i ==> (#[trigger] entries@[j])@ == self.services@[j]@.document(),
            decreases self.services.len() - i,
        {
            entries.push(self.services[i].to_json());
            i = i + 1;
        }
        assert(values_of(entries@) =~= service_documents(service_views(self.services@)));
        Json::object().with("cmd", Json::text(self.cmd.as_str())).with(
            "services",
            Json::array(entries),
        )
    }

    /// The reply as JSON text.
    pub fn to_text(&self) -> (r: String)
        ensures
            r@ == json_rendered(response_document(self.cmd@, service_views(self.services@))),
    {
        self.to_json().to_text()
    }
}

/// The text of a discovery request, and the command's name in its reply.
pub const DISCOVER: &'static str = "get_log_source";

/// The command's name in a request to ship another file.
pub const UPLOAD: &'static str = "firebase_upload";

/// The text that acknowledges a request to ship another file.
pub const UPLOAD_ACK: &'static str = "firebase_upload ing";

/// The name by which the shipper's container is found.
pub const SHIPPER_CONTAINER: &'static str = "filebeat";

/// Where the descriptor lies unless the environment says otherwise.
pub const DEFAULT_DESCRIPTOR_PATH: &'static str =
    "/Users/hanxiaoqing/log-searching/filebeat_restful/config/log.yaml";

/// Where the shipper's input configuration lies unless the environment says
/// otherwise.
pub const DEFAULT_SHIPPER_INPUT_PATH: &'static str =
    "/Users/hanxiaoqing/log-searching/filebeat_restful/filebeat/inputs.d/log.yml";

/// Where an agent finds its files, and how it reloads the shipper.
#[derive(Debug, Clone, PartialEq, Eq)]
pub struct AgentSettings {
    /// The path of the descriptor.
    pub descriptor_path: String,
    /// The path of the shipper's input configuration.
    pub shipper_input_path: String,
    /// The path of the shipper's main configuration. Where it is given the
    /// shipper runs as a child process, else in a container.
    pub shipper_main_path: Option<String>,
}

impl AgentSettings {
    /// The settings that the environment asks for: each path as it is bound
    /// there, or its default where it is not.
    pub fn resolve(
        descriptor_path: Option<String>,
        shipper_input_path: Option<String>,
        shipper_main_path: Option<String>,
    ) -> (r: AgentSettings)
        ensures
            r.descriptor_path@ == match descriptor_path {
                Some(p) => p@,
                None => DEFAULT_DESCRIPTOR_PATH@,
            },
            r.shipper_input_path@ == match shipper_input_path {
                Some(p) => p@,
                None => DEFAULT_SHIPPER_INPUT_PATH@,
            },
            optional_text(r.shipper_main_path) == optional_text(shipper_main_path),
    {
        AgentSettings {
            descriptor_path: match descriptor_path {
                Some(p) => p,
                None => DEFAULT_DESCRIPTOR_PATH.to_owned(),
            },
            shipper_input_path: match shipper_input_path {
                Some(p) => p,
                None => DEFAULT_SHIPPER_INPUT_PATH.to_owned(),
            },
            shipper_main_path,
        }
    }
}

/// A message from a peer.
#[derive(Debug, Clone, PartialEq, Eq)]
pub enum Incoming {
    /// A text message.
    Text(String),
    /// A binary message.
    Binary,
    /// The peer closes the connection.
    Close,
    /// Anything else: a ping, a pong, a raw frame.
    Other,
}

/// What a text message asks for.
#[derive(Debug, Clone, PartialEq, Eq)]
pub enum Command {
    /// The inventory of the host.
    Discover,
    /// To ship `upload_file` under the labels `hostname` and `service`.
    Upload { upload_file: String, hostname: String, service: String },
    /// Nothing that the agent knows.
    Nothing,
}

/// The mathematical value of a [`Command`].
pub ghost enum CommandView {
    Discover,
    Upload { upload_file: Seq<char>, hostname: Seq<char>, service: Seq<char> },
    Nothing,
}

impl View for Command {
    type V = CommandView;

    open spec fn view(&self) -> CommandView {
        match self {
            Command::Discover => CommandView::Discover,
            Command::Upload { upload_file, hostname, service } => CommandView::Upload {
                upload_file: upload_file@,
                hostname: hostname@,
                service: service@,
            },
            Command::Nothing => CommandView::Nothing,
        }
    }
}

/// The command that `text` is, for an agent that has its descriptor
/// (`loaded`) or not, where `parsed` is what the text reads as JSON.
///
/// The bare text of a discovery request asks for the inventory, once there
/// is a descriptor. A JSON object whose `cmd` is the upload command asks to
/// ship a file; what it does not say as a text is taken as empty. All else
/// asks for nothing.
pub open spec fn command_of(text: Seq<char>, parsed: Option<JsonValue>, loaded: bool) -> CommandView {
    if text == DISCOVER@ && loaded {
        CommandView::Discover
    } else {
        match parsed {
            Some(doc) => if doc.text_at("cmd"@) == Some(UPLOAD@) {
                CommandView::Upload {
                    upload_file: doc.text_or_empty("upload_file"@),
                    hostname: doc.text_or_empty("hostname"@),
                    service: doc.text_or_empty("service"@),
                }
            } else {
                CommandView::Nothing
            },
            None => CommandView::Nothing,
        }
    }
}

impl Command {
    /// The command that `text` is, given what the text reads as JSON.
    pub fn from_document(text: &str, parsed: Option<&Json>, loaded: bool) -> (r: Command)
        ensures
            r@ == command_of(text@, value_of_ref(parsed), loaded),
    {
        if loaded && same_text(text, DISCOVER) {
            return Command::Discover;
        }
        match parsed {
            Some(doc) => {
                let is_upload = match doc.text_at("cmd") {
                    Some(cmd) => same_text(cmd.as_str(), UPLOAD),
                    None => false,
                };
                if is_upload {
                    Command::Upload {
                        upload_file: doc.text_or_empty("upload_file"),
                        hostname: doc.text_or_empty("hostname"),
                        service: doc.text_or_empty("service"),
                    }
                } else {
                    Command::Nothing
                }
            },
            None => Command::Nothing,
        }
    }

    /// The command that `text` is.
    pub fn decode(text: &str, loaded: bool) -> (r: Command)
        ensures
            r@ == command_of(text@, json_parsed(text@), loaded),
    {
        let parsed = Json::from_text(text);
        Command::from_document(text, parsed.as_ref(), loaded)
    }
}

/// One thing for the caller to do on a connection.
#[derive(Debug, Clone, PartialEq, Eq)]
pub enum Action {
    /// List each watched directory and send the inventory.
    SendInventory,
    /// Rewrite the first entry of the shipper's input configuration at `path`.
    RewriteShipperInput { path: String, paths: Vec<String>, service: String, hostname: String },
    /// Send a text message.
    SendText(String),
    /// Run the shipper as a child process on its main configuration.
    StartShipper { config_path: String },
    /// Find the container that runs the shipper and restart it.
    RestartContainer { service_name: String },
    /// Close the connection.
    Close,
}

/// The mathematical value of an [`Action`].
pub ghost enum ActionView {
    SendInventory,
    RewriteShipperInput {
        path: Seq<char>,
        paths: Seq<Seq<char>>,
        service: Seq<char>,
        hostname: Seq<char>,
    },
    SendText(Seq<char>),
    StartShipper { config_path: Seq<char> },
    RestartContainer { service_name: Seq<char> },
    Close,
}

impl View for Action {
    type V = ActionView;

    open spec fn view(&self) -> ActionView {
        match self {
            Action::SendInventory => ActionView::SendInventory,
            Action::RewriteShipperInput { path, paths, service, hostname } => {
                ActionView::RewriteShipperInput {
                    path: path@,
                    paths: texts(paths@),
                    service: service@,
                    hostname: hostname@,
                }
            },
            Action::SendText(text) => ActionView::SendText(text@),
            Action::StartShipper { config_path } => ActionView::StartShipper {
                config_path: config_path@,
            },
            Action::RestartContainer { service_name } => ActionView::RestartContainer {
                service_name: service_name@,
            },
            Action::Close => ActionView::Close,
        }
    }
}

/// The value of each action of a list, in order.
pub open spec fn action_views(actions: Seq<Action>) -> Seq<ActionView> {
    Seq::new(actions.len(), |i: int| actions[i]@)
}

/// How the shipper is reloaded: as a child process where its main
/// configuration is given, else by restarting its container.
pub open spec fn reload_of(settings: AgentSettings) -> ActionView {
    match settings.shipper_main_path {
        Some(path) => ActionView::StartShipper { config_path: path@ },
        None => ActionView::RestartContainer { service_name: SHIPPER_CONTAINER@ },
    }
}

/// What a command asks the caller to do, in order.
///
/// An upload asks for the rewrite of the shipper's input configuration, and
/// for nothing else until the outcome of the rewrite is known.
pub open spec fn actions_for(command: CommandView, settings: AgentSettings) -> Seq<ActionView> {
    match command {
        CommandView::Discover => seq![ActionView::SendInventory],
        CommandView::Upload { upload_file, hostname, service } => seq![
            ActionView::RewriteShipperInput {
                path: settings.shipper_input_path@,
                paths: seq![upload_file],
                service,
                hostname,
            },
        ],
        CommandView::Nothing => Seq::empty(),
    }
}

/// What the outcome of the rewrite asks the caller to do, in order.
///
/// A configuration that was rewritten is acknowledged, and then the shipper
/// is reloaded: the acknowledgement does not wait for the reload. A rewrite
/// that failed is a command that failed: it is not acknowledged, and the
/// shipper is not reloaded.
pub open spec fn rewritten_actions(
    outcome: Result<(), RewriteFailure>,
    settings: AgentSettings,
) -> Seq<ActionView> {
    match outcome {
        Ok(_) => seq![ActionView::SendText(UPLOAD_ACK@), reload_of(settings)],
        Err(_) => Seq::empty(),
    }
}

/// What a message asks the caller to do, in order, where `parsed` is what a
/// text message reads as JSON.
pub open spec fn reaction_to(
    message: Incoming,
    parsed: Option<JsonValue>,
    loaded: bool,
    settings: AgentSettings,
) -> Seq<ActionView> {
    match message {
        Incoming::Text(text) => actions_for(command_of(text@, parsed, loaded), settings),
        Incoming::Close => seq![ActionView::Close],
        _ => Seq::empty(),
    }
}

/// What a message reads as JSON: a text message as its text does, any other
/// as nothing.
pub open spec fn parsed_of(message: Incoming) -> Option<JsonValue> {
    match message {
        Incoming::Text(text) => json_parsed(text@),
        _ => None,
    }
}

/// Where a connection stands.
#[derive(Debug, Clone, Copy, PartialEq, Eq, Structural)]
pub enum ConnectionState {
    /// The peer is there; the handshake is not done.
    Connected,
    /// The agent waits for the peer's next message.
    AwaitingMessage,
    /// The agent does what a message asked for.
    Replying,
    /// The agent closes the connection.
    Closing,
    /// The connection is over.
    Closed,
}

impl ConnectionState {
    /// Whether a connection in this state is among the live connections.
    pub open spec fn live(self) -> bool {
        self is AwaitingMessage || self is Replying || self is Closing
    }
}

/// Why a connection failed.
#[derive(Debug, Clone, Copy, PartialEq, Eq, Structural)]
pub enum ConnectionError {
    /// The peer closed the connection.
    ConnectionClosed,
    /// The peer broke the protocol.
    Protocol,
    /// The peer sent text that is not UTF-8.
    Utf8,
    /// Anything else.
    Other,
}

impl ConnectionError {
    /// Whether this is how connections ordinarily end.
    pub open spec fn ordinary(self) -> bool {
        self is ConnectionClosed || self is Protocol || self is Utf8
    }
}

/// What happened on a connection.
#[derive(Debug, PartialEq, Eq)]
pub enum ConnectionEvent {
    /// The handshake is done.
    Accepted,
    /// A message came.
    Received(Incoming),
    /// The rewrite of the shipper's input configuration that was asked for
    /// is over, with this outcome.
    Rewritten(Result<(), RewriteFailure>),
    /// What was asked for last is done.
    Done,
    /// The connection failed.
    Failed(ConnectionError),
    /// The peer is gone.
    Ended,
}

/// What an event asks the caller to do, in order. A message that comes
/// while the agent waits for one asks for what it says; the outcome of a
/// rewrite that comes while the agent replies asks for what follows the
/// rewrite. Nothing else asks for anything.
pub open spec fn actions_on(
    state: ConnectionState,
    event: ConnectionEvent,
    parsed: Option<JsonValue>,
    loaded: bool,
    settings: AgentSettings,
) -> Seq<ActionView> {
    match event {
        ConnectionEvent::Received(message) => if state is AwaitingMessage {
            reaction_to(message, parsed, loaded, settings)
        } else {
            Seq::empty()
        },
        ConnectionEvent::Rewritten(outcome) => if state is Replying {
            rewritten_actions(outcome, settings)
        } else {
            Seq::empty()
        },
        _ => Seq::empty(),
    }
}

/// The state that follows `state` on `event`, where the event asks for
/// `actions`.
///
/// A closed connection stays closed. A failure, or the peer's going away,
/// closes any other. The handshake leads to waiting; a message leads to
/// closing where it is a close, to replying where it asks for anything, and
/// back to waiting where it asks for nothing. While the agent replies, the
/// outcome of a rewrite leaves it replying where more is asked for, and
/// leads back to waiting where the rewrite failed: the connection stays
/// open either way. The end of a reply leads back to waiting and the end of
/// closing to closed. An event out of turn changes nothing.
pub open spec fn next_state(
    state: ConnectionState,
    event: ConnectionEvent,
    actions: Seq<ActionView>,
) -> ConnectionState {
    if state is Closed {
        ConnectionState::Closed
    } else {
        match event {
            ConnectionEvent::Failed(_) => ConnectionState::Closed,
            ConnectionEvent::Ended => ConnectionState::Closed,
            ConnectionEvent::Accepted => if state is Connected {
                ConnectionState::AwaitingMessage
            } else {
                state
            },
            ConnectionEvent::Received(message) => if state is AwaitingMessage {
                if message is Close {
                    ConnectionState::Closing
                } else if actions.len() > 0 {
                    ConnectionState::Replying
                } else {
                    ConnectionState::AwaitingMessage
                }
            } else {
                state
            },
            ConnectionEvent::Rewritten(_) => if state is Replying {
                if actions.len() > 0 {
                    ConnectionState::Replying
                } else {
                    ConnectionState::AwaitingMessage
                }
            } else {
                state
            },
            ConnectionEvent::Done => if state is Replying {
                ConnectionState::AwaitingMessage
            } else if state is Closing {
                ConnectionState::Closed
            } else {
                state
            },
        }
    }
}

/// The live connections after the connection `handle` has come to `state`:
/// with it while it is live, without it otherwise.
pub open spec fn connections_after(
    connections: Set<u64>,
    handle: u64,
    state: ConnectionState,
) -> Set<u64> {
    if state.live() {
        connections.insert(handle)
    } else {
        connections.remove(handle)
    }
}

/// A closed connection stays closed, whatever happens, and nothing is asked
/// of the caller for it: nothing is written to it again.
pub proof fn lemma_closed_is_final(
    event: ConnectionEvent,
    parsed: Option<JsonValue>,
    loaded: bool,
    settings: AgentSettings,
)
    ensures
        actions_on(ConnectionState::Closed, event, parsed, loaded, settings) == Seq::<
            ActionView,
        >::empty(),
        next_state(
            ConnectionState::Closed,
            event,
            actions_on(ConnectionState::Closed, event, parsed, loaded, settings),
        ) == ConnectionState::Closed,
{
}

/// A failure, or the peer's going away, closes a connection from any state.
pub proof fn lemma_failure_closes(
    state: ConnectionState,
    event: ConnectionEvent,
    actions: Seq<ActionView>,
)
    requires
        event is Failed || event is Ended,
    ensures
        next_state(state, event, actions) == ConnectionState::Closed,
{
}

/// After a step a connection is among the live connections exactly while it
/// is live, and no other connection has joined or left them: what happens
/// on one connection leaves every other where it was.
pub proof fn lemma_connections_do_not_interfere(
    connections: Set<u64>,
    handle: u64,
    state: ConnectionState,
    other: u64,
)
    requires
        other != handle,
    ensures
        connections_after(connections, handle, state).contains(handle) == state.live(),
        connections_after(connections, handle, state).contains(other) == connections.contains(
            other,
        ),
{
}

/// An upload asks for the rewrite of the shipper's input configuration and
/// for nothing else: no acknowledgement and no reload before the outcome of
/// the rewrite is known.
pub proof fn lemma_upload_asks_for_the_rewrite(
    upload_file: Seq<char>,
    hostname: Seq<char>,
    service: Seq<char>,
    settings: AgentSettings,
)
    ensures
        actions_for(CommandView::Upload { upload_file, hostname, service }, settings) == seq![
            ActionView::RewriteShipperInput {
                path: settings.shipper_input_path@,
                paths: seq![upload_file],
                service,
                hostname,
            },
        ],
{
}

/// A configuration that was rewritten is acknowledged exactly once, and the
/// shipper is reloaded after the acknowledgement.
pub proof fn lemma_rewritten_is_acknowledged_once(settings: AgentSettings)
    ensures
        ({
            let actions = rewritten_actions(Ok(()), settings);
            &&& actions.len() == 2
            &&& actions[0] == ActionView::SendText(UPLOAD_ACK@)
            &&& actions[1] == reload_of(settings)
            &&& !(actions[1] is SendText)
        }),
{
}

/// A rewrite that failed is a command that failed: whatever the failure,
/// nothing is sent to the peer, the shipper is not reloaded, and the
/// connection goes back to waiting for the peer's next message.
pub proof fn lemma_failed_rewrite_is_not_acknowledged(
    failure: RewriteFailure,
    parsed: Option<JsonValue>,
    loaded: bool,
    settings: AgentSettings,
)
    ensures
        rewritten_actions(Err(failure), settings) == Seq::<ActionView>::empty(),
        actions_on(
            ConnectionState::Replying,
            ConnectionEvent::Rewritten(Err(failure)),
            parsed,
            loaded,
            settings,
        ) == Seq::<ActionView>::empty(),
        next_state(
            ConnectionState::Replying,
            ConnectionEvent::Rewritten(Err(failure)),
            Seq::<ActionView>::empty(),
        ) == ConnectionState::AwaitingMessage,
{
}

/// The acknowledgement of an upload is asked for on one event only: the
/// outcome of a rewrite that succeeded, while the agent replies.
pub proof fn lemma_acknowledgement_follows_the_rewrite(
    state: ConnectionState,
    event: ConnectionEvent,
    parsed: Option<JsonValue>,
    loaded: bool,
    settings: AgentSettings,
    i: int,
)
    requires
        0 <= i < actions_on(state, event, parsed, loaded, settings).len(),
        actions_on(state, event, parsed, loaded, settings)[i] is SendText,
    ensures
        state is Replying,
        event matches ConnectionEvent::Rewritten(outcome) && outcome is Ok,
{
    let actions = actions_on(state, event, parsed, loaded, settings);
    match event {
        ConnectionEvent::Received(message) => {
            match message {
                Incoming::Text(text) => {
                    match command_of(text@, parsed, loaded) {
                        CommandView::Discover => {
                            assert(actions[i] == ActionView::SendInventory);
                        },
                        CommandView::Upload { .. } => {
                            assert(actions[i] is RewriteShipperInput);
                        },
                        CommandView::Nothing => {},
                    }
                },
                Incoming::Close => {
                    assert(actions[i] == ActionView::Close);
                },
                _ => {},
            }
        },
        ConnectionEvent::Rewritten(outcome) => {},
        _ => {},
    }
}

/// What taking in a peer gives, for an agent that has given `issued`
/// handles and has its descriptor (`loaded`) or not: the handle of the new
/// connection, which is the number of handles given before. An agent
/// without descriptor takes in nobody, and neither does one that has no
/// handle left.
pub open spec fn admitted(issued: u64, loaded: bool) -> Option<u64> {
    if loaded && issued < u64::MAX {
        Some(issued)
    } else {
        None
    }
}

/// No handle is given twice: whoever is taken in later, after any number of
/// others, gets a larger handle.
pub proof fn lemma_handles_differ(issued: u64, later: u64)
    requires
        admitted(issued, true) is Some,
        admitted(later, true) is Some,
        issued < later,
    ensures
        admitted(issued, true)->0 < admitted(later, true)->0,
        admitted(issued, true)->0 != admitted(later, true)->0,
{
}

/// The agent: its descriptor, its settings, its live connections, and the
/// number of handles it has given. Every live connection has a handle that
/// the agent gave.
pub struct WebSocketServer {
    clients: ConnectionSet,
    config: Option<EdgeDescriptor>,
    settings: AgentSettings,
    issued: u64,
}

impl WebSocketServer {
    #[verifier::type_invariant]
    spec fn live_were_issued(&self) -> bool {
        forall|h: u64| self.clients@.contains(h) ==> h < self.issued
    }

    /// How many handles the agent has given.
    pub closed spec fn issued(&self) -> u64 {
        self.issued
    }

    /// The live connections.
    pub closed spec fn connections(&self) -> Set<u64> {
        self.clients@
    }

    /// The descriptor, once it is loaded.
    pub closed spec fn descriptor(&self) -> Option<EdgeDescriptor> {
        self.config
    }

    /// Whether the descriptor is loaded.
    pub open spec fn loaded(&self) -> bool {
        self.descriptor() is Some
    }

    /// The settings.
    pub closed spec fn settings(&self) -> AgentSettings {
        self.settings
    }

    /// An agent without descriptor and without connections, with the default
    /// settings.
    pub fn new() -> (r: WebSocketServer)
        ensures
            r.connections() == Set::<u64>::empty(),
            r.issued() == 0,
            r.descriptor() is None,
            r.settings().descriptor_path@ == DEFAULT_DESCRIPTOR_PATH@,
            r.settings().shipper_input_path@ == DEFAULT_SHIPPER_INPUT_PATH@,
            r.settings().shipper_main_path is None,
    {
        WebSocketServer {
            clients: ConnectionSet::new(),
            config: None,
            settings: AgentSettings::resolve(None, None, None),
            issued: 0,
        }
    }

    /// The same agent with other settings.
    pub fn with_settings(self, settings: AgentSettings) -> (r: WebSocketServer)
        ensures
            r.connections() == self.connections(),
            r.issued() == self.issued(),
            r.descriptor() == self.descriptor(),
            r.settings() == settings,
    {
        proof {
            use_type_invariant(&self);
        }
        WebSocketServer {
            clients: self.clients,
            config: self.config,
            settings,
            issued: self.issued,
        }
    }

    /// Loads the descriptor. It is loaded once: a later one is dropped.
    pub fn load_config(&mut self, descriptor: EdgeDescriptor)
        ensures
            final(self).descriptor() == match old(self).descriptor() {
                Some(first) => Some(first),
                None => Some(descriptor),
            },
            final(self).connections() == old(self).connections(),
            final(self).issued() == old(self).issued(),
            final(self).settings() == old(self).settings(),
    {
        proof {
            use_type_invariant(&*self);
        }
        if self.config.is_none() {
            self.config = Some(descriptor);
        }
    }

    /// Takes in a peer that connected: gives its connection a handle that
    /// no connection had before, and says where the connection stands. An
    /// agent without descriptor takes in nobody.
    pub fn run(&mut self) -> (r: Option<(u64, ConnectionState)>)
        ensures
            match r {
                Some((handle, state)) => {
                    &&& admitted(old(self).issued(), old(self).loaded()) == Some(handle)
                    &&& state == ConnectionState::Connected
                    &&& !old(self).connections().contains(handle)
                    &&& final(self).issued() == handle + 1
                },
                None => {
                    &&& admitted(old(self).issued(), old(self).loaded()) is None
                    &&& final(self).issued() == old(self).issued()
                },
            },
            final(self).connections() == old(self).connections(),
            final(self).descriptor() == old(self).descriptor(),
            final(self).settings() == old(self).settings(),
    {
        proof {
            use_type_invariant(&*self);
        }
        if self.config.is_some() && self.issued < u64::MAX {
            let handle = self.issued;
            self.issued = handle + 1;
            Some((handle, ConnectionState::Connected))
        } else {
            None
        }
    }

    /// The descriptor, once it is loaded.
    pub fn config(&self) -> (r: Option<&EdgeDescriptor>)
        ensures
            match r {
                Some(d) => self.descriptor() == Some(*d),
                None => self.descriptor() is None,
            },
    {
        self.config.as_ref()
    }

    /// The settings.
    pub fn agent_settings(&self) -> (r: &AgentSettings)
        ensures
            *r == self.settings(),
    {
        &self.settings
    }

    /// Whether `handle` is a live connection.
    pub fn is_live(&self, handle: u64) -> (r: bool)
        ensures
            r == self.connections().contains(handle),
            r ==> handle < self.issued(),
    {
        proof {
            use_type_invariant(self);
        }
        self.clients.contains(handle)
    }

    /// How many connections are live.
    pub fn live_connections(&self) -> (r: usize)
        ensures
            r == self.connections().len(),
            self.connections().finite(),
    {
        self.clients.len()
    }

    /// The reply to a discovery request, from one listing for each watched
    /// directory. `None` where no descriptor is loaded or the listings are
    /// not one for each directory.
    pub fn respond(&self, listings: &Vec<Listing>) -> (r: Option<Response>)
        ensures
            r is Some <==> (self.descriptor() matches Some(d) && listings@.len()
                == d.watched().len()),
            r matches Some(reply) ==> reply.cmd@ == DISCOVER@ && service_views(reply.services@)
                == inventory_of(self.descriptor()->0.watched(), listings@),
    {
        match &self.config {
            Some(descriptor) => match descriptor.inventory(listings) {
                Some(services) => Some(Response { cmd: DISCOVER.to_owned(), services }),
                None => None,
            },
            None => None,
        }
    }

    /// What a message asks the caller to do, in order, given what a text
    /// message reads as JSON.
    pub fn react(&self, message: &Incoming, parsed: Option<&Json>) -> (r: Vec<Action>)
        ensures
            action_views(r@) == reaction_to(
                *message,
                value_of_ref(parsed),
                self.loaded(),
                self.settings(),
            ),
    {
        let mut out: Vec<Action> = Vec::new();
        match message {
            Incoming::Text(text) => {
                match Command::from_document(text.as_str(), parsed, self.config.is_some()) {
                    Command::Discover => {
                        out.push(Action::SendInventory);
                    },
                    Command::Upload { upload_file, hostname, service } => {
                        let mut paths: Vec<String> = Vec::new();
                        paths.push(upload_file);
                        assert(texts(paths@) =~= seq![upload_file@]);
                        out.push(
                            Action::RewriteShipperInput {
                                path: self.settings.shipper_input_path.clone(),
                                paths,
                                service,
                                hostname,
                            },
                        );
                    },
                    Command::Nothing => {},
                }
            },
            Incoming::Close => {
                out.push(Action::Close);
            },
            _ => {},
        }
        assert(action_views(out@) =~= reaction_to(
            *message,
            value_of_ref(parsed),
            self.loaded(),
            self.settings(),
        ));
        out
    }

    /// What the outcome of the rewrite that an upload asked for asks the
    /// caller to do, in order: to acknowledge and then to reload the shipper
    /// where the configuration was rewritten, nothing where it was not.
    pub fn upload_rewritten(&self, outcome: &Result<(), RewriteFailure>) -> (r: Vec<Action>)
        ensures
            action_views(r@) == rewritten_actions(*outcome, self.settings()),
    {
        let mut out: Vec<Action> = Vec::new();
        match outcome {
            Ok(_) => {
                out.push(Action::SendText(UPLOAD_ACK.to_owned()));
                match &self.settings.shipper_main_path {
                    Some(path) => {
                        out.push(Action::StartShipper { config_path: path.clone() });
                    },
                    None => {
                        out.push(
                            Action::RestartContainer { service_name: SHIPPER_CONTAINER.to_owned() },
                        );
                    },
                }
            },
            Err(_) => {},
        }
        assert(action_views(out@) =~= rewritten_actions(*outcome, self.settings()));
        out
    }

    /// What a message asks the caller to do, in order.
    pub fn handle_client_message(&self, message: &Incoming) -> (r: Vec<Action>)
        ensures
            action_views(r@) == reaction_to(
                *message,
                parsed_of(*message),
                self.loaded(),
                self.settings(),
            ),
    {
        match message {
            Incoming::Text(text) => {
                let parsed = Json::from_text(text.as_str());
                self.react(message, parsed.as_ref())
            },
            _ => self.react(message, None),
        }
    }

    /// Takes one event on the connection `handle`, which stands at `state`:
    /// says where the connection stands after it and what the caller is to
    /// do, in order, and keeps the live connections. A connection whose
    /// handle the agent never gave is closed, and nothing is done for it.
    pub fn handle_connection(
        &mut self,
        handle: u64,
        state: ConnectionState,
        event: &ConnectionEvent,
    ) -> (r: (ConnectionState, Vec<Action>))
        ensures
            handle < old(self).issued() ==> action_views(r.1@) == actions_on(
                state,
                *event,
                match *event {
                    ConnectionEvent::Received(message) => parsed_of(message),
                    _ => None,
                },
                old(self).loaded(),
                old(self).settings(),
            ),
            handle < old(self).issued() ==> r.0 == next_state(state, *event, action_views(r.1@)),
            handle >= old(self).issued() ==> r.0 == ConnectionState::Closed && action_views(r.1@)
                == Seq::<ActionView>::empty(),
            final(self).connections() == connections_after(old(self).connections(), handle, r.0),
            final(self).issued() == old(self).issued(),
            final(self).descriptor() == old(self).descriptor(),
            final(self).settings() == old(self).settings(),
    {
        proof {
            use_type_invariant(&*self);
        }
        let mut actions: Vec<Action> = Vec::new();
        assert(action_views(actions@) =~= Seq::empty());
        if handle >= self.issued {
            assert(self.connections().remove(handle) =~= self.connections());
            return (ConnectionState::Closed, actions);
        }
        let next = match state {
            ConnectionState::Closed => ConnectionState::Closed,
            _ => match event {
                ConnectionEvent::Failed(_) => ConnectionState::Closed,
                ConnectionEvent::Ended => ConnectionState::Closed,
                ConnectionEvent::Accepted => match state {
                    ConnectionState::Connected => ConnectionState::AwaitingMessage,
                    _ => state,
                },
                ConnectionEvent::Received(message) => match state {
                    ConnectionState::AwaitingMessage => {
                        actions = self.handle_client_message(message);
                        match message {
                            Incoming::Close => ConnectionState::Closing,
                            _ => if actions.len() > 0 {
                                ConnectionState::Replying
                            } else {
                                ConnectionState::AwaitingMessage
                            },
                        }
                    },
                    _ => state,
                },
                ConnectionEvent::Rewritten(outcome) => match state {
                    ConnectionState::Replying => {
                        actions = self.upload_rewritten(outcome);
                        if actions.len() > 0 {
                            ConnectionState::Replying
                        } else {
                            ConnectionState::AwaitingMessage
                        }
                    },
                    _ => state,
                },
                ConnectionEvent::Done => match state {
                    ConnectionState::Replying => ConnectionState::AwaitingMessage,
                    ConnectionState::Closing => ConnectionState::Closed,
                    _ => state,
                },
            },
        };
        let mut clients = ConnectionSet::new();
        std::mem::swap(&mut self.clients, &mut clients);
        match next {
            ConnectionState::AwaitingMessage | ConnectionState::Replying | ConnectionState::Closing => {
                clients.insert(handle);
            },
            _ => {
                clients.remove(handle);
            },
        }
        std::mem::swap(&mut self.clients, &mut clients);
        (next, actions)
    }

    /// What the end of a connection leaves to report: its failure, unless it
    /// is how connections ordinarily end.
    pub fn accept_connection(&self, outcome: Result<(), ConnectionError>) -> (r: Option<
        ConnectionError,
    >)
        ensures
            r == match outcome {
                Ok(_) => None,
                Err(error) => if error.ordinary() {
                    None
                } else {
                    Some(error)
                },
            },
    {
        match outcome {
            Ok(_) => None,
            Err(ConnectionError::ConnectionClosed) => None,
            Err(ConnectionError::Protocol) => None,
            Err(ConnectionError::Utf8) => None,
            Err(error) => Some(error),
        }
    }
}

} // verus!
