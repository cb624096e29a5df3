use log_searching::json::Json;
use log_searching::modify_filebeat_yaml::{rewrite_shipper_input, RewriteFailure};
use log_searching::websocket::{
    get_files_in_directory, Action, AgentSettings, Command, ConnectionError, ConnectionEvent,
    ConnectionSet, ConnectionState, EdgeDescriptor, EntryName, Incoming, Listing, Response,
    ServiceFiles, ServiceType, WebSocketServer, DEFAULT_DESCRIPTOR_PATH,
    DEFAULT_SHIPPER_INPUT_PATH,
};

fn s(text: &str) -> String {
    text.to_string()
}

fn descriptor() -> EdgeDescriptor {
    EdgeDescriptor::new(vec![
        ServiceType { service_type: s("nginx"), path: vec![s("/var/log/nginx"), s("/srv/nginx")] },
        ServiceType { service_type: s("idle"), path: vec![] },
        ServiceType { service_type: s("app"), path: vec![s("/var/log/app")] },
    ])
    .expect("every service has a name")
}

fn names(list: &[&str]) -> Listing {
    Listing::Entries(list.iter().map(|n| EntryName::Name(n.to_string())).collect())
}

fn loaded_server() -> WebSocketServer {
    let mut server = WebSocketServer::new();
    server.load_config(descriptor());
    server
}

#[test]
fn descriptor_refuses_a_service_without_name() {
    assert!(EdgeDescriptor::new(vec![ServiceType { service_type: s(""), path: vec![] }]).is_none());
    assert!(EdgeDescriptor::new(vec![]).is_some());
}

#[test]
fn watched_paths_are_each_service_beside_each_directory() {
    assert_eq!(
        descriptor().watched_paths(),
        vec![
            (s("nginx"), s("/var/log/nginx")),
            (s("nginx"), s("/srv/nginx")),
            (s("app"), s("/var/log/app")),
        ]
    );
    assert_eq!(descriptor().log_inputs().len(), 3);
}

#[test]
fn listing_reports_its_names() {
    assert_eq!(get_files_in_directory(&names(&["a.log", "b.log"])), vec![s("a.log"), s("b.log")]);
}

#[test]
fn listing_of_a_missing_directory_reports_nothing() {
    assert_eq!(get_files_in_directory(&Listing::Unreadable), Vec::<String>::new());
}

#[test]
fn listing_with_an_unreadable_entry_reports_nothing() {
    let listing = Listing::Entries(vec![
        EntryName::Name(s("a.log")),
        EntryName::Unreadable,
        EntryName::Name(s("b.log")),
    ]);
    assert_eq!(get_files_in_directory(&listing), Vec::<String>::new());
}

#[test]
fn listing_gives_a_name_that_is_not_unicode_as_empty() {
    let listing = Listing::Entries(vec![EntryName::Name(s("a.log")), EntryName::NotUnicode]);
    assert_eq!(get_files_in_directory(&listing), vec![s("a.log"), s("")]);
}

#[test]
fn inventory_has_one_entry_for_each_watched_directory() {
    let listings = vec![names(&["access.log", "error.log"]), names(&[]), names(&["app.log"])];
    let services = descriptor().inventory(&listings).expect("one listing for each directory");
    assert_eq!(
        services,
        vec![
            ServiceFiles {
                service_type: s("nginx"),
                dir: s("/var/log/nginx"),
                log_files: vec![s("access.log"), s("error.log")],
            },
            ServiceFiles { service_type: s("nginx"), dir: s("/srv/nginx"), log_files: vec![] },
            ServiceFiles {
                service_type: s("app"),
                dir: s("/var/log/app"),
                log_files: vec![s("app.log")],
            },
        ]
    );
}

#[test]
fn inventory_of_an_unreadable_directory_is_empty_and_the_others_stand() {
    let readable = vec![names(&["access.log"]), names(&["x"]), names(&["app.log"])];
    let broken = vec![names(&["access.log"]), Listing::Unreadable, names(&["app.log"])];
    let all = descriptor().inventory(&readable).expect("one listing for each directory");
    let some = descriptor().inventory(&broken).expect("one listing for each directory");
    assert_eq!(some.len(), 3);
    assert_eq!(some[0], all[0]);
    assert_eq!(some[1].dir, "/srv/nginx");
    assert_eq!(some[1].log_files, Vec::<String>::new());
    assert_eq!(some[2], all[2]);
}

#[test]
fn inventory_needs_one_listing_for_each_directory() {
    assert_eq!(descriptor().inventory(&vec![names(&[])]), None);
    assert_eq!(descriptor().inventory(&vec![]), None);
}

#[test]
fn inventory_of_a_descriptor_without_directories_is_empty() {
    let nothing = EdgeDescriptor::new(vec![ServiceType { service_type: s("idle"), path: vec![] }])
        .expect("the service has a name");
    assert_eq!(nothing.inventory(&vec![]), Some(vec![]));
}

#[test]
fn reply_is_written_as_the_wire_expects() {
    let reply = Response {
        cmd: s("get_log_source"),
        services: vec![ServiceFiles {
            service_type: s("nginx"),
            dir: s("/var/log/nginx"),
            log_files: vec![s("access.log"), s("error.log")],
        }],
    };
    let doc = Json::from_text(&reply.to_text()).expect("the reply is JSON");
    assert_eq!(doc.to_text(), reply.to_json().to_text());
    assert_eq!(doc.text_at("cmd"), Some(&s("get_log_source")));
    let services = doc.member("services").and_then(|v| v.as_array()).expect("a list");
    assert_eq!(services.len(), 1);
    assert_eq!(services[0].text_at("service_type"), Some(&s("nginx")));
    assert_eq!(services[0].text_at("dir"), Some(&s("/var/log/nginx")));
    assert_eq!(
        services[0].member("log_files"),
        Some(&Json::Array(vec![Json::Text(s("access.log")), Json::Text(s("error.log"))]))
    );
    assert_eq!(
        reply.to_text(),
        "{\"cmd\":\"get_log_source\",\"services\":[{\"dir\":\"/var/log/nginx\",\"log_files\":[\"access.log\",\"error.log\"],\"service_type\":\"nginx\"}]}"
    );
}

#[test]
fn respond_answers_with_the_inventory() {
    let server = loaded_server();
    let listings = vec![names(&["a"]), Listing::Unreadable, names(&[])];
    let reply = server.respond(&listings).expect("the descriptor is loaded");
    assert_eq!(reply.cmd, "get_log_source");
    assert_eq!(reply.services.len(), 3);
    assert_eq!(reply.services[0].log_files, vec![s("a")]);
    assert_eq!(WebSocketServer::new().respond(&vec![]), None);
}

#[test]
fn settings_take_the_environment_or_the_defaults() {
    let defaults = AgentSettings::resolve(None, None, None);
    assert_eq!(defaults.descriptor_path, DEFAULT_DESCRIPTOR_PATH);
    assert_eq!(defaults.shipper_input_path, DEFAULT_SHIPPER_INPUT_PATH);
    assert_eq!(defaults.shipper_main_path, None);
    let bound = AgentSettings::resolve(Some(s("/a")), Some(s("/b")), Some(s("/c")));
    assert_eq!(bound.descriptor_path, "/a");
    assert_eq!(bound.shipper_input_path, "/b");
    assert_eq!(bound.shipper_main_path, Some(s("/c")));
}

#[test]
fn command_discover_is_the_bare_text() {
    assert_eq!(Command::decode("get_log_source", true), Command::Discover);
    assert_eq!(Command::decode("get_log_source", false), Command::Nothing);
    assert_eq!(Command::decode("\"get_log_source\"", true), Command::Nothing);
    assert_eq!(Command::decode("get_log_source ", true), Command::Nothing);
}

#[test]
fn command_upload_is_read_from_json() {
    let text = "{\"cmd\":\"firebase_upload\",\"upload_file\":\"/x/log.log\",\"hostname\":\"h1\",\"service\":\"svc1\"}";
    assert_eq!(
        Command::decode(text, true),
        Command::Upload { upload_file: s("/x/log.log"), hostname: s("h1"), service: s("svc1") }
    );
}

#[test]
fn command_upload_takes_what_is_missing_as_empty() {
    assert_eq!(
        Command::decode("{\"cmd\":\"firebase_upload\",\"hostname\":7}", false),
        Command::Upload { upload_file: s(""), hostname: s(""), service: s("") }
    );
}

#[test]
fn command_unknown_text_is_nothing() {
    assert_eq!(Command::decode("hello", true), Command::Nothing);
    assert_eq!(Command::decode("{\"cmd\":\"other\"}", true), Command::Nothing);
    assert_eq!(Command::decode("[1,2]", true), Command::Nothing);
    assert_eq!(Command::decode("{\"cmd\":7}", true), Command::Nothing);
    assert_eq!(Command::decode("", true), Command::Nothing);
}

#[test]
fn command_from_document_goes_by_the_document_given() {
    let doc = Json::object().with("cmd", Json::text("firebase_upload")).with("service", Json::text("a"));
    assert_eq!(
        Command::from_document("anything", Some(&doc), true),
        Command::Upload { upload_file: s(""), hostname: s(""), service: s("a") }
    );
    assert_eq!(Command::from_document("anything", None, true), Command::Nothing);
    assert_eq!(Command::from_document("get_log_source", Some(&doc), true), Command::Discover);
}

const UPLOAD_REQUEST: &str = "{\"cmd\":\"firebase_upload\",\"upload_file\":\"/x/log.log\",\"hostname\":\"h1\",\"service\":\"svc1\"}";

const ALL_FAILURES: [RewriteFailure; 5] = [
    RewriteFailure::Unreadable,
    RewriteFailure::Unparsable,
    RewriteFailure::EntryNotFound,
    RewriteFailure::Unwritable,
    RewriteFailure::NotSaved,
];

#[test]
fn firebase_upload_asks_for_the_rewrite_and_nothing_else() {
    let server = loaded_server().with_settings(AgentSettings::resolve(
        None,
        Some(s("/etc/filebeat/inputs.d/log.yml")),
        None,
    ));
    let actions = server.handle_client_message(&Incoming::Text(s(UPLOAD_REQUEST)));
    assert_eq!(
        actions,
        vec![Action::RewriteShipperInput {
            path: s("/etc/filebeat/inputs.d/log.yml"),
            paths: vec![s("/x/log.log")],
            service: s("svc1"),
            hostname: s("h1"),
        }]
    );
}

#[test]
fn firebase_upload_rewrites_acknowledges_once_and_reloads() {
    let server = loaded_server().with_settings(AgentSettings::resolve(
        None,
        Some(s("/etc/filebeat/inputs.d/log.yml")),
        None,
    ));
    let asked = server.handle_client_message(&Incoming::Text(s(UPLOAD_REQUEST)));
    let (paths, service, hostname) = match &asked[0] {
        Action::RewriteShipperInput { paths, service, hostname, .. } => {
            (paths.clone(), service.clone(), hostname.clone())
        }
        other => panic!("not a rewrite: {:?}", other),
    };
    let before = "- type: log\n  paths:\n  - /old\n  fields:\n    service: a\n    hostname: b\n";
    let saved = rewrite_shipper_input(Some(before), paths, service, hostname);
    assert_eq!(
        saved,
        Ok(s("- type: log\n  paths:\n  - /x/log.log\n  fields:\n    service: svc1\n    hostname: h1\n"))
    );
    let following = server.upload_rewritten(&saved.map(|_| ()));
    assert_eq!(
        following,
        vec![
            Action::SendText(s("firebase_upload ing")),
            Action::RestartContainer { service_name: s("filebeat") },
        ]
    );
    let acknowledgements = asked
        .iter()
        .chain(following.iter())
        .filter(|a| matches!(a, Action::SendText(_)))
        .count();
    assert_eq!(acknowledgements, 1);
}

#[test]
fn firebase_upload_is_not_acknowledged_where_the_rewrite_failed() {
    let server = loaded_server();
    for failure in ALL_FAILURES {
        assert_eq!(server.upload_rewritten(&Err(failure)), vec![]);
    }
    let asked = server.handle_client_message(&Incoming::Text(s(UPLOAD_REQUEST)));
    let (paths, service, hostname) = match &asked[0] {
        Action::RewriteShipperInput { paths, service, hostname, .. } => {
            (paths.clone(), service.clone(), hostname.clone())
        }
        other => panic!("not a rewrite: {:?}", other),
    };
    for contents in [None, Some("- type: [unclosed"), Some("[]"), Some("- !t a: b\n")] {
        let saved =
            rewrite_shipper_input(contents, paths.clone(), service.clone(), hostname.clone());
        assert!(saved.is_err());
        assert_eq!(server.upload_rewritten(&saved.map(|_| ())), vec![]);
    }
}

#[test]
fn firebase_upload_starts_the_shipper_where_its_main_path_is_given() {
    let server = WebSocketServer::new().with_settings(AgentSettings::resolve(
        None,
        None,
        Some(s("/etc/filebeat/filebeat.yml")),
    ));
    let actions =
        server.handle_client_message(&Incoming::Text(s("{\"cmd\":\"firebase_upload\"}")));
    assert_eq!(
        actions,
        vec![Action::RewriteShipperInput {
            path: s(DEFAULT_SHIPPER_INPUT_PATH),
            paths: vec![s("")],
            service: s(""),
            hostname: s(""),
        }]
    );
    assert_eq!(
        server.upload_rewritten(&Ok(())),
        vec![
            Action::SendText(s("firebase_upload ing")),
            Action::StartShipper { config_path: s("/etc/filebeat/filebeat.yml") },
        ]
    );
}

#[test]
fn messages_other_than_commands_ask_for_little() {
    let server = loaded_server();
    assert_eq!(server.handle_client_message(&Incoming::Text(s("get_log_source"))), vec![Action::SendInventory]);
    assert_eq!(server.handle_client_message(&Incoming::Text(s("nonsense"))), vec![]);
    assert_eq!(server.handle_client_message(&Incoming::Binary), vec![]);
    assert_eq!(server.handle_client_message(&Incoming::Other), vec![]);
    assert_eq!(server.handle_client_message(&Incoming::Close), vec![Action::Close]);
    assert_eq!(
        WebSocketServer::new().handle_client_message(&Incoming::Text(s("get_log_source"))),
        vec![]
    );
}

#[test]
fn react_goes_by_the_document_given() {
    let server = loaded_server();
    let doc = Json::object().with("cmd", Json::text("firebase_upload"));
    let actions = server.react(&Incoming::Text(s("not json at all")), Some(&doc));
    assert_eq!(actions.len(), 1);
    assert!(matches!(actions[0], Action::RewriteShipperInput { .. }));
    assert_eq!(server.react(&Incoming::Binary, Some(&doc)), vec![]);
}

#[test]
fn load_config_keeps_the_first_descriptor() {
    let mut server = WebSocketServer::new();
    assert!(server.config().is_none());
    server.load_config(descriptor());
    server.load_config(EdgeDescriptor::new(vec![]).expect("no service to name"));
    assert_eq!(server.config(), Some(&descriptor()));
    assert_eq!(server.agent_settings(), &AgentSettings::resolve(None, None, None));
}

fn take_in(server: &mut WebSocketServer) -> u64 {
    let (handle, state) = server.run().expect("the agent has its descriptor");
    assert_eq!(state, ConnectionState::Connected);
    handle
}

#[test]
fn run_gives_each_peer_a_handle_of_its_own() {
    let mut server = loaded_server();
    assert_eq!(server.run(), Some((0, ConnectionState::Connected)));
    assert_eq!(server.run(), Some((1, ConnectionState::Connected)));
    let third = take_in(&mut server);
    assert_eq!(third, 2);
    assert!(!server.is_live(third));
    assert_eq!(server.live_connections(), 0);
}

#[test]
fn run_takes_in_nobody_without_descriptor() {
    let mut server = WebSocketServer::new();
    assert_eq!(server.run(), None);
    server.load_config(descriptor());
    assert_eq!(server.run(), Some((0, ConnectionState::Connected)));
}

#[test]
fn connection_with_a_handle_never_given_is_closed() {
    let mut server = loaded_server();
    let known = take_in(&mut server);
    let step = server.handle_connection(known + 1, ConnectionState::Connected, &ConnectionEvent::Accepted);
    assert_eq!(step, (ConnectionState::Closed, vec![]));
    assert!(!server.is_live(known + 1));
    let request = ConnectionEvent::Received(Incoming::Text(s("get_log_source")));
    let step = server.handle_connection(99, ConnectionState::AwaitingMessage, &request);
    assert_eq!(step, (ConnectionState::Closed, vec![]));
    assert_eq!(server.live_connections(), 0);
}

#[test]
fn connection_runs_from_handshake_to_close() {
    let mut server = loaded_server();
    let handle = take_in(&mut server);
    let (state, actions) =
        server.handle_connection(handle, ConnectionState::Connected, &ConnectionEvent::Accepted);
    assert_eq!((state, actions), (ConnectionState::AwaitingMessage, vec![]));
    assert!(server.is_live(handle));

    let request = ConnectionEvent::Received(Incoming::Text(s("get_log_source")));
    let (state, actions) = server.handle_connection(handle, state, &request);
    assert_eq!((state, actions), (ConnectionState::Replying, vec![Action::SendInventory]));

    let (state, actions) = server.handle_connection(handle, state, &ConnectionEvent::Done);
    assert_eq!((state, actions), (ConnectionState::AwaitingMessage, vec![]));

    let ignored = ConnectionEvent::Received(Incoming::Text(s("what")));
    let (state, actions) = server.handle_connection(handle, state, &ignored);
    assert_eq!((state, actions), (ConnectionState::AwaitingMessage, vec![]));

    let close = ConnectionEvent::Received(Incoming::Close);
    let (state, actions) = server.handle_connection(handle, state, &close);
    assert_eq!((state, actions), (ConnectionState::Closing, vec![Action::Close]));
    assert!(server.is_live(handle));

    let (state, actions) = server.handle_connection(handle, state, &ConnectionEvent::Done);
    assert_eq!((state, actions), (ConnectionState::Closed, vec![]));
    assert!(!server.is_live(handle));
    assert_eq!(server.live_connections(), 0);
}

#[test]
fn upload_on_a_connection_is_acknowledged_after_the_rewrite() {
    let mut server = loaded_server();
    let handle = take_in(&mut server);
    let (state, _) =
        server.handle_connection(handle, ConnectionState::Connected, &ConnectionEvent::Accepted);
    let request = ConnectionEvent::Received(Incoming::Text(s(UPLOAD_REQUEST)));
    let (state, actions) = server.handle_connection(handle, state, &request);
    assert_eq!(state, ConnectionState::Replying);
    assert_eq!(actions.len(), 1);
    assert!(matches!(actions[0], Action::RewriteShipperInput { .. }));

    let (state, actions) =
        server.handle_connection(handle, state, &ConnectionEvent::Rewritten(Ok(())));
    assert_eq!(state, ConnectionState::Replying);
    assert_eq!(
        actions,
        vec![
            Action::SendText(s("firebase_upload ing")),
            Action::RestartContainer { service_name: s("filebeat") },
        ]
    );

    let (state, actions) = server.handle_connection(handle, state, &ConnectionEvent::Done);
    assert_eq!((state, actions), (ConnectionState::AwaitingMessage, vec![]));
    assert!(server.is_live(handle));
}

#[test]
fn upload_on_a_connection_fails_where_the_rewrite_failed_and_the_connection_stays_open() {
    for failure in ALL_FAILURES {
        let mut server = loaded_server();
        let handle = take_in(&mut server);
        let (state, _) = server.handle_connection(
            handle,
            ConnectionState::Connected,
            &ConnectionEvent::Accepted,
        );
        let request = ConnectionEvent::Received(Incoming::Text(s(UPLOAD_REQUEST)));
        let (state, _) = server.handle_connection(handle, state, &request);
        let (state, actions) =
            server.handle_connection(handle, state, &ConnectionEvent::Rewritten(Err(failure)));
        assert_eq!((state, actions), (ConnectionState::AwaitingMessage, vec![]));
        assert!(server.is_live(handle));

        let again = ConnectionEvent::Received(Incoming::Text(s("get_log_source")));
        let (state, actions) = server.handle_connection(handle, state, &again);
        assert_eq!((state, actions), (ConnectionState::Replying, vec![Action::SendInventory]));
    }
}

#[test]
fn outcome_of_a_rewrite_out_of_turn_changes_nothing() {
    let states = vec![
        ConnectionState::Connected,
        ConnectionState::AwaitingMessage,
        ConnectionState::Closing,
    ];
    for state in states {
        for outcome in [Ok(()), Err(RewriteFailure::Unreadable)] {
            let mut server = loaded_server();
            let handle = take_in(&mut server);
            assert_eq!(
                server.handle_connection(handle, state, &ConnectionEvent::Rewritten(outcome)),
                (state, vec![])
            );
        }
    }
}

#[test]
fn closed_connection_stays_closed_and_asks_for_nothing() {
    let mut server = loaded_server();
    let handle = take_in(&mut server);
    let events = vec![
        ConnectionEvent::Accepted,
        ConnectionEvent::Received(Incoming::Text(s("get_log_source"))),
        ConnectionEvent::Received(Incoming::Close),
        ConnectionEvent::Rewritten(Ok(())),
        ConnectionEvent::Rewritten(Err(RewriteFailure::EntryNotFound)),
        ConnectionEvent::Done,
        ConnectionEvent::Failed(ConnectionError::Other),
        ConnectionEvent::Ended,
    ];
    for event in &events {
        let (state, actions) = server.handle_connection(handle, ConnectionState::Closed, event);
        assert_eq!((state, actions), (ConnectionState::Closed, vec![]));
        assert!(!server.is_live(handle));
    }
}

#[test]
fn failure_closes_a_connection_from_any_state() {
    let states = vec![
        ConnectionState::Connected,
        ConnectionState::AwaitingMessage,
        ConnectionState::Replying,
        ConnectionState::Closing,
    ];
    for state in states {
        let mut server = loaded_server();
        let handle = take_in(&mut server);
        server.handle_connection(handle, ConnectionState::Connected, &ConnectionEvent::Accepted);
        let failed = ConnectionEvent::Failed(ConnectionError::Protocol);
        assert_eq!(
            server.handle_connection(handle, state, &failed),
            (ConnectionState::Closed, vec![])
        );
        assert!(!server.is_live(handle));
        let mut server = loaded_server();
        let handle = take_in(&mut server);
        assert_eq!(
            server.handle_connection(handle, state, &ConnectionEvent::Ended),
            (ConnectionState::Closed, vec![])
        );
    }
}

#[test]
fn events_out_of_turn_change_nothing() {
    let mut server = loaded_server();
    let handle = take_in(&mut server);
    let request = ConnectionEvent::Received(Incoming::Text(s("get_log_source")));
    assert_eq!(
        server.handle_connection(handle, ConnectionState::Replying, &request),
        (ConnectionState::Replying, vec![])
    );
    assert_eq!(
        server.handle_connection(handle, ConnectionState::Connected, &request),
        (ConnectionState::Connected, vec![])
    );
    assert_eq!(
        server.handle_connection(handle, ConnectionState::AwaitingMessage, &ConnectionEvent::Done),
        (ConnectionState::AwaitingMessage, vec![])
    );
    assert_eq!(
        server.handle_connection(handle, ConnectionState::Replying, &ConnectionEvent::Accepted),
        (ConnectionState::Replying, vec![])
    );
}

#[test]
fn two_connections_get_their_own_replies() {
    let mut server = loaded_server();
    let first = take_in(&mut server);
    let second = take_in(&mut server);
    assert_ne!(first, second);
    let (a, _) =
        server.handle_connection(first, ConnectionState::Connected, &ConnectionEvent::Accepted);
    let (b, _) =
        server.handle_connection(second, ConnectionState::Connected, &ConnectionEvent::Accepted);
    assert_eq!(server.live_connections(), 2);
    let request = ConnectionEvent::Received(Incoming::Text(s("get_log_source")));
    let (a, for_a) = server.handle_connection(first, a, &request);
    let (b, for_b) = server.handle_connection(second, b, &request);
    assert_eq!(for_a, vec![Action::SendInventory]);
    assert_eq!(for_b, vec![Action::SendInventory]);
    let (a, _) =
        server.handle_connection(first, a, &ConnectionEvent::Failed(ConnectionError::Other));
    assert_eq!(a, ConnectionState::Closed);
    assert!(!server.is_live(first));
    assert!(server.is_live(second));
    let (b, none) = server.handle_connection(second, b, &ConnectionEvent::Done);
    assert_eq!((b, none), (ConnectionState::AwaitingMessage, vec![]));
    assert_eq!(server.live_connections(), 1);
}

#[test]
fn accept_connection_reports_only_what_is_not_ordinary() {
    let server = WebSocketServer::new();
    assert_eq!(server.accept_connection(Ok(())), None);
    assert_eq!(server.accept_connection(Err(ConnectionError::ConnectionClosed)), None);
    assert_eq!(server.accept_connection(Err(ConnectionError::Protocol)), None);
    assert_eq!(server.accept_connection(Err(ConnectionError::Utf8)), None);
    assert_eq!(
        server.accept_connection(Err(ConnectionError::Other)),
        Some(ConnectionError::Other)
    );
}

#[test]
fn connection_set_holds_each_handle_once() {
    let mut set = ConnectionSet::new();
    assert_eq!(set.len(), 0);
    set.insert(4);
    set.insert(9);
    set.insert(4);
    assert_eq!(set.len(), 2);
    assert!(set.contains(4) && set.contains(9) && !set.contains(5));
    set.remove(5);
    set.remove(4);
    assert_eq!(set.len(), 1);
    assert!(!set.contains(4) && set.contains(9));
}
