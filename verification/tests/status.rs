use ma_irc::root::RootActor;
use ma_irc::status::{
    answer_status, command_answer, invalid_body, missing_body, plain_response, respond,
    response_head, response_header, route, route_text, run_command, Response, Route,
    StatusConfig,
};

#[test]
fn requests_are_routed_by_method_and_path() {
    assert!(matches!(route(b"OPTIONS /anything HTTP/1.1\r\n\r\n"), Route::Preflight));
    assert!(matches!(route(b"GET /status.json HTTP/1.1\r\n\r\n"), Route::Status));
    assert!(matches!(route(b"GET /concourse/help HTTP/1.1\r\n\r\n"), Route::Help));
    assert!(matches!(route(b"GET /concourse/state HTTP/1.1\r\n\r\n"), Route::State));
    assert!(matches!(route(b"POST /status.json HTTP/1.1\r\n\r\n"), Route::Other));
    assert!(matches!(route(b"\r\nGET /status.json"), Route::Other));
    assert!(matches!(route(b""), Route::Other));
}

#[test]
fn command_body_is_what_follows_the_blank_line() {
    match route(b"POST /concourse/cmd HTTP/1.1\r\nHost: x\r\n\r\n {\"from\":\"a\"} \r\n\r\nrest") {
        Route::Command { body } => assert_eq!(body, "{\"from\":\"a\"}"),
        other => panic!("no command: {other:?}"),
    }
    assert!(matches!(
        route_text("POST /concourse/cmd HTTP/1.1\r\n\r\n  \r\n"),
        Route::MissingBody
    ));
    assert!(matches!(
        route_text("POST /concourse/cmd HTTP/1.1\r\nHost: x\r\n"),
        Route::MissingBody
    ));
}

#[test]
fn bytes_that_are_no_text_are_replaced() {
    match route(b"POST /concourse/cmd HTTP/1.1\r\n\r\na\xffb") {
        Route::Command { body } => assert_eq!(body, "a\u{fffd}b"),
        other => panic!("no command: {other:?}"),
    }
}

#[test]
fn commands_are_answered_with_their_outcome() {
    let mut root = RootActor::new(vec!["did:ma:owner".to_string()]);
    let dug = run_command(&mut root, "did:ma:owner", "dig hub description:main_hub");
    assert!(dug.ok);
    assert_eq!(dug.output, "entered hub");
    assert_eq!(answer_status(&dug), "200 OK");
    assert!(root.fragment_for("hub").is_some());

    let refused = run_command(&mut root, "did:ma:user", "dig attic");
    assert!(!refused.ok);
    assert_eq!(refused.output, "only owners may dig entities");
    assert_eq!(answer_status(&refused), "400 Bad Request");

    assert_eq!(command_answer(Ok("x".to_string())).output, "x");
    assert_eq!(missing_body().output, "missing JSON body");
    assert!(!missing_body().ok);
    assert_eq!(invalid_body("eof").output, "invalid JSON: eof");
}

#[test]
fn responses_can_be_read_from_any_origin() {
    assert_eq!(
        response_header("200 OK", "application/json", 12),
        "HTTP/1.1 200 OK\r\nContent-Type: application/json\r\nContent-Length: 12\r\nAccess-Control-Allow-Origin: *\r\nAccess-Control-Allow-Methods: GET, POST, OPTIONS\r\nAccess-Control-Allow-Headers: Content-Type\r\nConnection: close\r\n\r\n"
    );
}

#[test]
fn preflight_and_unknown_paths_get_fixed_texts() {
    let preflight = plain_response(&Route::Preflight).expect("preflight");
    assert_eq!(preflight.status, "204 No Content");
    assert_eq!(preflight.content_type, "text/plain; charset=utf-8");
    assert_eq!(preflight.body, "");
    let other = plain_response(&Route::Other).expect("other");
    assert_eq!(other.status, "200 OK");
    assert_eq!(other.body, "ma-irc status endpoint\n");
    assert!(plain_response(&Route::Status).is_none());
}

#[test]
fn every_route_has_its_response() {
    let root = RootActor::new(vec![]);
    let cfg = StatusConfig {
        bind: "127.0.0.1:5667".to_string(),
        did: "did:ma:rt".to_string(),
        slug: "irc".to_string(),
    };
    let answer = |request: &str| respond(route_text(request), &cfg, &root);
    let json = ("200 OK", "application/json");

    let status = answer("GET /status.json");
    assert_eq!(response_head(&status), json);
    match status {
        Response::Status(report) => {
            assert_eq!(report.did, "did:ma:rt");
            assert_eq!(report.slug, "irc");
            assert_eq!(report.status_bind, "127.0.0.1:5667");
            assert_eq!(report.service, "ma-irc");
        }
        other => panic!("no status: {other:?}"),
    }
    match answer("GET /concourse/help") {
        Response::Answer(help) => {
            assert!(help.ok);
            assert_eq!(help.output, root.concourse_instructions());
        }
        other => panic!("no help: {other:?}"),
    }
    let state = answer("GET /concourse/state");
    assert_eq!(response_head(&state), json);
    match state {
        Response::State(report) => {
            assert!(report.ok);
            assert_eq!(report.graph.rooms.len(), 1);
        }
        other => panic!("no state: {other:?}"),
    }
    let empty = answer("POST /concourse/cmd");
    assert_eq!(response_head(&empty), ("400 Bad Request", "application/json"));
    assert!(matches!(
        answer("POST /concourse/cmd\r\n\r\n{}"),
        Response::Run { body } if body == "{}"
    ));
    let preflight = answer("OPTIONS /");
    assert_eq!(
        response_head(&preflight),
        ("204 No Content", "text/plain; charset=utf-8")
    );
}
