use rustle::proto::{read_frame, FileEntry, LinkEntry, Request, Response, PROTOCOL_VERSION};
use rustle::session::{
    agent_command, plan_request, recv, response_len, send, settle, AgentError, LocalFile,
    LocalLink, Move, Session, Settled, TransferPlan, Worklist, MAX_RESPONSE,
};

fn plan() -> Request {
    let plan = TransferPlan {
        build_path: "~/remote-builds/1/".to_string(),
        include_hidden: true,
        prune: false,
        excludes: vec!["target".to_string()],
    };
    let files = vec![LocalFile { rel: "a.rs".to_string(), len: 7, mtime: 9 }];
    let links = vec![LocalLink { rel: "l".to_string(), target: "a.rs".to_string() }];
    plan_request(&plan, &files, &links)
}

fn hello_ok(proto: u32) -> Response {
    Response::HelloOk { agent: 1, proto }
}

#[test]
fn plan_ships_policy_and_manifest() {
    assert_eq!(
        plan(),
        Request::Plan {
            include_hidden: true,
            prune: false,
            excludes: vec!["target".to_string()],
            files: vec![FileEntry { rel: "a.rs".to_string(), size: 7, mtime: 9 }],
            links: vec![LinkEntry { rel: "l".to_string(), target: "a.rs".to_string() }],
        }
    );
}

#[test]
fn command_takes_the_build_root_without_slashes() {
    assert_eq!(
        agent_command("~/b/.rustle/agent-00ff", "~/b/1//"),
        "~/b/.rustle/agent-00ff ~/b/1"
    );
}

#[test]
fn session_ends_with_the_agents_worklist() {
    let (mut session, hello) = Session::open(plan());
    assert_eq!(hello, Request::Hello { proto: PROTOCOL_VERSION });
    assert_eq!(session.received(Ok(hello_ok(PROTOCOL_VERSION))), Move::Send(plan()));
    assert_eq!(session, Session::Planning);
    let answer = Response::Worklist {
        uploads: vec!["a.rs".to_string()],
        created_dirs: 1,
        pruned: 2,
        symlinks: 3,
    };
    let worklist = Worklist {
        uploads: vec!["a.rs".to_string()],
        created_dirs: 1,
        pruned: 2,
        symlinks: 3,
    };
    assert_eq!(
        session.received(Ok(answer)),
        Move::Conclude { farewell: Some(Request::Bye), outcome: Ok(worklist) }
    );
    assert_eq!(session, Session::Closed);
}

#[test]
fn other_protocol_version_gets_no_plan() {
    let (mut session, _) = Session::open(plan());
    assert_eq!(
        session.received(Ok(hello_ok(PROTOCOL_VERSION + 1))),
        Move::Conclude {
            farewell: None,
            outcome: Err(AgentError::Version {
                host: PROTOCOL_VERSION,
                agent: PROTOCOL_VERSION + 1
            }),
        }
    );
    assert_eq!(session, Session::Closed);
}

#[test]
fn greeting_must_be_answered_with_a_greeting() {
    let (mut session, _) = Session::open(plan());
    let answer = Response::Error { message: "no".to_string() };
    assert_eq!(
        session.received(Ok(answer)),
        Move::Conclude { farewell: None, outcome: Err(AgentError::Unexpected) }
    );
}

#[test]
fn agents_error_is_reported() {
    let mut session = Session::Planning;
    let answer = Response::Error { message: "disk full".to_string() };
    assert_eq!(
        session.received(Ok(answer)),
        Move::Conclude {
            farewell: Some(Request::Bye),
            outcome: Err(AgentError::Reported("disk full".to_string())),
        }
    );
}

#[test]
fn second_greeting_is_unexpected() {
    let mut session = Session::Planning;
    assert_eq!(
        session.received(Ok(hello_ok(PROTOCOL_VERSION))),
        Move::Conclude {
            farewell: Some(Request::Bye),
            outcome: Err(AgentError::Unexpected),
        }
    );
}

#[test]
fn failed_channel_ends_the_session_without_a_farewell() {
    let (mut session, _) = Session::open(plan());
    assert_eq!(
        session.received(Err(AgentError::Io("broken pipe".to_string()))),
        Move::Conclude {
            farewell: None,
            outcome: Err(AgentError::Io("broken pipe".to_string())),
        }
    );
    let mut session = Session::Planning;
    assert_eq!(
        session.received(Err(AgentError::Malformed)),
        Move::Conclude { farewell: None, outcome: Err(AgentError::Malformed) }
    );
}

#[test]
fn oversized_response_is_refused_by_its_header() {
    assert_eq!(response_len([0, 0, 0, 5]), Ok(5));
    assert_eq!(response_len([4, 0, 0, 0]), Ok(64 * 1024 * 1024));
    assert_eq!(response_len([4, 0, 0, 1]), Err(AgentError::Malformed));
    assert_eq!(response_len([255, 255, 255, 255]), Err(AgentError::Malformed));
    assert_eq!(MAX_RESPONSE, 64 * 1024 * 1024);
}

#[test]
fn body_without_a_response_is_malformed() {
    assert_eq!(recv(&[]), Err(AgentError::Malformed));
    assert_eq!(recv(&hello_ok(3).encode()), Ok(hello_ok(3)));
}

#[test]
fn sent_requests_come_out_one_by_one() {
    let mut wire: Vec<u8> = Vec::new();
    send(&mut wire, &Request::Hello { proto: 1 });
    send(&mut wire, &plan());
    let mut wire: &[u8] = &wire;
    assert_eq!(
        Request::decode(&read_frame(&mut wire).unwrap()),
        Some(Request::Hello { proto: 1 })
    );
    assert_eq!(Request::decode(&read_frame(&mut wire).unwrap()), Some(plan()));
    assert!(wire.is_empty());
}

#[test]
fn failure_goes_to_the_fallback_where_there_is_one() {
    let ok: Result<u8, &str> = Ok(1);
    let err: Result<u8, &str> = Err("no agent");
    assert_eq!(settle(ok, true), Settled::Done(1));
    assert_eq!(settle(ok, false), Settled::Done(1));
    assert_eq!(settle(err, true), Settled::FallBack("no agent"));
    assert_eq!(settle(err, false), Settled::Failed("no agent"));
}
