use session_server::conn::{ConnAction, ConnEvent, ConnState, conn_step};
use session_server::game::{GameHandler, Player};

fn frame(s: &str) -> ConnEvent {
    ConnEvent::TextFrame(String::from(s))
}

#[test]
fn bad_frame_is_rejected_and_the_connection_stays_open() {
    let (state, action) = conn_step(ConnState::AwaitingLogin, frame("bad"), "id-1");
    assert_eq!(state, ConnState::AwaitingLogin);
    match action {
        ConnAction::RejectLogin(m) => {
            assert_eq!(m, "{\"type\":\"error\",\"data\":\"You must login before continuing\"}");
        }
        _ => panic!("a bad frame before login must be rejected"),
    }
}

#[test]
fn exact_login_frame_authenticates() {
    let (state, action) = conn_step(ConnState::AwaitingLogin, frame("login"), "id-1");
    assert_eq!(state, ConnState::Authenticated);
    match action {
        ConnAction::AcceptLogin(m) => {
            assert_eq!(m, "{\"type\":\"login\",\"data\":{\"user_id\":\"id-1\"}}");
        }
        _ => panic!("the exact login frame must authenticate"),
    }
}

#[test]
fn login_match_is_case_sensitive_and_untrimmed() {
    for bad in ["Login", "LOGIN", " login", "login ", "log in", ""] {
        let (state, action) = conn_step(ConnState::AwaitingLogin, frame(bad), "id-1");
        assert_eq!(state, ConnState::AwaitingLogin);
        assert!(matches!(action, ConnAction::RejectLogin(_)));
    }
}

#[test]
fn unreadable_frame_before_login_is_ignored() {
    let (state, action) = conn_step(ConnState::AwaitingLogin, ConnEvent::UnreadableFrame, "id-1");
    assert_eq!(state, ConnState::AwaitingLogin);
    assert!(matches!(action, ConnAction::NoAction));
}

#[test]
fn transport_loss_closes_without_registration() {
    let (state, action) = conn_step(ConnState::AwaitingLogin, ConnEvent::ConnectionLost, "id-1");
    assert_eq!(state, ConnState::Closed);
    assert!(matches!(action, ConnAction::NoAction));
}

#[test]
fn send_failure_closes_an_authenticated_connection() {
    let (state, action) = conn_step(ConnState::Authenticated, ConnEvent::SendFailed, "id-1");
    assert_eq!(state, ConnState::Closed);
    assert!(matches!(action, ConnAction::NoAction));
}

#[test]
fn authenticated_connection_discards_inbound_frames() {
    let (state, action) = conn_step(ConnState::Authenticated, frame("login"), "id-1");
    assert_eq!(state, ConnState::Authenticated);
    assert!(matches!(action, ConnAction::NoAction));
}

#[test]
fn closed_connection_stays_closed() {
    for event in [frame("login"), ConnEvent::UnreadableFrame, ConnEvent::ConnectionLost] {
        let (state, action) = conn_step(ConnState::Closed, event, "id-1");
        assert_eq!(state, ConnState::Closed);
        assert!(matches!(action, ConnAction::NoAction));
    }
}

#[test]
fn failed_handshakes_never_reach_the_registry() {
    let mut h = GameHandler::new();
    let mut state = ConnState::AwaitingLogin;
    for event in [frame("bad"), frame("worse"), ConnEvent::UnreadableFrame, frame("Login")] {
        let (next, action) = conn_step(state, event, "id-1");
        state = next;
        match action {
            ConnAction::AcceptLogin(_) => panic!("nothing here may authenticate"),
            ConnAction::RejectLogin(_) | ConnAction::NoAction => {}
        }
    }
    assert_eq!(state, ConnState::AwaitingLogin);
    assert!(h.get(1).is_none());
    h.broadcast("x");
    assert!(h.take_outbox(1).is_empty());
}

#[test]
fn full_session_scenario() {
    let mut h = GameHandler::new();
    let id: u128 = 42;
    let user_id = "42";
    let mut state = ConnState::AwaitingLogin;

    let (next, action) = conn_step(state, frame("bad"), user_id);
    state = next;
    match action {
        ConnAction::RejectLogin(m) => {
            assert_eq!(m, "{\"type\":\"error\",\"data\":\"You must login before continuing\"}");
        }
        _ => panic!("the bad frame must be rejected"),
    }

    let (next, action) = conn_step(state, frame("login"), user_id);
    state = next;
    match action {
        ConnAction::AcceptLogin(m) => {
            assert_eq!(m, "{\"type\":\"login\",\"data\":{\"user_id\":\"42\"}}");
            h.register_client(id, Player { client_id: id, money: 0, queue: Vec::new() });
        }
        _ => panic!("the login frame must authenticate"),
    }
    assert_eq!(state, ConnState::Authenticated);

    h.tick();
    assert_eq!(
        h.take_outbox(id),
        vec![String::from("{\"type\":\"update\",\"data\":{\"money\":1}}")],
    );
    h.tick();
    assert_eq!(
        h.take_outbox(id),
        vec![String::from("{\"type\":\"update\",\"data\":{\"money\":2}}")],
    );

    let (next, _) = conn_step(state, ConnEvent::ConnectionLost, user_id);
    assert_eq!(next, ConnState::Closed);
    h.unregister_client(id);
    assert!(h.get(id).is_none());
}
