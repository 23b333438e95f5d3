use session_server::game::{GameHandler, Player};

fn player(id: u128, money: isize) -> Player {
    Player { client_id: id, money, queue: Vec::new() }
}

#[test]
fn empty_registry_finds_nothing() {
    let h = GameHandler::new();
    assert!(h.get(1).is_none());
}

#[test]
fn register_then_get_returns_the_session() {
    let mut h = GameHandler::new();
    h.register_client(7, player(7, 3));
    let p = h.get(7).unwrap();
    assert_eq!(p.client_id, 7);
    assert_eq!(p.money, 3);
    assert!(h.get(8).is_none());
}

#[test]
fn register_replaces_under_the_same_identity() {
    let mut h = GameHandler::new();
    h.register_client(7, player(7, 1));
    h.register_client(7, player(7, 9));
    assert_eq!(h.get(7).unwrap().money, 9);
}

#[test]
fn unregister_removes_and_is_idempotent() {
    let mut h = GameHandler::new();
    h.unregister_client(5);
    h.register_client(5, player(5, 0));
    assert!(h.get(5).is_some());
    h.unregister_client(5);
    assert!(h.get(5).is_none());
    h.unregister_client(5);
    assert!(h.get(5).is_none());
}

#[test]
fn removed_session_leaves_no_dangling_entry() {
    let mut h = GameHandler::new();
    h.register_client(1, player(1, 0));
    h.register_client(2, player(2, 0));
    h.unregister_client(1);
    assert!(h.get(1).is_none());
    assert_eq!(h.get(2).unwrap().client_id, 2);
    let taken = h.take_outbox(1);
    assert!(taken.is_empty());
}

#[test]
fn broadcast_enqueues_one_identical_message_per_session() {
    let mut h = GameHandler::new();
    h.register_client(1, player(1, 0));
    h.register_client(2, player(2, 0));
    h.register_client(3, player(3, 0));
    h.broadcast("{\"type\":\"error\",\"data\":\"x\"}");
    for id in [1u128, 2, 3] {
        let msgs = h.take_outbox(id);
        assert_eq!(msgs, vec![String::from("{\"type\":\"error\",\"data\":\"x\"}")]);
    }
}

#[test]
fn broadcast_is_identical_regardless_of_registration_order() {
    let mut a = GameHandler::new();
    a.register_client(1, player(1, 0));
    a.register_client(2, player(2, 0));
    let mut b = GameHandler::new();
    b.register_client(2, player(2, 0));
    b.register_client(1, player(1, 0));
    a.broadcast("payload");
    b.broadcast("payload");
    assert_eq!(a.take_outbox(1), b.take_outbox(1));
    assert_eq!(a.take_outbox(2), b.take_outbox(2));
}

#[test]
fn send_to_a_missing_session_is_a_silent_no_op() {
    let mut h = GameHandler::new();
    h.register_client(1, player(1, 0));
    h.send_to(99, "hello");
    assert!(h.take_outbox(1).is_empty());
    assert!(h.take_outbox(99).is_empty());
}

#[test]
fn send_to_enqueues_only_for_the_addressee() {
    let mut h = GameHandler::new();
    h.register_client(1, player(1, 0));
    h.register_client(2, player(2, 0));
    h.send_to(2, "direct");
    assert!(h.take_outbox(1).is_empty());
    assert_eq!(h.take_outbox(2), vec![String::from("direct")]);
}

#[test]
fn tick_advances_balances_then_fans_out() {
    let mut h = GameHandler::new();
    h.register_client(1, player(1, 0));
    assert!(h.can_tick());
    h.tick();
    assert_eq!(h.get(1).unwrap().money, 1);
    assert_eq!(h.take_outbox(1), vec![String::from("{\"type\":\"update\",\"data\":{\"money\":1}}")]);
}

#[test]
fn mutation_completes_before_fanout_for_every_session() {
    let mut h = GameHandler::new();
    h.register_client(1, player(1, 0));
    h.register_client(2, player(2, 10));
    h.process_player_updates();
    assert_eq!(h.get(1).unwrap().money, 1);
    assert_eq!(h.get(2).unwrap().money, 11);
    assert!(h.take_outbox(1).is_empty());
    h.broadcast_game_update();
    assert_eq!(h.take_outbox(1), vec![String::from("{\"type\":\"update\",\"data\":{\"money\":1}}")]);
    assert_eq!(
        h.take_outbox(2),
        vec![String::from("{\"type\":\"update\",\"data\":{\"money\":11}}")],
    );
}

#[test]
fn k_ticks_accumulate_in_tick_order() {
    let mut h = GameHandler::new();
    h.register_client(1, player(1, 0));
    for _ in 0..3 {
        assert!(h.can_tick());
        h.tick();
    }
    assert_eq!(h.get(1).unwrap().money, 3);
    assert_eq!(
        h.take_outbox(1),
        vec![
            String::from("{\"type\":\"update\",\"data\":{\"money\":1}}"),
            String::from("{\"type\":\"update\",\"data\":{\"money\":2}}"),
            String::from("{\"type\":\"update\",\"data\":{\"money\":3}}"),
        ],
    );
}

#[test]
fn can_tick_refuses_a_balance_at_the_machine_limit() {
    let mut h = GameHandler::new();
    h.register_client(1, player(1, isize::MAX));
    assert!(!h.can_tick());
    h.register_client(1, player(1, isize::MAX - 1));
    assert!(h.can_tick());
}

#[test]
fn removal_between_passes_is_all_or_nothing() {
    let mut h = GameHandler::new();
    h.register_client(1, player(1, 0));
    h.register_client(2, player(2, 0));
    h.broadcast("first");
    h.unregister_client(1);
    h.broadcast("second");
    assert!(h.take_outbox(1).is_empty());
    assert_eq!(h.take_outbox(2), vec![String::from("first"), String::from("second")]);
    h.register_client(1, player(1, 0));
    h.broadcast("third");
    assert_eq!(h.take_outbox(1), vec![String::from("third")]);
}
