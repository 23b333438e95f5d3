use session_server::digits::isize_to_dec;
use session_server::game::{Player, build_game_update_message};
use session_server::grid::MapGrid;
use session_server::msg::{
    Login, Response, Update, build_login_failure_message, build_login_message, encode_response,
    json_escape_str,
};

fn player_with_money(money: isize) -> Player {
    Player { client_id: 1, money, queue: Vec::new() }
}

#[test]
fn login_message_has_exact_wire_form() {
    let s = build_login_message(String::from("abc-123"));
    assert_eq!(s, "{\"type\":\"login\",\"data\":{\"user_id\":\"abc-123\"}}");
}

#[test]
fn login_failure_message_has_exact_wire_form() {
    let s = build_login_failure_message();
    assert_eq!(s, "{\"type\":\"error\",\"data\":\"You must login before continuing\"}");
}

#[test]
fn update_message_has_exact_wire_form() {
    let s = build_game_update_message(&player_with_money(1));
    assert_eq!(s, "{\"type\":\"update\",\"data\":{\"money\":1}}");
}

#[test]
fn update_message_renders_negative_balance() {
    let s = build_game_update_message(&player_with_money(-5));
    assert_eq!(s, "{\"type\":\"update\",\"data\":{\"money\":-5}}");
}

#[test]
fn update_without_balance_omits_the_member() {
    let s = encode_response(&Response::Update(Update { money: None }));
    assert_eq!(s, "{\"type\":\"update\",\"data\":{}}");
}

#[test]
fn error_payload_is_a_bare_string() {
    let s = encode_response(&Response::Error(String::from("boom")));
    assert_eq!(s, "{\"type\":\"error\",\"data\":\"boom\"}");
}

#[test]
fn login_response_matches_builder() {
    let s = encode_response(&Response::Login(Login { user_id: String::from("u") }));
    assert_eq!(s, build_login_message(String::from("u")));
}

#[test]
fn escaping_covers_quotes_backslashes_and_controls() {
    let s = json_escape_str("a\"b\\c\nd\te\u{8}f\u{c}g\rh\u{1}i");
    assert_eq!(s, "a\\\"b\\\\c\\nd\\te\\bf\\fg\\rh\\u0001i");
}

#[test]
fn escaping_leaves_plain_text_alone() {
    assert_eq!(json_escape_str("plain text"), "plain text");
    assert_eq!(json_escape_str(""), "");
}

#[test]
fn escaped_error_message_has_exact_wire_form() {
    let s = encode_response(&Response::Error(String::from("say \"hi\"\n")));
    assert_eq!(s, "{\"type\":\"error\",\"data\":\"say \\\"hi\\\"\\n\"}");
}

#[test]
fn decimal_rendering_is_exact() {
    assert_eq!(isize_to_dec(0), "0");
    assert_eq!(isize_to_dec(42), "42");
    assert_eq!(isize_to_dec(-7), "-7");
    assert_eq!(isize_to_dec(isize::MAX), isize::MAX.to_string());
    assert_eq!(isize_to_dec(isize::MIN), isize::MIN.to_string());
}

#[test]
fn coordinate_keys_join_with_an_underscore() {
    let origin = MapGrid { x: 0, y: 0, building: None };
    assert_eq!(origin.to_string_coord(), "0_0");
    let cell = MapGrid { x: -3, y: 7, building: None };
    assert_eq!(cell.to_string_coord(), "-3_7");
}
