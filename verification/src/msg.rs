//! The wire message schema and its encoding.
//!
//! Every frame the server sends is one of three tagged shapes:
//! `{"type":"update","data":{"money":N}}` (the `money` member omitted when
//! the balance is not meaningful), `{"type":"login","data":{"user_id":S}}`,
//! and `{"type":"error","data":S}` where the error payload is the string
//! itself rather than an object. Encoding goes through the one function
//! `encode_response`, so no fourth shape can arise.

use vstd::prelude::*;
use crate::digits::{int_dec, isize_to_dec, push_char};

verus! {

/// Payload of a periodic state update.
pub struct Update {
    pub money: Option<isize>,
}

/// Payload of a successful handshake reply.
pub struct Login {
    pub user_id: String,
}

/// The closed set of message shapes the server sends.
pub enum Response {
    Update(Update),
    Login(Login),
    Error(String),
}

/// The character for one hexadecimal digit value, lower case.
pub open spec fn hex_char(d: nat) -> char {
    if d == 0 {
        '0'
    } else if d == 1 {
        '1'
    } else if d == 2 {
        '2'
    } else if d == 3 {
        '3'
    } else if d == 4 {
        '4'
    } else if d == 5 {
        '5'
    } else if d == 6 {
        '6'
    } else if d == 7 {
        '7'
    } else if d == 8 {
        '8'
    } else if d == 9 {
        '9'
    } else if d == 10 {
        'a'
    } else if d == 11 {
        'b'
    } else if d == 12 {
        'c'
    } else if d == 13 {
        'd'
    } else if d == 14 {
        'e'
    } else {
        'f'
    }
}

/// How one character appears inside a JSON string literal: quote and
/// backslash get a backslash escape, the named control characters get
/// their short escapes, the other control characters get a `\u00XX`
/// escape, and everything else stands for itself.
pub open spec fn json_escape_char(c: char) -> Seq<char> {
    if c == '"' {
        seq!['\\', '"']
    } else if c == '\\' {
        seq!['\\', '\\']
    } else if c == '\u{8}' {
        seq!['\\', 'b']
    } else if c == '\t' {
        seq!['\\', 't']
    } else if c == '\n' {
        seq!['\\', 'n']
    } else if c == '\u{c}' {
        seq!['\\', 'f']
    } else if c == '\r' {
        seq!['\\', 'r']
    } else if (c as u32) < 0x20 {
        seq!['\\', 'u', '0', '0', hex_char(((c as u32) / 16) as nat), hex_char(
            ((c as u32) % 16) as nat,
        )]
    } else {
        seq![c]
    }
}

/// How a whole string appears inside a JSON string literal.
pub open spec fn json_escape(s: Seq<char>) -> Seq<char>
    decreases s.len(),
{
    if s.len() == 0 {
        Seq::empty()
    } else {
        json_escape_char(s[0]) + json_escape(s.drop_first())
    }
}

/// Escaping distributes over concatenation.
pub proof fn lemma_json_escape_concat(a: Seq<char>, b: Seq<char>)
    ensures
        json_escape(a + b) == json_escape(a) + json_escape(b),
    decreases a.len(),
{
    if a.len() == 0 {
        assert(a + b =~= b);
        assert(json_escape(a) + json_escape(b) =~= json_escape(b));
    } else {
        assert((a + b).drop_first() =~= a.drop_first() + b);
        lemma_json_escape_concat(a.drop_first(), b);
        assert(json_escape(a + b) =~= json_escape(a) + json_escape(b));
    }
}

/// Escaping a string extended by one character appends that character's
/// escape.
pub proof fn lemma_json_escape_snoc(s: Seq<char>, c: char)
    ensures
        json_escape(s.push(c)) == json_escape(s) + json_escape_char(c),
{
    let single = seq![c];
    assert(s.push(c) =~= s + single);
    lemma_json_escape_concat(s, single);
    assert(single.drop_first() =~= Seq::<char>::empty());
    assert(json_escape(single) == json_escape_char(c) + json_escape(Seq::<char>::empty()));
    assert(json_escape(single) =~= json_escape_char(c));
    assert(json_escape(s) + json_escape(single) =~= json_escape(s) + json_escape_char(c));
}

/// One hexadecimal digit as a character, for digit values 0 through 15.
fn hex_to_char(d: u32) -> (c: char)
    requires
        d < 16,
    ensures
        c == hex_char(d as nat),
{
    if d == 0 {
        '0'
    } else if d == 1 {
        '1'
    } else if d == 2 {
        '2'
    } else if d == 3 {
        '3'
    } else if d == 4 {
        '4'
    } else if d == 5 {
        '5'
    } else if d == 6 {
        '6'
    } else if d == 7 {
        '7'
    } else if d == 8 {
        '8'
    } else if d == 9 {
        '9'
    } else if d == 10 {
        'a'
    } else if d == 11 {
        'b'
    } else if d == 12 {
        'c'
    } else if d == 13 {
        'd'
    } else if d == 14 {
        'e'
    } else {
        'f'
    }
}

/// Appends the JSON escape of one character.
fn append_escaped_char(out: &mut String, c: char)
    ensures
        final(out)@ == old(out)@ + json_escape_char(c),
{
    if c == '"' {
        out.append("\\\"");
        proof {
            reveal_strlit("\\\"");
            assert(final(out)@ =~= old(out)@ + json_escape_char(c));
        }
    } else if c == '\\' {
        out.append("\\\\");
        proof {
            reveal_strlit("\\\\");
            assert(final(out)@ =~= old(out)@ + json_escape_char(c));
        }
    } else if c == '\u{8}' {
        out.append("\\b");
        proof {
            reveal_strlit("\\b");
            assert(final(out)@ =~= old(out)@ + json_escape_char(c));
        }
    } else if c == '\t' {
        out.append("\\t");
        proof {
            reveal_strlit("\\t");
            assert(final(out)@ =~= old(out)@ + json_escape_char(c));
        }
    } else if c == '\n' {
        out.append("\\n");
        proof {
            reveal_strlit("\\n");
            assert(final(out)@ =~= old(out)@ + json_escape_char(c));
        }
    } else if c == '\u{c}' {
        out.append("\\f");
        proof {
            reveal_strlit("\\f");
            assert(final(out)@ =~= old(out)@ + json_escape_char(c));
        }
    } else if c == '\r' {
        out.append("\\r");
        proof {
            reveal_strlit("\\r");
            assert(final(out)@ =~= old(out)@ + json_escape_char(c));
        }
    } else if (c as u32) < 0x20 {
        let code = c as u32;
        out.append("\\u00");
        push_char(out, hex_to_char(code / 16));
        push_char(out, hex_to_char(code % 16));
        proof {
            reveal_strlit("\\u00");
            assert(final(out)@ =~= old(out)@ + json_escape_char(c));
        }
    } else {
        push_char(out, c);
        proof {
            assert(final(out)@ =~= old(out)@ + json_escape_char(c));
        }
    }
}

/// Renders a string as it appears inside a JSON string literal.
pub fn json_escape_str(s: &str) -> (r: String)
    ensures
        r@ == json_escape(s@),
{
    let n = s.unicode_len();
    let mut out = String::new();
    let mut i: usize = 0;
    while i < n
        invariant
            i <= n,
            n == s@.len(),
            out@ == json_escape(s@.subrange(0, i as int)),
        decreases n - i,
    {
        let c = s.get_char(i);
        append_escaped_char(&mut out, c);
        proof {
            lemma_json_escape_snoc(s@.subrange(0, i as int), s@[i as int]);
            assert(s@.subrange(0, i as int).push(s@[i as int]) =~= s@.subrange(0, i as int + 1));
        }
        i += 1;
    }
    proof {
        assert(s@.subrange(0, n as int) =~= s@);
    }
    out
}

/// The wire form of an update message; the `money` member is omitted when
/// the balance is not meaningful.
pub open spec fn update_wire(money: Option<int>) -> Seq<char> {
    match money {
        Option::Some(m) => "{\"type\":\"update\",\"data\":{\"money\":"@ + int_dec(m) + "}}"@,
        Option::None => "{\"type\":\"update\",\"data\":{}}"@,
    }
}

/// The wire form of a login message.
pub open spec fn login_wire(user_id: Seq<char>) -> Seq<char> {
    "{\"type\":\"login\",\"data\":{\"user_id\":\""@ + json_escape(user_id) + "\"}}"@
}

/// The wire form of an error message: the payload is the string itself,
/// not an object.
pub open spec fn error_wire(reason: Seq<char>) -> Seq<char> {
    "{\"type\":\"error\",\"data\":\""@ + json_escape(reason) + "\"}"@
}

/// The wire form of any message.
pub open spec fn response_wire(r: Response) -> Seq<char> {
    match r {
        Response::Update(u) => update_wire(
            match u.money {
                Option::Some(m) => Option::Some(m as int),
                Option::None => Option::None,
            },
        ),
        Response::Login(l) => login_wire(l.user_id@),
        Response::Error(e) => error_wire(e@),
    }
}

/// The single serialization boundary: renders a message in its wire form.
pub fn encode_response(r: &Response) -> (s: String)
    ensures
        s@ == response_wire(*r),
{
    match r {
        Response::Update(u) => {
            match u.money {
                Option::Some(m) => {
                    let mut s = String::from_str("{\"type\":\"update\",\"data\":{\"money\":");
                    let d = isize_to_dec(m);
                    s.append(d.as_str());
                    s.append("}}");
                    proof {
                        assert(s@ =~= response_wire(*r));
                    }
                    s
                },
                Option::None => String::from_str("{\"type\":\"update\",\"data\":{}}"),
            }
        },
        Response::Login(l) => {
            let mut s = String::from_str("{\"type\":\"login\",\"data\":{\"user_id\":\"");
            let e = json_escape_str(l.user_id.as_str());
            s.append(e.as_str());
            s.append("\"}}");
            proof {
                assert(s@ =~= response_wire(*r));
            }
            s
        },
        Response::Error(e) => {
            let mut s = String::from_str("{\"type\":\"error\",\"data\":\"");
            let esc = json_escape_str(e.as_str());
            s.append(esc.as_str());
            s.append("\"}");
            proof {
                assert(s@ =~= response_wire(*r));
            }
            s
        },
    }
}

/// Builds the reply to a successful handshake.
pub fn build_login_message(new_user_id: String) -> (s: String)
    ensures
        s@ == login_wire(new_user_id@),
{
    encode_response(&Response::Login(Login { user_id: new_user_id }))
}

/// Builds the reply to a frame received before login.
pub fn build_login_failure_message() -> (s: String)
    ensures
        s@ == error_wire("You must login before continuing"@),
{
    encode_response(&Response::Error(String::from_str("You must login before continuing")))
}

} // verus!
