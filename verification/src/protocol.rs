//! The JSON-RPC message model: IDs, the message record, the classification
//! of inbound messages, and the canonical JSON rendering of outbound ones.
//!
//! A message's `params` and `result` fields hold already-encoded JSON text;
//! the unverified rim turns structured values into such text and back.

use vstd::prelude::*;
use vstd::string::*;

use crate::text::{chars_of, extend_chars, int_dec_chars, int_dec_chars_exec, push_str_chars, string_of};

verus! {

/// A JSON-RPC ID: an integer, a string, or null.
pub enum MessageID {
    Number(i32),
    IdString(String),
    Null,
}

impl MessageID {
    /// Whether two IDs are the same ID.
    pub open spec fn spec_equals(&self, other: &MessageID) -> bool {
        match (self, other) {
            (MessageID::Number(a), MessageID::Number(b)) => a == b,
            (MessageID::IdString(a), MessageID::IdString(b)) => a@ == b@,
            (MessageID::Null, MessageID::Null) => true,
            _ => false,
        }
    }

    /// The display rendering of an ID: the number's digits, the string
    /// itself, or `<null>`.
    pub open spec fn spec_as_string(&self) -> Seq<char> {
        match self {
            MessageID::Number(n) => int_dec_chars(*n as int),
            MessageID::IdString(s) => s@,
            MessageID::Null => "<null>"@,
        }
    }

    pub fn equals(&self, other: &MessageID) -> (r: bool)
        ensures
            r == self.spec_equals(other),
    {
        match (self, other) {
            (MessageID::Number(a), MessageID::Number(b)) => *a == *b,
            (MessageID::IdString(a), MessageID::IdString(b)) => *a == *b,
            (MessageID::Null, MessageID::Null) => true,
            _ => false,
        }
    }

    pub fn as_string(&self) -> (r: String)
        ensures
            r@ == self.spec_as_string(),
    {
        match self {
            MessageID::Number(n) => {
                let v = int_dec_chars_exec(*n as i64);
                string_of(v)
            },
            MessageID::IdString(s) => s.clone(),
            MessageID::Null => {
                let mut r = String::new();
                r.append("<null>");
                r
            },
        }
    }
}

/// A JSON-RPC error: a numeric code and a message.
pub struct ResponseError {
    pub code: i32,
    pub message: String,
}

/// A JSON-RPC message. `params` and `result`, when present, hold the raw
/// JSON text of the respective value.
pub struct Message {
    pub id: Option<MessageID>,
    pub method: Option<String>,
    pub params: Option<String>,
    pub result: Option<String>,
    pub error: Option<ResponseError>,
}

impl Message {
    /// A request: an ID, a method, and parameters.
    pub fn new_request(id: MessageID, method: &str, params: String) -> (m: Message)
        ensures
            m.id == Some(id),
            m.method matches Some(s) && s@ == method@,
            m.params == Some(params),
            m.result is None,
            m.error is None,
    {
        Message {
            id: Some(id),
            method: Some(method.to_owned()),
            params: Some(params),
            result: None,
            error: None,
        }
    }

    /// A notification: a method and parameters, and no ID.
    pub fn new_notification(method: &str, params: String) -> (m: Message)
        ensures
            m.id is None,
            m.method matches Some(s) && s@ == method@,
            m.params == Some(params),
            m.result is None,
            m.error is None,
    {
        Message {
            id: None,
            method: Some(method.to_owned()),
            params: Some(params),
            result: None,
            error: None,
        }
    }

    /// A successful response to the request with the given ID.
    pub fn new_response(id: MessageID, result: String) -> (m: Message)
        ensures
            m.id == Some(id),
            m.method is None,
            m.params is None,
            m.result == Some(result),
            m.error is None,
    {
        Message { id: Some(id), method: None, params: None, result: Some(result), error: None }
    }

    /// An error response to the request with the given ID.
    pub fn new_error_response(id: MessageID, code: i32, message: &str) -> (m: Message)
        ensures
            m.id == Some(id),
            m.method is None,
            m.params is None,
            m.result is None,
            m.error matches Some(e) && e.code == code && e.message@ == message@,
    {
        Message {
            id: Some(id),
            method: None,
            params: None,
            result: None,
            error: Some(ResponseError { code, message: message.to_owned() }),
        }
    }

    /// A message that expects a response: method and ID both present.
    pub open spec fn spec_is_request(&self) -> bool {
        self.method is Some && self.id is Some
    }

    /// A one-way message: method present, ID absent.
    pub open spec fn spec_is_notification(&self) -> bool {
        self.method is Some && self.id is None
    }

    /// A reply to one of our requests: no method, an ID, and a result or
    /// an error.
    pub open spec fn spec_is_response(&self) -> bool {
        self.method is None && self.id is Some && (self.result is Some || self.error is Some)
    }

    pub fn is_request(&self) -> (r: bool)
        ensures
            r == self.spec_is_request(),
    {
        self.method.is_some() && self.id.is_some()
    }

    pub fn is_notification(&self) -> (r: bool)
        ensures
            r == self.spec_is_notification(),
    {
        self.method.is_some() && self.id.is_none()
    }

    pub fn is_response(&self) -> (r: bool)
        ensures
            r == self.spec_is_response(),
    {
        self.method.is_none() && self.id.is_some() && (self.result.is_some()
            || self.error.is_some())
    }
}

/// How an inbound message is dispatched.
pub enum MessageClass {
    /// A server-to-client request: a response with the same ID is owed.
    ServerRequest,
    /// A server-to-client notification.
    ServerNotification,
    /// A response to a request this side issued.
    Response,
    /// None of the above: a protocol error, to be logged and dropped.
    Invalid,
}

/// The dispatch classification: method and ID present is a
/// request; method present without ID is a notification; no method but a
/// result or error is a response; anything else is invalid.
pub open spec fn spec_classify(m: &Message) -> MessageClass {
    if m.method is Some && m.id is Some {
        MessageClass::ServerRequest
    } else if m.method is Some && m.id is None {
        MessageClass::ServerNotification
    } else if m.method is None && (m.result is Some || m.error is Some) {
        MessageClass::Response
    } else {
        MessageClass::Invalid
    }
}

/// Classifies an inbound message for dispatch.
pub fn classify(m: &Message) -> (r: MessageClass)
    ensures
        r == spec_classify(m),
{
    if m.method.is_some() {
        if m.id.is_some() {
            MessageClass::ServerRequest
        } else {
            MessageClass::ServerNotification
        }
    } else if m.result.is_some() || m.error.is_some() {
        MessageClass::Response
    } else {
        MessageClass::Invalid
    }
}

/// The hexadecimal digit character for a value below 16.
pub open spec fn hex_digit_char(d: nat) -> char {
    if d < 10 {
        crate::text::digit_char(d)
    } else if d == 10 {
        'a'
    } else if d == 11 {
        'b'
    } else if d == 12 {
        'c'
    } else if d == 13 {
        'd'
    } else if d == 14 {
        'e'
    } else {
        'f'
    }
}

/// The escape sequence for one character inside a JSON string literal:
/// quote, backslash and the common shorthands, any other control
/// character as a `\u00..` escape, everything else as itself.
pub open spec fn esc_char(c: char) -> Seq<char> {
    if c == '"' {
        seq!['\\', '"']
    } else if c == '\\' {
        seq!['\\', '\\']
    } else if c == '\n' {
        seq!['\\', 'n']
    } else if c == '\r' {
        seq!['\\', 'r']
    } else if c == '\t' {
        seq!['\\', 't']
    } else if (c as u32) < 32 {
        seq!['\\', 'u', '0', '0', hex_digit_char((c as u32 / 16) as nat), hex_digit_char(
            (c as u32 % 16) as nat,
        )]
    } else {
        seq![c]
    }
}

fn hex_digit_char_exec(d: u32) -> (r: char)
    requires
        d < 16,
    ensures
        r == hex_digit_char(d as nat),
{
    if d < 10 {
        crate::text::digit_char_of(d)
    } else if d == 10 {
        'a'
    } else if d == 11 {
        'b'
    } else if d == 12 {
        'c'
    } else if d == 13 {
        'd'
    } else if d == 14 {
        'e'
    } else {
        'f'
    }
}

/// The body of a JSON string literal: every character escaped as needed.
pub open spec fn json_escape(s: Seq<char>) -> Seq<char>
    decreases s.len(),
{
    if s.len() == 0 {
        Seq::<char>::empty()
    } else {
        json_escape(s.drop_last()) + esc_char(s.last())
    }
}

/// A JSON string literal: quotes around the escaped text.
pub open spec fn json_string(s: Seq<char>) -> Seq<char> {
    seq!['"'] + json_escape(s) + seq!['"']
}

/// Appends the escaped form of `s` to `out`.
fn push_json_escape(out: &mut Vec<char>, s: &Vec<char>)
    ensures
        final(out)@ == old(out)@ + json_escape(s@),
{
    let mut i: usize = 0;
    while i < s.len()
        invariant
            i <= s@.len(),
            out@ == old(out)@ + json_escape(s@.subrange(0, i as int)),
        decreases s@.len() - i,
    {
        let c = s[i];
        if c == '"' {
            out.push('\\');
            out.push('"');
        } else if c == '\\' {
            out.push('\\');
            out.push('\\');
        } else if c == '\n' {
            out.push('\\');
            out.push('n');
        } else if c == '\r' {
            out.push('\\');
            out.push('r');
        } else if c == '\t' {
            out.push('\\');
            out.push('t');
        } else {
            let code = c as u32;
            if code < 32 {
                out.push('\\');
                out.push('u');
                out.push('0');
                out.push('0');
                out.push(hex_digit_char_exec(code / 16));
                out.push(hex_digit_char_exec(code % 16));
            } else {
                out.push(c);
            }
        }
        i = i + 1;
        proof {
            let pre = s@.subrange(0, i as int);
            assert(pre.drop_last() =~= s@.subrange(0, i - 1));
            assert(pre.last() == s@[i - 1]);
            assert(out@ =~= old(out)@ + json_escape(pre));
        }
    }
    proof {
        assert(s@.subrange(0, s@.len() as int) =~= s@);
    }
}

/// Appends a JSON string literal holding `s` to `out`.
pub fn push_json_string(out: &mut Vec<char>, s: &str)
    ensures
        final(out)@ == old(out)@ + json_string(s@),
{
    out.push('"');
    let v = chars_of(s);
    push_json_escape(out, &v);
    out.push('"');
    proof {
        assert(out@ =~= old(out)@ + json_string(s@));
    }
}

/// The canonical rendering of an ID as a JSON value.
pub open spec fn render_id(id: &MessageID) -> Seq<char> {
    match id {
        MessageID::Number(n) => int_dec_chars(*n as int),
        MessageID::IdString(s) => json_string(s@),
        MessageID::Null => "null"@,
    }
}

/// The canonical rendering of the optional ID field.
pub open spec fn id_part(m: &Message) -> Seq<char> {
    match m.id {
        Some(id) => ",\"id\":"@ + render_id(&id),
        None => Seq::<char>::empty(),
    }
}

/// The canonical rendering of the optional method field.
pub open spec fn method_part(m: &Message) -> Seq<char> {
    match m.method {
        Some(s) => ",\"method\":"@ + json_string(s@),
        None => Seq::<char>::empty(),
    }
}

/// The canonical rendering of the optional params field.
pub open spec fn params_part(m: &Message) -> Seq<char> {
    match m.params {
        Some(p) => ",\"params\":"@ + p@,
        None => Seq::<char>::empty(),
    }
}

/// The canonical rendering of the optional result field.
pub open spec fn result_part(m: &Message) -> Seq<char> {
    match m.result {
        Some(r) => ",\"result\":"@ + r@,
        None => Seq::<char>::empty(),
    }
}

/// The canonical rendering of the optional error field.
pub open spec fn error_part(m: &Message) -> Seq<char> {
    match m.error {
        Some(e) => ",\"error\":{\"code\":"@ + int_dec_chars(e.code as int) + ",\"message\":"@
            + json_string(e.message@) + seq!['}'],
        None => Seq::<char>::empty(),
    }
}

/// The canonical JSON text of a message: the `"2.0"` version tag, then
/// each present field in a fixed order.
pub open spec fn render_message_spec(m: &Message) -> Seq<char> {
    "{\"jsonrpc\":\"2.0\""@ + id_part(m) + method_part(m) + params_part(m) + result_part(m)
        + error_part(m) + seq!['}']
}

fn push_id_part(out: &mut Vec<char>, m: &Message)
    ensures
        final(out)@ == old(out)@ + id_part(m),
{
    match &m.id {
        Some(id) => {
            push_str_chars(out, ",\"id\":");
            match id {
                MessageID::Number(n) => {
                    let v = int_dec_chars_exec(*n as i64);
                    extend_chars(out, &v);
                },
                MessageID::IdString(s) => {
                    push_json_string(out, s.as_str());
                },
                MessageID::Null => {
                    push_str_chars(out, "null");
                },
            }
            proof {
                assert(out@ =~= old(out)@ + id_part(m));
            }
        },
        None => {
            proof {
                assert(out@ =~= old(out)@ + id_part(m));
            }
        },
    }
}

fn push_method_part(out: &mut Vec<char>, m: &Message)
    ensures
        final(out)@ == old(out)@ + method_part(m),
{
    match &m.method {
        Some(s) => {
            push_str_chars(out, ",\"method\":");
            push_json_string(out, s.as_str());
            proof {
                assert(out@ =~= old(out)@ + method_part(m));
            }
        },
        None => {
            proof {
                assert(out@ =~= old(out)@ + method_part(m));
            }
        },
    }
}

fn push_params_part(out: &mut Vec<char>, m: &Message)
    ensures
        final(out)@ == old(out)@ + params_part(m),
{
    match &m.params {
        Some(p) => {
            push_str_chars(out, ",\"params\":");
            push_str_chars(out, p.as_str());
            proof {
                assert(out@ =~= old(out)@ + params_part(m));
            }
        },
        None => {
            proof {
                assert(out@ =~= old(out)@ + params_part(m));
            }
        },
    }
}

fn push_result_part(out: &mut Vec<char>, m: &Message)
    ensures
        final(out)@ == old(out)@ + result_part(m),
{
    match &m.result {
        Some(rv) => {
            push_str_chars(out, ",\"result\":");
            push_str_chars(out, rv.as_str());
            proof {
                assert(out@ =~= old(out)@ + result_part(m));
            }
        },
        None => {
            proof {
                assert(out@ =~= old(out)@ + result_part(m));
            }
        },
    }
}

fn push_error_part(out: &mut Vec<char>, m: &Message)
    ensures
        final(out)@ == old(out)@ + error_part(m),
{
    match &m.error {
        Some(e) => {
            push_str_chars(out, ",\"error\":{\"code\":");
            let v = int_dec_chars_exec(e.code as i64);
            extend_chars(out, &v);
            push_str_chars(out, ",\"message\":");
            push_json_string(out, e.message.as_str());
            out.push('}');
            proof {
                assert(out@ =~= old(out)@ + error_part(m));
            }
        },
        None => {
            proof {
                assert(out@ =~= old(out)@ + error_part(m));
            }
        },
    }
}

/// Renders a message as canonical JSON text.
pub fn render_message(m: &Message) -> (r: String)
    ensures
        r@ == render_message_spec(m),
{
    let mut out: Vec<char> = Vec::new();
    push_str_chars(&mut out, "{\"jsonrpc\":\"2.0\"");
    push_id_part(&mut out, m);
    push_method_part(&mut out, m);
    push_params_part(&mut out, m);
    push_result_part(&mut out, m);
    push_error_part(&mut out, m);
    out.push('}');
    proof {
        assert(out@ =~= render_message_spec(m));
    }
    string_of(out)
}

} // verus!
