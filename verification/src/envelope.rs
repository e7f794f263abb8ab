//! The wire envelope and the message record it can carry.
//!
//! Every socket frame is a JSON object with a `messageType` tag and up
//! to two payload fields, `dataArray` and `data`.  A `message` frame's
//! `data` field holds, itself JSON-encoded, a record with the sender,
//! the text, and an optional list of reaction emoji.  The parsers
//! accept the objects' fields in any order, reject duplicate or
//! unknown keys, and treat an absent optional field like a `null` one.

use vstd::prelude::*;
use crate::json::{
    chars_eq_str, chars_to_string, json_string, json_string_array, parse_null, parse_null_x,
    parse_string, parse_string_array, parse_string_array_x, parse_string_x, push_str_chars,
    skip_ws, skip_ws_x, str_chars, write_json_string, write_json_string_array,
    is_plain_text, is_ws_char, lemma_escape_plain, lemma_parse_json_string,
    lemma_parse_json_string_array, lemma_parse_string_bounds, lemma_parse_string_array_bounds,
    lemma_skip_ws_bounds,
};
use vstd::string::StringExecFns;

verus! {

// ---------------------------------------------------------------------
// The data carried on the wire
// ---------------------------------------------------------------------

/// The tag of a socket frame.
#[derive(Debug, Clone, Copy, PartialEq, Eq, Structural)]
pub enum MsgTypes {
    Users,
    Register,
    Message,
    Reaction,
}

/// A socket frame: tag plus optional payload fields.
pub struct WebSocketMessage {
    pub message_type: MsgTypes,
    pub data_array: Option<Vec<String>>,
    pub data: Option<String>,
}

/// One chat message as carried inside a `message` frame.
pub struct MessageData {
    pub from: String,
    pub message: String,
    pub reactions: Option<Vec<String>>,
}

/// Mathematical model of a frame.
#[verifier::ext_equal]
pub struct EnvelopeView {
    pub message_type: MsgTypes,
    pub data_array: Option<Seq<Seq<char>>>,
    pub data: Option<Seq<char>>,
}

/// Mathematical model of a chat message.
#[verifier::ext_equal]
pub struct MessageView {
    pub from: Seq<char>,
    pub message: Seq<char>,
    pub reactions: Option<Seq<Seq<char>>>,
}

impl View for WebSocketMessage {
    type V = EnvelopeView;

    open spec fn view(&self) -> EnvelopeView {
        EnvelopeView {
            message_type: self.message_type,
            data_array: match self.data_array {
                Some(a) => Some(a.deep_view()),
                None => None,
            },
            data: match self.data {
                Some(d) => Some(d@),
                None => None,
            },
        }
    }
}

impl View for MessageData {
    type V = MessageView;

    open spec fn view(&self) -> MessageView {
        MessageView {
            from: self.from@,
            message: self.message@,
            reactions: match self.reactions {
                Some(a) => Some(a.deep_view()),
                None => None,
            },
        }
    }
}

impl DeepView for MessageData {
    type V = MessageView;

    open spec fn deep_view(&self) -> MessageView {
        self.view()
    }
}

/// The tag's name on the wire.
pub open spec fn msg_type_name(t: MsgTypes) -> Seq<char> {
    match t {
        MsgTypes::Users => "users"@,
        MsgTypes::Register => "register"@,
        MsgTypes::Message => "message"@,
        MsgTypes::Reaction => "reaction"@,
    }
}

/// The tag a wire name stands for, if any.
pub open spec fn msg_type_of(name: Seq<char>) -> Option<MsgTypes> {
    if name == "users"@ {
        Some(MsgTypes::Users)
    } else if name == "register"@ {
        Some(MsgTypes::Register)
    } else if name == "message"@ {
        Some(MsgTypes::Message)
    } else if name == "reaction"@ {
        Some(MsgTypes::Reaction)
    } else {
        None
    }
}

/// The tag's name, as a string slice.
pub fn msg_type_str(t: MsgTypes) -> (r: &'static str)
    ensures
        r@ == msg_type_name(t),
{
    match t {
        MsgTypes::Users => "users",
        MsgTypes::Register => "register",
        MsgTypes::Message => "message",
        MsgTypes::Reaction => "reaction",
    }
}

fn msg_type_of_x(v: &Vec<char>) -> (r: Option<MsgTypes>)
    ensures
        r == msg_type_of(v@),
{
    if chars_eq_str(v, "users") {
        Some(MsgTypes::Users)
    } else if chars_eq_str(v, "register") {
        Some(MsgTypes::Register)
    } else if chars_eq_str(v, "message") {
        Some(MsgTypes::Message)
    } else if chars_eq_str(v, "reaction") {
        Some(MsgTypes::Reaction)
    } else {
        None
    }
}

// ---------------------------------------------------------------------
// Object members
// ---------------------------------------------------------------------

/// A member value both objects can carry: a string, an array of
/// strings, or `null`.
pub enum JsonVal {
    S(Seq<char>),
    A(Seq<Seq<char>>),
    Null,
}

/// The executable carrier of a member value.
pub enum JsonValX {
    S(Vec<char>),
    A(Vec<Vec<char>>),
    Null,
}

impl View for JsonValX {
    type V = JsonVal;

    open spec fn view(&self) -> JsonVal {
        match self {
            JsonValX::S(v) => JsonVal::S(v@),
            JsonValX::A(a) => JsonVal::A(a.deep_view()),
            JsonValX::Null => JsonVal::Null,
        }
    }
}

/// Parses one `"key": value` member starting at the key's quote;
/// yields key, value and the index just past the value.
pub open spec fn parse_member(s: Seq<char>, i: int) -> Option<(Seq<char>, JsonVal, int)> {
    match parse_string(s, i) {
        None => None,
        Some(kp) => {
            let c = skip_ws(s, kp.1);
            if 0 <= c < s.len() && s[c] == ':' {
                let v = skip_ws(s, c + 1);
                if 0 <= v < s.len() && s[v] == '"' {
                    match parse_string(s, v) {
                        Some(vp) => Some((kp.0, JsonVal::S(vp.0), vp.1)),
                        None => None,
                    }
                } else if 0 <= v < s.len() && s[v] == '[' {
                    match parse_string_array(s, v) {
                        Some(vp) => Some((kp.0, JsonVal::A(vp.0), vp.1)),
                        None => None,
                    }
                } else {
                    match parse_null(s, v) {
                        Some(n) => Some((kp.0, JsonVal::Null, n)),
                        None => None,
                    }
                }
            } else {
                None
            }
        },
    }
}

/// A successful member parse always advances and stays in bounds.
pub proof fn lemma_parse_member_bounds(s: Seq<char>, i: int)
    requires
        parse_member(s, i) is Some,
    ensures
        i < parse_member(s, i)->Some_0.2 <= s.len(),
{
    let kp = parse_string(s, i)->Some_0;
    lemma_parse_string_bounds(s, i);
    let c = skip_ws(s, kp.1);
    lemma_skip_ws_bounds(s, kp.1);
    let v = skip_ws(s, c + 1);
    lemma_skip_ws_bounds(s, c + 1);
    if 0 <= v < s.len() && s[v] == '"' {
        lemma_parse_string_bounds(s, v);
    } else if 0 <= v < s.len() && s[v] == '[' {
        lemma_parse_string_array_bounds(s, v);
    }
}

fn parse_member_x(s: &Vec<char>, i: usize) -> (r: Option<(Vec<char>, JsonValX, usize)>)
    requires
        i <= s@.len(),
    ensures
        match r {
            Some(p) => parse_member(s@, i as int) == Some((p.0@, p.1@, p.2 as int)) && i < p.2
                <= s@.len(),
            None => parse_member(s@, i as int) is None,
        },
{
    match parse_string_x(s, i) {
        None => None,
        Some(kp) => {
            let (key, j) = kp;
            let c = skip_ws_x(s, j);
            if c < s.len() && s[c] == ':' {
                let v = skip_ws_x(s, c + 1);
                if v < s.len() && s[v] == '"' {
                    match parse_string_x(s, v) {
                        Some(vp) => Some((key, JsonValX::S(vp.0), vp.1)),
                        None => None,
                    }
                } else if v < s.len() && s[v] == '[' {
                    match parse_string_array_x(s, v) {
                        Some(vp) => Some((key, JsonValX::A(vp.0), vp.1)),
                        None => None,
                    }
                } else {
                    match parse_null_x(s, v) {
                        Some(n) => Some((key, JsonValX::Null, n)),
                        None => None,
                    }
                }
            } else {
                None
            }
        },
    }
}

/// Parses the members of a non-empty object, starting at the first
/// key's quote; yields the key/value pairs in order and the index just
/// past the closing brace.
pub open spec fn parse_members(s: Seq<char>, i: int) -> Option<(Seq<(Seq<char>, JsonVal)>, int)>
    decreases s.len() - i,
        via parse_members_decreases
{
    match parse_member(s, i) {
        None => None,
        Some(m) => {
            let p = skip_ws(s, m.2);
            if 0 <= p < s.len() && s[p] == ',' {
                match parse_members(s, skip_ws(s, p + 1)) {
                    Some(q) => Some((seq![(m.0, m.1)] + q.0, q.1)),
                    None => None,
                }
            } else if 0 <= p < s.len() && s[p] == '}' {
                Some((seq![(m.0, m.1)], p + 1))
            } else {
                None
            }
        },
    }
}

#[via_fn]
proof fn parse_members_decreases(s: Seq<char>, i: int) {
    match parse_member(s, i) {
        None => {},
        Some(m) => {
            lemma_parse_member_bounds(s, i);
            let p = skip_ws(s, m.2);
            lemma_skip_ws_bounds(s, m.2);
            if 0 <= p < s.len() && s[p] == ',' {
                lemma_skip_ws_bounds(s, p + 1);
            }
        },
    }
}

/// A successful member-list parse stays in bounds.
pub proof fn lemma_parse_members_bounds(s: Seq<char>, i: int)
    requires
        parse_members(s, i) is Some,
    ensures
        i < parse_members(s, i)->Some_0.1 <= s.len(),
    decreases s.len() - i,
{
    let m = parse_member(s, i)->Some_0;
    lemma_parse_member_bounds(s, i);
    let p = skip_ws(s, m.2);
    lemma_skip_ws_bounds(s, m.2);
    if 0 <= p < s.len() && s[p] == ',' {
        lemma_skip_ws_bounds(s, p + 1);
        lemma_parse_members_bounds(s, skip_ws(s, p + 1));
    }
}

fn parse_members_x(s: &Vec<char>, i: usize) -> (r: Option<(Vec<(Vec<char>, JsonValX)>, usize)>)
    requires
        i <= s@.len(),
    ensures
        match r {
            Some(p) => {
                &&& parse_members(s@, i as int) matches Some(q)
                &&& q.1 == p.1 as int
                &&& q.0.len() == p.0@.len()
                &&& forall|j: int|
                    0 <= j < q.0.len() ==> q.0[j].0 == p.0@[j].0@ && q.0[j].1 == p.0@[j].1@
                &&& i < p.1 <= s@.len()
            },
            None => parse_members(s@, i as int) is None,
        },
    decreases s@.len() - i,
{
    match parse_member_x(s, i) {
        None => None,
        Some(m) => {
            let (key, val, n) = m;
            let p = skip_ws_x(s, n);
            if p < s.len() && s[p] == ',' {
                let q = skip_ws_x(s, p + 1);
                match parse_members_x(s, q) {
                    Some(rest) => {
                        let (mut pairs, e) = rest;
                        pairs.insert(0, (key, val));
                        proof {
                            let full = parse_members(s@, i as int)->Some_0.0;
                            let tail = parse_members(s@, q as int)->Some_0.0;
                            assert(full =~= seq![(key@, val@)] + tail);
                            assert forall|j: int| 0 <= j < full.len() implies full[j].0
                                == pairs@[j].0@ && full[j].1 == pairs@[j].1@ by {
                                if j > 0 {
                                    assert(full[j] == tail[j - 1]);
                                    assert(pairs@[j] == pairs@.subrange(1, pairs@.len() as int)[j
                                        - 1]);
                                }
                            }
                        }
                        Some((pairs, e))
                    },
                    None => None,
                }
            } else if p < s.len() && s[p] == '}' {
                let mut pairs: Vec<(Vec<char>, JsonValX)> = Vec::new();
                pairs.push((key, val));
                Some((pairs, p + 1))
            } else {
                None
            }
        },
    }
}

// ---------------------------------------------------------------------
// From members to an envelope
// ---------------------------------------------------------------------

/// The envelope fields gathered while walking an object's members.
#[verifier::ext_equal]
pub struct EnvelopeFields {
    pub message_type: Option<MsgTypes>,
    pub array_seen: bool,
    pub data_array: Option<Seq<Seq<char>>>,
    pub data_seen: bool,
    pub data: Option<Seq<char>>,
}

/// The executable carrier of the gathered envelope fields.
pub struct EnvelopeFieldsX {
    pub message_type: Option<MsgTypes>,
    pub array_seen: bool,
    pub data_array: Option<Vec<String>>,
    pub data_seen: bool,
    pub data: Option<String>,
}

impl View for EnvelopeFieldsX {
    type V = EnvelopeFields;

    open spec fn view(&self) -> EnvelopeFields {
        EnvelopeFields {
            message_type: self.message_type,
            array_seen: self.array_seen,
            data_array: match self.data_array {
                Some(a) => Some(a.deep_view()),
                None => None,
            },
            data_seen: self.data_seen,
            data: match self.data {
                Some(d) => Some(d@),
                None => None,
            },
        }
    }
}

pub open spec fn env_fields_init() -> EnvelopeFields {
    EnvelopeFields {
        message_type: None,
        array_seen: false,
        data_array: None,
        data_seen: false,
        data: None,
    }
}

/// Accounts one member to the envelope fields: rejects duplicate or
/// unknown keys and wrongly-typed values.
pub open spec fn env_field_step(acc: EnvelopeFields, key: Seq<char>, val: JsonVal) -> Option<
    EnvelopeFields,
> {
    if key == "messageType"@ {
        if acc.message_type is Some {
            None
        } else {
            match val {
                JsonVal::S(v) => match msg_type_of(v) {
                    Some(t) => Some(EnvelopeFields { message_type: Some(t), ..acc }),
                    None => None,
                },
                _ => None,
            }
        }
    } else if key == "dataArray"@ {
        if acc.array_seen {
            None
        } else {
            match val {
                JsonVal::Null => Some(EnvelopeFields { array_seen: true, data_array: None, ..acc }),
                JsonVal::A(a) => Some(
                    EnvelopeFields { array_seen: true, data_array: Some(a), ..acc },
                ),
                JsonVal::S(_) => None,
            }
        }
    } else if key == "data"@ {
        if acc.data_seen {
            None
        } else {
            match val {
                JsonVal::Null => Some(EnvelopeFields { data_seen: true, data: None, ..acc }),
                JsonVal::S(d) => Some(EnvelopeFields { data_seen: true, data: Some(d), ..acc }),
                JsonVal::A(_) => None,
            }
        }
    } else {
        None
    }
}

/// Folds the members from index `k` on into the envelope fields.
pub open spec fn env_fields_fold(
    pairs: Seq<(Seq<char>, JsonVal)>,
    k: int,
    acc: EnvelopeFields,
) -> Option<EnvelopeFields>
    decreases pairs.len() - k,
{
    if !(0 <= k < pairs.len()) {
        Some(acc)
    } else {
        match env_field_step(acc, pairs[k].0, pairs[k].1) {
            Some(a2) => env_fields_fold(pairs, k + 1, a2),
            None => None,
        }
    }
}

/// The members of `pairs`, viewed mathematically.
pub open spec fn pairs_view(pairs: Seq<(Vec<char>, JsonValX)>) -> Seq<(Seq<char>, JsonVal)> {
    Seq::new(pairs.len(), |j: int| (pairs[j].0@, pairs[j].1@))
}

fn env_field_step_x(acc: EnvelopeFieldsX, key: &Vec<char>, val: &JsonValX) -> (r: Option<
    EnvelopeFieldsX,
>)
    ensures
        match r {
            Some(f) => env_field_step(acc@, key@, val@) == Some(f@),
            None => env_field_step(acc@, key@, val@) is None,
        },
{
    if chars_eq_str(key, "messageType") {
        if acc.message_type.is_some() {
            None
        } else {
            match val {
                JsonValX::S(v) => match msg_type_of_x(v) {
                    Some(t) => Some(EnvelopeFieldsX { message_type: Some(t), ..acc }),
                    None => None,
                },
                _ => None,
            }
        }
    } else if chars_eq_str(key, "dataArray") {
        if acc.array_seen {
            None
        } else {
            match val {
                JsonValX::Null => Some(
                    EnvelopeFieldsX { array_seen: true, data_array: None, ..acc },
                ),
                JsonValX::A(a) => Some(
                    EnvelopeFieldsX {
                        array_seen: true,
                        data_array: Some(chars_vecs_to_strings(a)),
                        ..acc
                    },
                ),
                JsonValX::S(_) => None,
            }
        }
    } else if chars_eq_str(key, "data") {
        if acc.data_seen {
            None
        } else {
            match val {
                JsonValX::Null => Some(EnvelopeFieldsX { data_seen: true, data: None, ..acc }),
                JsonValX::S(d) => Some(
                    EnvelopeFieldsX { data_seen: true, data: Some(chars_to_string(d)), ..acc },
                ),
                JsonValX::A(_) => None,
            }
        }
    } else {
        None
    }
}

/// Turns each character vector into a string.
fn chars_vecs_to_strings(a: &Vec<Vec<char>>) -> (r: Vec<String>)
    ensures
        r.deep_view() == a.deep_view(),
{
    let mut r: Vec<String> = Vec::new();
    let mut k: usize = 0;
    while k < a.len()
        invariant
            k <= a@.len(),
            r.deep_view().len() == k,
            forall|j: int| 0 <= j < k ==> r.deep_view()[j] == a.deep_view()[j],
        decreases a@.len() - k,
    {
        r.push(chars_to_string(&a[k]));
        k = k + 1;
    }
    proof {
        assert(r.deep_view() =~= a.deep_view());
    }
    r
}

fn env_fields_fold_x(pairs: &Vec<(Vec<char>, JsonValX)>, k: usize, acc: EnvelopeFieldsX) -> (r:
    Option<EnvelopeFieldsX>)
    requires
        k <= pairs@.len(),
    ensures
        match r {
            Some(f) => env_fields_fold(pairs_view(pairs@), k as int, acc@) == Some(f@),
            None => env_fields_fold(pairs_view(pairs@), k as int, acc@) is None,
        },
    decreases pairs@.len() - k,
{
    if k == pairs.len() {
        Some(acc)
    } else {
        let (key, val) = &pairs[k];
        match env_field_step_x(acc, key, val) {
            Some(a2) => env_fields_fold_x(pairs, k + 1, a2),
            None => None,
        }
    }
}

/// Parses a whole frame: the envelope object with nothing but
/// whitespace around it.
pub open spec fn parse_envelope(s: Seq<char>) -> Option<EnvelopeView> {
    let i = skip_ws(s, 0);
    if 0 <= i < s.len() && s[i] == '{' {
        match parse_members(s, skip_ws(s, i + 1)) {
            Some(p) => {
                if skip_ws(s, p.1) == s.len() {
                    match env_fields_fold(p.0, 0, env_fields_init()) {
                        Some(f) => match f.message_type {
                            Some(t) => Some(
                                EnvelopeView {
                                    message_type: t,
                                    data_array: f.data_array,
                                    data: f.data,
                                },
                            ),
                            None => None,
                        },
                        None => None,
                    }
                } else {
                    None
                }
            },
            None => None,
        }
    } else {
        None
    }
}

/// Parses a frame's text into an envelope, if it is well-formed.
pub fn parse_envelope_str(s: &str) -> (r: Option<WebSocketMessage>)
    ensures
        match r {
            Some(m) => parse_envelope(s@) == Some(m@),
            None => parse_envelope(s@) is None,
        },
{
    let cs = str_chars(s);
    let i = skip_ws_x(&cs, 0);
    if i < cs.len() && cs[i] == '{' {
        let j = skip_ws_x(&cs, i + 1);
        match parse_members_x(&cs, j) {
            Some(p) => {
                let (pairs, e) = p;
                let t = skip_ws_x(&cs, e);
                if t == cs.len() {
                    proof {
                        assert(pairs_view(pairs@) =~~= parse_members(s@, skip_ws(s@, i + 1))
                            ->Some_0.0);
                    }
                    let init = EnvelopeFieldsX {
                        message_type: None,
                        array_seen: false,
                        data_array: None,
                        data_seen: false,
                        data: None,
                    };
                    match env_fields_fold_x(&pairs, 0, init) {
                        Some(f) => match f.message_type {
                            Some(mt) => {
                                let m = WebSocketMessage {
                                    message_type: mt,
                                    data_array: f.data_array,
                                    data: f.data,
                                };
                                proof {
                                    assert(parse_envelope(s@)->Some_0 =~= m@);
                                }
                                Some(m)
                            },
                            None => None,
                        },
                        None => None,
                    }
                } else {
                    None
                }
            },
            None => None,
        }
    } else {
        None
    }
}

// ---------------------------------------------------------------------
// From members to a chat message
// ---------------------------------------------------------------------

/// The message fields gathered while walking an object's members.
#[verifier::ext_equal]
pub struct MessageFields {
    pub from: Option<Seq<char>>,
    pub message: Option<Seq<char>>,
    pub reactions_seen: bool,
    pub reactions: Option<Seq<Seq<char>>>,
}

/// The executable carrier of the gathered message fields.
pub struct MessageFieldsX {
    pub from: Option<String>,
    pub message: Option<String>,
    pub reactions_seen: bool,
    pub reactions: Option<Vec<String>>,
}

impl View for MessageFieldsX {
    type V = MessageFields;

    open spec fn view(&self) -> MessageFields {
        MessageFields {
            from: match self.from {
                Some(v) => Some(v@),
                None => None,
            },
            message: match self.message {
                Some(v) => Some(v@),
                None => None,
            },
            reactions_seen: self.reactions_seen,
            reactions: match self.reactions {
                Some(a) => Some(a.deep_view()),
                None => None,
            },
        }
    }
}

pub open spec fn msg_fields_init() -> MessageFields {
    MessageFields { from: None, message: None, reactions_seen: false, reactions: None }
}

/// Accounts one member to the message fields.
pub open spec fn msg_field_step(acc: MessageFields, key: Seq<char>, val: JsonVal) -> Option<
    MessageFields,
> {
    if key == "from"@ {
        if acc.from is Some {
            None
        } else {
            match val {
                JsonVal::S(v) => Some(MessageFields { from: Some(v), ..acc }),
                _ => None,
            }
        }
    } else if key == "message"@ {
        if acc.message is Some {
            None
        } else {
            match val {
                JsonVal::S(v) => Some(MessageFields { message: Some(v), ..acc }),
                _ => None,
            }
        }
    } else if key == "reactions"@ {
        if acc.reactions_seen {
            None
        } else {
            match val {
                JsonVal::Null => Some(
                    MessageFields { reactions_seen: true, reactions: None, ..acc },
                ),
                JsonVal::A(a) => Some(
                    MessageFields { reactions_seen: true, reactions: Some(a), ..acc },
                ),
                JsonVal::S(_) => None,
            }
        }
    } else {
        None
    }
}

/// Folds the members from index `k` on into the message fields.
pub open spec fn msg_fields_fold(
    pairs: Seq<(Seq<char>, JsonVal)>,
    k: int,
    acc: MessageFields,
) -> Option<MessageFields>
    decreases pairs.len() - k,
{
    if !(0 <= k < pairs.len()) {
        Some(acc)
    } else {
        match msg_field_step(acc, pairs[k].0, pairs[k].1) {
            Some(a2) => msg_fields_fold(pairs, k + 1, a2),
            None => None,
        }
    }
}

fn msg_field_step_x(acc: MessageFieldsX, key: &Vec<char>, val: &JsonValX) -> (r: Option<
    MessageFieldsX,
>)
    ensures
        match r {
            Some(f) => msg_field_step(acc@, key@, val@) == Some(f@),
            None => msg_field_step(acc@, key@, val@) is None,
        },
{
    if chars_eq_str(key, "from") {
        if acc.from.is_some() {
            None
        } else {
            match val {
                JsonValX::S(v) => Some(MessageFieldsX { from: Some(chars_to_string(v)), ..acc }),
                _ => None,
            }
        }
    } else if chars_eq_str(key, "message") {
        if acc.message.is_some() {
            None
        } else {
            match val {
                JsonValX::S(v) => Some(MessageFieldsX { message: Some(chars_to_string(v)), ..acc }),
                _ => None,
            }
        }
    } else if chars_eq_str(key, "reactions") {
        if acc.reactions_seen {
            None
        } else {
            match val {
                JsonValX::Null => Some(
                    MessageFieldsX { reactions_seen: true, reactions: None, ..acc },
                ),
                JsonValX::A(a) => Some(
                    MessageFieldsX {
                        reactions_seen: true,
                        reactions: Some(chars_vecs_to_strings(a)),
                        ..acc
                    },
                ),
                JsonValX::S(_) => None,
            }
        }
    } else {
        None
    }
}

fn msg_fields_fold_x(pairs: &Vec<(Vec<char>, JsonValX)>, k: usize, acc: MessageFieldsX) -> (r:
    Option<MessageFieldsX>)
    requires
        k <= pairs@.len(),
    ensures
        match r {
            Some(f) => msg_fields_fold(pairs_view(pairs@), k as int, acc@) == Some(f@),
            None => msg_fields_fold(pairs_view(pairs@), k as int, acc@) is None,
        },
    decreases pairs@.len() - k,
{
    if k == pairs.len() {
        Some(acc)
    } else {
        let (key, val) = &pairs[k];
        match msg_field_step_x(acc, key, val) {
            Some(a2) => msg_fields_fold_x(pairs, k + 1, a2),
            None => None,
        }
    }
}

/// Parses the text inside a `message` frame's `data` field.
pub open spec fn parse_message_data(s: Seq<char>) -> Option<MessageView> {
    let i = skip_ws(s, 0);
    if 0 <= i < s.len() && s[i] == '{' {
        match parse_members(s, skip_ws(s, i + 1)) {
            Some(p) => {
                if skip_ws(s, p.1) == s.len() {
                    match msg_fields_fold(p.0, 0, msg_fields_init()) {
                        Some(f) => match (f.from, f.message) {
                            (Some(fr), Some(msg)) => Some(
                                MessageView { from: fr, message: msg, reactions: f.reactions },
                            ),
                            _ => None,
                        },
                        None => None,
                    }
                } else {
                    None
                }
            },
            None => None,
        }
    } else {
        None
    }
}

/// Parses a chat-message record, if it is well-formed.
pub fn parse_message_data_str(s: &str) -> (r: Option<MessageData>)
    ensures
        match r {
            Some(m) => parse_message_data(s@) == Some(m@),
            None => parse_message_data(s@) is None,
        },
{
    let cs = str_chars(s);
    let i = skip_ws_x(&cs, 0);
    if i < cs.len() && cs[i] == '{' {
        let j = skip_ws_x(&cs, i + 1);
        match parse_members_x(&cs, j) {
            Some(p) => {
                let (pairs, e) = p;
                let t = skip_ws_x(&cs, e);
                if t == cs.len() {
                    proof {
                        assert(pairs_view(pairs@) =~~= parse_members(s@, skip_ws(s@, i + 1))
                            ->Some_0.0);
                    }
                    let init = MessageFieldsX {
                        from: None,
                        message: None,
                        reactions_seen: false,
                        reactions: None,
                    };
                    match msg_fields_fold_x(&pairs, 0, init) {
                        Some(f) => {
                            match (f.from, f.message) {
                                (Some(fr), Some(msg)) => {
                                    let m = MessageData {
                                        from: fr,
                                        message: msg,
                                        reactions: f.reactions,
                                    };
                                    proof {
                                        assert(parse_message_data(s@)->Some_0 =~= m@);
                                    }
                                    Some(m)
                                },
                                _ => None,
                            }
                        },
                        None => None,
                    }
                } else {
                    None
                }
            },
            None => None,
        }
    } else {
        None
    }
}

// ---------------------------------------------------------------------
// Encoding
// ---------------------------------------------------------------------

/// The canonical text of a frame.
pub open spec fn envelope_json(e: EnvelopeView) -> Seq<char> {
    "{\"messageType\":"@ + json_string(msg_type_name(e.message_type)) + ",\"dataArray\":"@ + (
    match e.data_array {
        Some(a) => json_string_array(a),
        None => "null"@,
    }) + ",\"data\":"@ + (match e.data {
        Some(d) => json_string(d),
        None => "null"@,
    }) + "}"@
}

/// The canonical text of a chat-message record.
pub open spec fn message_data_json(m: MessageView) -> Seq<char> {
    "{\"from\":"@ + json_string(m.from) + ",\"message\":"@ + json_string(m.message)
        + ",\"reactions\":"@ + (match m.reactions {
        Some(a) => json_string_array(a),
        None => "null"@,
    }) + "}"@
}

/// Writes a frame as its canonical text.
pub fn encode_envelope(m: &WebSocketMessage) -> (r: String)
    ensures
        r@ == envelope_json(m@),
{
    let mut out: Vec<char> = Vec::new();
    push_str_chars(&mut out, "{\"messageType\":");
    write_json_string(&mut out, msg_type_str(m.message_type));
    push_str_chars(&mut out, ",\"dataArray\":");
    match &m.data_array {
        Some(a) => write_json_string_array(&mut out, a),
        None => push_str_chars(&mut out, "null"),
    }
    push_str_chars(&mut out, ",\"data\":");
    match &m.data {
        Some(d) => write_json_string(&mut out, d.as_str()),
        None => push_str_chars(&mut out, "null"),
    }
    push_str_chars(&mut out, "}");
    proof {
        assert(out@ =~= envelope_json(m@));
    }
    chars_to_string(&out)
}

/// Writes a chat-message record as its canonical text.
pub fn encode_message_data(m: &MessageData) -> (r: String)
    ensures
        r@ == message_data_json(m@),
{
    let mut out: Vec<char> = Vec::new();
    push_str_chars(&mut out, "{\"from\":");
    write_json_string(&mut out, m.from.as_str());
    push_str_chars(&mut out, ",\"message\":");
    write_json_string(&mut out, m.message.as_str());
    push_str_chars(&mut out, ",\"reactions\":");
    match &m.reactions {
        Some(a) => write_json_string_array(&mut out, a),
        None => push_str_chars(&mut out, "null"),
    }
    push_str_chars(&mut out, "}");
    proof {
        assert(out@ =~= message_data_json(m@));
    }
    chars_to_string(&out)
}

/// The registration frame sent once when the client comes up.
pub fn register_frame(username: &str) -> (r: String)
    ensures
        r@ == envelope_json(
            EnvelopeView {
                message_type: MsgTypes::Register,
                data_array: None,
                data: Some(username@),
            },
        ),
{
    let m = WebSocketMessage {
        message_type: MsgTypes::Register,
        data_array: None,
        data: Some(String::from_str(username)),
    };
    encode_envelope(&m)
}

/// The frame that carries the text the user submitted.
pub fn message_frame(text: &str) -> (r: String)
    ensures
        r@ == envelope_json(
            EnvelopeView { message_type: MsgTypes::Message, data_array: None, data: Some(text@) },
        ),
{
    let m = WebSocketMessage {
        message_type: MsgTypes::Message,
        data_array: None,
        data: Some(String::from_str(text)),
    };
    encode_envelope(&m)
}

// ---------------------------------------------------------------------
// Decoding inverts encoding
// ---------------------------------------------------------------------

/// Well-formed member: the key is written as itself, and `vtext` is
/// the canonical text of `val`.
pub open spec fn member_wf(key: Seq<char>, val: JsonVal, vtext: Seq<char>) -> bool {
    &&& is_plain_text(key)
    &&& match val {
        JsonVal::S(c) => vtext == json_string(c),
        JsonVal::A(a) => vtext == json_string_array(a),
        JsonVal::Null => vtext == "null"@,
    }
}

/// The canonical text of one member.
pub open spec fn member_text(key: Seq<char>, vtext: Seq<char>) -> Seq<char> {
    json_string(key) + seq![':'] + vtext
}

/// The canonical text of an object's members, commas between them and
/// the closing brace at the end.
pub open spec fn members_block(ts: Seq<(Seq<char>, JsonVal, Seq<char>)>) -> Seq<char>
    decreases ts.len(),
{
    if ts.len() == 0 {
        seq!['}']
    } else if ts.len() == 1 {
        member_text(ts[0].0, ts[0].2) + seq!['}']
    } else {
        member_text(ts[0].0, ts[0].2) + seq![','] + members_block(ts.drop_first())
    }
}

/// The key/value pairs of a member list.
pub open spec fn pairs_of(ts: Seq<(Seq<char>, JsonVal, Seq<char>)>) -> Seq<(Seq<char>, JsonVal)> {
    ts.map_values(|t: (Seq<char>, JsonVal, Seq<char>)| (t.0, t.1))
}

proof fn lemma_vtext_head(val: JsonVal, vtext: Seq<char>)
    requires
        match val {
            JsonVal::S(c) => vtext == json_string(c),
            JsonVal::A(a) => vtext == json_string_array(a),
            JsonVal::Null => vtext == "null"@,
        },
    ensures
        vtext.len() >= 1,
        vtext[0] == '"' || vtext[0] == '[' || vtext[0] == 'n',
        !is_ws_char(vtext[0]),
{
    match val {
        JsonVal::S(c) => {
            assert(vtext[0] == '"');
        },
        JsonVal::A(a) => {
            assert(vtext[0] == '[');
        },
        JsonVal::Null => {
            reveal_strlit("null");
            assert(vtext[0] == 'n');
        },
    }
}

/// One canonical member parses back to its key and value.
proof fn lemma_parse_member_canonical(s: Seq<char>, i: int, key: Seq<char>, val: JsonVal, vtext: Seq<char>)
    requires
        member_wf(key, val, vtext),
        0 <= i,
        i + member_text(key, vtext).len() <= s.len(),
        forall|j: int|
            0 <= j < member_text(key, vtext).len() ==> s[i + j] == #[trigger] member_text(
                key,
                vtext,
            )[j],
    ensures
        parse_member(s, i) == Some((key, val, i + member_text(key, vtext).len())),
{
    let jk = json_string(key);
    let mt = member_text(key, vtext);
    assert(mt.len() == jk.len() + 1 + vtext.len());
    assert forall|j: int| 0 <= j < jk.len() implies s[i + j] == #[trigger] jk[j] by {
        assert(mt[j] == jk[j]);
    }
    lemma_parse_json_string(s, i, key);
    let c = i + jk.len();
    assert(mt[jk.len() as int] == ':');
    assert(s[c] == ':');
    assert(!is_ws_char(':'));
    assert(skip_ws(s, c) == c);
    let v = c + 1;
    lemma_vtext_head(val, vtext);
    assert forall|j: int| 0 <= j < vtext.len() implies s[v + j] == #[trigger] vtext[j] by {
        assert(mt[jk.len() + 1 + j] == vtext[j]);
        assert(s[i + (jk.len() + 1 + j)] == mt[jk.len() + 1 + j]);
    }
    assert(s[v + 0] == vtext[0]);
    assert(skip_ws(s, v) == v);
    match val {
        JsonVal::S(cnt) => {
            assert(s[v] == '"');
            lemma_parse_json_string(s, v, cnt);
        },
        JsonVal::A(a) => {
            assert(s[v] == '[');
            lemma_parse_json_string_array(s, v, a);
        },
        JsonVal::Null => {
            reveal_strlit("null");
            assert(vtext.len() == 4);
            assert(vtext[0] == 'n' && vtext[1] == 'u' && vtext[2] == 'l' && vtext[3] == 'l');
            assert(s[v + 0] == vtext[0]);
            assert(s[v + 1] == vtext[1]);
            assert(s[v + 2] == vtext[2]);
            assert(s[v + 3] == vtext[3]);
            assert(s[v] != '"' && s[v] != '[');
            assert(parse_null(s, v) == Some(v + 4));
        },
    }
}

/// A canonical member block parses back to its pairs.
proof fn lemma_parse_members_canonical(s: Seq<char>, i: int, ts: Seq<(Seq<char>, JsonVal, Seq<char>)>)
    requires
        ts.len() >= 1,
        0 <= i,
        i + members_block(ts).len() <= s.len(),
        forall|j: int|
            0 <= j < members_block(ts).len() ==> s[i + j] == #[trigger] members_block(ts)[j],
        forall|k: int| 0 <= k < ts.len() ==> member_wf((#[trigger] ts[k]).0, ts[k].1, ts[k].2),
    ensures
        parse_members(s, i) == Some((pairs_of(ts), i + members_block(ts).len())),
    decreases ts.len(),
{
    let blk = members_block(ts);
    let mt = member_text(ts[0].0, ts[0].2);
    assert(member_wf(ts[0].0, ts[0].1, ts[0].2));
    assert forall|j: int| 0 <= j < mt.len() implies s[i + j] == #[trigger] mt[j] by {
        assert(blk[j] == mt[j]);
    }
    lemma_parse_member_canonical(s, i, ts[0].0, ts[0].1, ts[0].2);
    let p = i + mt.len();
    if ts.len() == 1 {
        assert(blk == mt + seq!['}']);
        assert(blk[mt.len() as int] == '}');
        assert(s[p] == '}');
        assert(!is_ws_char('}'));
        assert(skip_ws(s, p) == p);
        assert(parse_members(s, i) is Some);
        assert(parse_members(s, i)->Some_0.0 =~= pairs_of(ts));
        assert(parse_members(s, i)->Some_0.1 == i + blk.len());
    } else {
        let rest = ts.drop_first();
        let rblk = members_block(rest);
        assert(blk == mt + seq![','] + rblk);
        assert(blk[mt.len() as int] == ',');
        assert(s[p] == ',');
        assert(!is_ws_char(','));
        assert(skip_ws(s, p) == p);
        assert forall|j: int| 0 <= j < rblk.len() implies s[p + 1 + j] == #[trigger] rblk[j] by {
            assert(blk[mt.len() + 1 + j] == rblk[j]);
            assert(s[i + (mt.len() + 1 + j)] == blk[mt.len() + 1 + j]);
        }
        assert(rest.len() >= 1);
        let rmt = member_text(rest[0].0, rest[0].2);
        assert(rblk[0] == rmt[0]) by {
            if rest.len() == 1 {
                assert(rblk == rmt + seq!['}']);
            } else {
                assert(rblk == rmt + seq![','] + members_block(rest.drop_first()));
            }
        }
        assert(rmt[0] == json_string(rest[0].0)[0]);
        assert(json_string(rest[0].0)[0] == '"');
        assert(s[p + 1 + 0] == rblk[0]);
        assert(!is_ws_char('"'));
        assert(skip_ws(s, p + 1) == p + 1);
        assert forall|k: int| 0 <= k < rest.len() implies member_wf(
            (#[trigger] rest[k]).0,
            rest[k].1,
            rest[k].2,
        ) by {
            assert(rest[k] == ts[k + 1]);
        }
        lemma_parse_members_canonical(s, p + 1, rest);
        assert(parse_members(s, i) is Some);
        assert(parse_members(s, i)->Some_0.0 =~= pairs_of(ts)) by {
            assert(parse_members(s, i)->Some_0.0 == seq![(ts[0].0, ts[0].1)] + pairs_of(rest));
            assert(pairs_of(ts).len() == ts.len());
            assert forall|k: int| 0 <= k < ts.len() implies (seq![(ts[0].0, ts[0].1)] + pairs_of(
                rest,
            ))[k] == #[trigger] pairs_of(ts)[k] by {
                if k > 0 {
                    assert(pairs_of(rest)[k - 1] == (rest[k - 1].0, rest[k - 1].1));
                    assert(rest[k - 1] == ts[k]);
                }
            }
        }
        assert(parse_members(s, i)->Some_0.1 == i + blk.len());
    }
}

/// Parsing a frame's canonical text gives back exactly the envelope
/// it was written from.
#[verifier::rlimit(100)]
pub proof fn lemma_envelope_round_trip(e: EnvelopeView)
    ensures
        parse_envelope(envelope_json(e)) == Some(e),
{
    let s = envelope_json(e);
    reveal_strlit("{\"messageType\":");
    reveal_strlit(",\"dataArray\":");
    reveal_strlit(",\"data\":");
    reveal_strlit("}");
    reveal_strlit("null");
    reveal_strlit("messageType");
    reveal_strlit("dataArray");
    reveal_strlit("data");
    reveal_strlit("users");
    reveal_strlit("register");
    reveal_strlit("message");
    reveal_strlit("reaction");
    let name = msg_type_name(e.message_type);
    let datext = match e.data_array {
        Some(a) => json_string_array(a),
        None => "null"@,
    };
    let dtext = match e.data {
        Some(d) => json_string(d),
        None => "null"@,
    };
    let daval = match e.data_array {
        Some(a) => JsonVal::A(a),
        None => JsonVal::Null,
    };
    let dval = match e.data {
        Some(d) => JsonVal::S(d),
        None => JsonVal::Null,
    };
    let ts = seq![
        ("messageType"@, JsonVal::S(name), json_string(name)),
        ("dataArray"@, daval, datext),
        ("data"@, dval, dtext),
    ];
    assert(is_plain_text("messageType"@));
    assert(is_plain_text("dataArray"@));
    assert(is_plain_text("data"@));
    lemma_escape_plain("messageType"@);
    lemma_escape_plain("dataArray"@);
    lemma_escape_plain("data"@);
    assert(member_wf(ts[0].0, ts[0].1, ts[0].2));
    assert(member_wf(ts[1].0, ts[1].1, ts[1].2));
    assert(member_wf(ts[2].0, ts[2].1, ts[2].2));
    let blk = members_block(ts);
    let mt0 = member_text(ts[0].0, ts[0].2);
    let mt1 = member_text(ts[1].0, ts[1].2);
    let mt2 = member_text(ts[2].0, ts[2].2);
    let rest1 = ts.drop_first();
    assert(rest1 =~= seq![ts[1], ts[2]]);
    let rest2 = rest1.drop_first();
    assert(rest2 =~= seq![ts[2]]);
    assert(rest1.len() == 2 && rest2.len() == 1);
    assert(rest1[0] == ts[1] && rest2[0] == ts[2]);
    assert(members_block(rest2) == member_text(rest2[0].0, rest2[0].2) + seq!['}']);
    assert(members_block(rest2) == mt2 + seq!['}']);
    assert(members_block(rest1) == mt1 + seq![','] + members_block(rest2));
    assert(blk == mt0 + seq![','] + members_block(rest1));
    assert(blk =~= mt0 + seq![','] + (mt1 + seq![','] + (mt2 + seq!['}'])));
    assert("{\"messageType\":"@ =~= seq!['{'] + json_string("messageType"@) + seq![':']);
    assert(",\"dataArray\":"@ =~= seq![','] + json_string("dataArray"@) + seq![':']);
    assert(",\"data\":"@ =~= seq![','] + json_string("data"@) + seq![':']);
    assert("}"@ =~= seq!['}']);
    assert(s =~= seq!['{'] + blk);
    assert(s[0] == '{');
    assert(!is_ws_char('{'));
    assert(skip_ws(s, 0) == 0);
    assert forall|j: int| 0 <= j < blk.len() implies s[1 + j] == #[trigger] blk[j] by {
        assert((seq!['{'] + blk)[1 + j] == blk[j]);
    }
    assert(s[1] == blk[0]);
    assert(blk[0] == '"');
    assert(skip_ws(s, 1) == 1);
    assert forall|k: int| 0 <= k < ts.len() implies member_wf(
        (#[trigger] ts[k]).0,
        ts[k].1,
        ts[k].2,
    ) by {
        assert(k == 0 || k == 1 || k == 2);
    }
    lemma_parse_members_canonical(s, 1, ts);
    assert(s.len() == 1 + blk.len());
    assert(skip_ws(s, s.len() as int) == s.len());
    let pairs = pairs_of(ts);
    assert(pairs[0] == ("messageType"@, JsonVal::S(name)));
    assert(pairs[1] == ("dataArray"@, daval));
    assert(pairs[2] == ("data"@, dval));
    let f0 = env_fields_init();
    assert(msg_type_of(name) == Some(e.message_type)) by {
        match e.message_type {
            MsgTypes::Users => {},
            MsgTypes::Register => {
                assert("register"@.len() == 8 && "users"@.len() == 5);
            },
            MsgTypes::Message => {
                assert("message"@.len() == 7 && "users"@.len() == 5 && "register"@.len() == 8);
            },
            MsgTypes::Reaction => {
                assert("reaction"@.len() == 8 && "users"@.len() == 5 && "message"@.len() == 7);
                assert("reaction"@[2] == 'a' && "register"@[2] == 'g');
                assert("reaction"@ != "register"@);
            },
        }
    }
    let f1 = EnvelopeFields { message_type: Some(e.message_type), ..f0 };
    assert(env_field_step(f0, pairs[0].0, pairs[0].1) == Some(f1));
    assert("dataArray"@ != "messageType"@);
    let f2 = EnvelopeFields { array_seen: true, data_array: e.data_array, ..f1 };
    assert(env_field_step(f1, pairs[1].0, pairs[1].1) == Some(f2));
    assert("data"@ != "messageType"@);
    assert("data"@ != "dataArray"@);
    let f3 = EnvelopeFields { data_seen: true, data: e.data, ..f2 };
    assert(env_field_step(f2, pairs[2].0, pairs[2].1) == Some(f3));
    assert(env_fields_fold(pairs, 3, f3) == Some(f3));
    assert(env_fields_fold(pairs, 2, f2) == Some(f3));
    assert(env_fields_fold(pairs, 1, f1) == Some(f3));
    assert(env_fields_fold(pairs, 0, f0) == Some(f3));
    assert(parse_envelope(s) is Some);
    assert(parse_envelope(s)->Some_0 =~= e);
}

/// Parsing a chat-message record's canonical text gives back exactly
/// the record it was written from.
#[verifier::rlimit(100)]
pub proof fn lemma_message_data_round_trip(m: MessageView)
    ensures
        parse_message_data(message_data_json(m)) == Some(m),
{
    let s = message_data_json(m);
    reveal_strlit("{\"from\":");
    reveal_strlit(",\"message\":");
    reveal_strlit(",\"reactions\":");
    reveal_strlit("}");
    reveal_strlit("null");
    reveal_strlit("from");
    reveal_strlit("message");
    reveal_strlit("reactions");
    let rtext = match m.reactions {
        Some(a) => json_string_array(a),
        None => "null"@,
    };
    let rval = match m.reactions {
        Some(a) => JsonVal::A(a),
        None => JsonVal::Null,
    };
    let ts = seq![
        ("from"@, JsonVal::S(m.from), json_string(m.from)),
        ("message"@, JsonVal::S(m.message), json_string(m.message)),
        ("reactions"@, rval, rtext),
    ];
    assert(is_plain_text("from"@));
    assert(is_plain_text("message"@));
    assert(is_plain_text("reactions"@));
    lemma_escape_plain("from"@);
    lemma_escape_plain("message"@);
    lemma_escape_plain("reactions"@);
    assert(member_wf(ts[0].0, ts[0].1, ts[0].2));
    assert(member_wf(ts[1].0, ts[1].1, ts[1].2));
    assert(member_wf(ts[2].0, ts[2].1, ts[2].2));
    let blk = members_block(ts);
    let mt0 = member_text(ts[0].0, ts[0].2);
    let mt1 = member_text(ts[1].0, ts[1].2);
    let mt2 = member_text(ts[2].0, ts[2].2);
    let rest1 = ts.drop_first();
    assert(rest1 =~= seq![ts[1], ts[2]]);
    let rest2 = rest1.drop_first();
    assert(rest2 =~= seq![ts[2]]);
    assert(rest1.len() == 2 && rest2.len() == 1);
    assert(rest1[0] == ts[1] && rest2[0] == ts[2]);
    assert(members_block(rest2) == member_text(rest2[0].0, rest2[0].2) + seq!['}']);
    assert(members_block(rest2) == mt2 + seq!['}']);
    assert(members_block(rest1) == mt1 + seq![','] + members_block(rest2));
    assert(blk == mt0 + seq![','] + members_block(rest1));
    assert(blk =~= mt0 + seq![','] + (mt1 + seq![','] + (mt2 + seq!['}'])));
    assert("{\"from\":"@ =~= seq!['{'] + json_string("from"@) + seq![':']);
    assert(",\"message\":"@ =~= seq![','] + json_string("message"@) + seq![':']);
    assert(",\"reactions\":"@ =~= seq![','] + json_string("reactions"@) + seq![':']);
    assert("}"@ =~= seq!['}']);
    assert(s =~= seq!['{'] + blk);
    assert(s[0] == '{');
    assert(!is_ws_char('{'));
    assert(skip_ws(s, 0) == 0);
    assert forall|j: int| 0 <= j < blk.len() implies s[1 + j] == #[trigger] blk[j] by {
        assert((seq!['{'] + blk)[1 + j] == blk[j]);
    }
    assert(s[1] == blk[0]);
    assert(blk[0] == '"');
    assert(skip_ws(s, 1) == 1);
    assert forall|k: int| 0 <= k < ts.len() implies member_wf(
        (#[trigger] ts[k]).0,
        ts[k].1,
        ts[k].2,
    ) by {
        assert(k == 0 || k == 1 || k == 2);
    }
    lemma_parse_members_canonical(s, 1, ts);
    assert(s.len() == 1 + blk.len());
    assert(skip_ws(s, s.len() as int) == s.len());
    let pairs = pairs_of(ts);
    assert(pairs[0] == ("from"@, JsonVal::S(m.from)));
    assert(pairs[1] == ("message"@, JsonVal::S(m.message)));
    assert(pairs[2] == ("reactions"@, rval));
    let f0 = msg_fields_init();
    let f1 = MessageFields { from: Some(m.from), ..f0 };
    assert(msg_field_step(f0, pairs[0].0, pairs[0].1) == Some(f1));
    assert("message"@ != "from"@);
    let f2 = MessageFields { message: Some(m.message), ..f1 };
    assert(msg_field_step(f1, pairs[1].0, pairs[1].1) == Some(f2));
    assert("reactions"@ != "from"@);
    assert("reactions"@ != "message"@);
    let f3 = MessageFields { reactions_seen: true, reactions: m.reactions, ..f2 };
    assert(msg_field_step(f2, pairs[2].0, pairs[2].1) == Some(f3));
    assert(msg_fields_fold(pairs, 3, f3) == Some(f3));
    assert(msg_fields_fold(pairs, 2, f2) == Some(f3));
    assert(msg_fields_fold(pairs, 1, f1) == Some(f3));
    assert(msg_fields_fold(pairs, 0, f0) == Some(f3));
    assert(parse_message_data(s) is Some);
    assert(parse_message_data(s)->Some_0 =~= m);
}

} // verus!
