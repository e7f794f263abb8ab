//! The textual layer of the wire format: JSON whitespace, strings with
//! their escapes, `null`, and arrays of strings.
//!
//! The grammar is stated by spec-level parsers over `Seq<char>`; each
//! executable parser returns exactly what its spec parser says, and the
//! encoders produce text the parsers accept.  Unicode escapes are
//! accepted up to `ÿ`; larger code points travel as literal
//! characters, which is how the encoder always sends them.

use vstd::prelude::*;

verus! {

// ---------------------------------------------------------------------
// Character classes
// ---------------------------------------------------------------------

/// JSON insignificant whitespace.
pub open spec fn is_ws_char(c: char) -> bool {
    c == ' ' || c == '\t' || c == '\n' || c == '\r'
}

/// Characters JSON forbids unescaped inside a string.
pub open spec fn is_control_char(c: char) -> bool {
    (c as u32) < 0x20
}

pub open spec fn is_hex_char(c: char) -> bool {
    (0x30 <= c as u32 && c as u32 <= 0x39) || (0x61 <= c as u32 && c as u32 <= 0x66) || (0x41 <= c
        as u32 && c as u32 <= 0x46)
}

pub open spec fn hex_val(c: char) -> int {
    if 0x30 <= c as u32 && c as u32 <= 0x39 {
        c as u32 - 0x30
    } else if 0x61 <= c as u32 && c as u32 <= 0x66 {
        c as u32 - 0x61 + 10
    } else if 0x41 <= c as u32 && c as u32 <= 0x46 {
        c as u32 - 0x41 + 10
    } else {
        0
    }
}

/// The character written by a single-letter escape sequence.
pub open spec fn unescape_short(c: char) -> char {
    if c == 'b' {
        8u8 as char
    } else if c == 'f' {
        12u8 as char
    } else if c == 'n' {
        '\n'
    } else if c == 'r' {
        '\r'
    } else if c == 't' {
        '\t'
    } else {
        c
    }
}

pub open spec fn is_short_escape(c: char) -> bool {
    c == '"' || c == '\\' || c == '/' || c == 'b' || c == 'f' || c == 'n' || c == 'r' || c == 't'
}

fn is_ws_char_x(c: char) -> (r: bool)
    ensures
        r == is_ws_char(c),
{
    c == ' ' || c == '\t' || c == '\n' || c == '\r'
}

fn is_hex_char_x(c: char) -> (r: bool)
    ensures
        r == is_hex_char(c),
{
    let u = c as u32;
    (0x30 <= u && u <= 0x39) || (0x61 <= u && u <= 0x66) || (0x41 <= u && u <= 0x46)
}

fn hex_val_x(c: char) -> (r: u32)
    ensures
        r == hex_val(c),
{
    let u = c as u32;
    if 0x30 <= u && u <= 0x39 {
        u - 0x30
    } else if 0x61 <= u && u <= 0x66 {
        u - 0x61 + 10
    } else if 0x41 <= u && u <= 0x46 {
        u - 0x41 + 10
    } else {
        0
    }
}

fn unescape_short_x(c: char) -> (r: char)
    ensures
        r == unescape_short(c),
{
    if c == 'b' {
        8u8 as char
    } else if c == 'f' {
        12u8 as char
    } else if c == 'n' {
        '\n'
    } else if c == 'r' {
        '\r'
    } else if c == 't' {
        '\t'
    } else {
        c
    }
}

fn is_short_escape_x(c: char) -> (r: bool)
    ensures
        r == is_short_escape(c),
{
    c == '"' || c == '\\' || c == '/' || c == 'b' || c == 'f' || c == 'n' || c == 'r' || c == 't'
}

// ---------------------------------------------------------------------
// Whitespace
// ---------------------------------------------------------------------

/// Index of the first non-whitespace character at or after `i`.
pub open spec fn skip_ws(s: Seq<char>, i: int) -> int
    decreases s.len() - i,
{
    if 0 <= i < s.len() && is_ws_char(s[i]) {
        skip_ws(s, i + 1)
    } else {
        i
    }
}

pub proof fn lemma_skip_ws_bounds(s: Seq<char>, i: int)
    requires
        0 <= i <= s.len(),
    ensures
        i <= skip_ws(s, i) <= s.len(),
    decreases s.len() - i,
{
    if i < s.len() && is_ws_char(s[i]) {
        lemma_skip_ws_bounds(s, i + 1);
    }
}

pub fn skip_ws_x(s: &Vec<char>, i: usize) -> (r: usize)
    requires
        i <= s@.len(),
    ensures
        r == skip_ws(s@, i as int),
        i <= r <= s@.len(),
{
    let mut j = i;
    while j < s.len() && is_ws_char_x(s[j])
        invariant
            i <= j <= s@.len(),
            skip_ws(s@, i as int) == skip_ws(s@, j as int),
        decreases s@.len() - j,
    {
        j = j + 1;
    }
    j
}

// ---------------------------------------------------------------------
// Strings
// ---------------------------------------------------------------------

/// Parses the body of a JSON string, starting just after the opening
/// quote; yields the decoded characters and the index just past the
/// closing quote.
pub open spec fn parse_string_body(s: Seq<char>, i: int) -> Option<(Seq<char>, int)>
    decreases s.len() - i,
{
    if i < 0 || i >= s.len() {
        None
    } else if s[i] == '"' {
        Some((Seq::<char>::empty(), i + 1))
    } else if s[i] == '\\' {
        if i + 2 <= s.len() {
            if is_short_escape(s[i + 1]) {
                match parse_string_body(s, i + 2) {
                    Some(p) => Some((seq![unescape_short(s[i + 1])] + p.0, p.1)),
                    None => None,
                }
            } else if s[i + 1] == 'u' {
                if i + 6 <= s.len() && is_hex_char(s[i + 2]) && is_hex_char(s[i + 3]) && is_hex_char(
                    s[i + 4],
                ) && is_hex_char(s[i + 5]) {
                    let code = hex_val(s[i + 2]) * 0x1000 + hex_val(s[i + 3]) * 0x100 + hex_val(
                        s[i + 4],
                    ) * 0x10 + hex_val(s[i + 5]);
                    if code < 0x100 {
                        match parse_string_body(s, i + 6) {
                            Some(p) => Some((seq![(code as u8) as char] + p.0, p.1)),
                            None => None,
                        }
                    } else {
                        None
                    }
                } else {
                    None
                }
            } else {
                None
            }
        } else {
            None
        }
    } else if is_control_char(s[i]) {
        None
    } else {
        match parse_string_body(s, i + 1) {
            Some(p) => Some((seq![s[i]] + p.0, p.1)),
            None => None,
        }
    }
}

/// A successful string-body parse always advances and stays in bounds.
pub proof fn lemma_parse_string_body_bounds(s: Seq<char>, i: int)
    requires
        parse_string_body(s, i) is Some,
    ensures
        i < parse_string_body(s, i)->Some_0.1 <= s.len(),
    decreases s.len() - i,
{
    if 0 <= i < s.len() && s[i] == '"' {
    } else if 0 <= i < s.len() && s[i] == '\\' {
        if is_short_escape(s[i + 1]) {
            lemma_parse_string_body_bounds(s, i + 2);
        } else {
            lemma_parse_string_body_bounds(s, i + 6);
        }
    } else {
        lemma_parse_string_body_bounds(s, i + 1);
    }
}

/// Parses a complete JSON string (opening quote at `i`).
pub open spec fn parse_string(s: Seq<char>, i: int) -> Option<(Seq<char>, int)> {
    if 0 <= i < s.len() && s[i] == '"' {
        parse_string_body(s, i + 1)
    } else {
        None
    }
}

pub proof fn lemma_parse_string_bounds(s: Seq<char>, i: int)
    requires
        parse_string(s, i) is Some,
    ensures
        i < parse_string(s, i)->Some_0.1 <= s.len(),
{
    lemma_parse_string_body_bounds(s, i + 1);
}

fn parse_string_body_x(s: &Vec<char>, i: usize) -> (r: Option<(Vec<char>, usize)>)
    requires
        i <= s@.len(),
    ensures
        match r {
            Some(p) => parse_string_body(s@, i as int) == Some((p.0@, p.1 as int)) && i < p.1
                <= s@.len(),
            None => parse_string_body(s@, i as int) is None,
        },
    decreases s@.len() - i,
{
    if i >= s.len() {
        return None;
    }
    let c = s[i];
    if c == '"' {
        let v: Vec<char> = Vec::new();
        proof {
            assert(v@ =~= Seq::<char>::empty());
        }
        return Some((v, i + 1));
    }
    if c == '\\' {
        if s.len() - i < 2 {
            return None;
        }
        let e = s[i + 1];
        if is_short_escape_x(e) {
            match parse_string_body_x(s, i + 2) {
                Some(p) => {
                    let (mut v, j) = p;
                    let ghost tail = v@;
                    v.insert(0, unescape_short_x(e));
                    proof {
                        assert(v@ =~= seq![unescape_short(e)] + tail);
                    }
                    return Some((v, j));
                },
                None => {
                    return None;
                },
            }
        } else if e == 'u' {
            if s.len() - i < 6 {
                return None;
            }
            if !(is_hex_char_x(s[i + 2]) && is_hex_char_x(s[i + 3]) && is_hex_char_x(s[i + 4])
                && is_hex_char_x(s[i + 5])) {
                return None;
            }
            let code = hex_val_x(s[i + 2]) * 0x1000 + hex_val_x(s[i + 3]) * 0x100 + hex_val_x(
                s[i + 4],
            ) * 0x10 + hex_val_x(s[i + 5]);
            if code >= 0x100 {
                return None;
            }
            let ch = (code as u8) as char;
            match parse_string_body_x(s, i + 6) {
                Some(p) => {
                    let (mut v, j) = p;
                    let ghost tail = v@;
                    v.insert(0, ch);
                    proof {
                        assert(v@ =~= seq![(code as u8) as char] + tail);
                    }
                    return Some((v, j));
                },
                None => {
                    return None;
                },
            }
        } else {
            return None;
        }
    }
    if (c as u32) < 0x20 {
        return None;
    }
    match parse_string_body_x(s, i + 1) {
        Some(p) => {
            let (mut v, j) = p;
            let ghost tail = v@;
            v.insert(0, c);
            proof {
                assert(v@ =~= seq![s@[i as int]] + tail);
            }
            Some((v, j))
        },
        None => None,
    }
}

/// Parses the literal `null`.
pub open spec fn parse_null(s: Seq<char>, i: int) -> Option<int> {
    if 0 <= i && i + 4 <= s.len() && s[i] == 'n' && s[i + 1] == 'u' && s[i + 2] == 'l' && s[i + 3]
        == 'l' {
        Some(i + 4)
    } else {
        None
    }
}

/// Parses the literal `null` starting at `i`.
pub fn parse_null_x(s: &Vec<char>, i: usize) -> (r: Option<usize>)
    requires
        i <= s@.len(),
    ensures
        match r {
            Some(j) => parse_null(s@, i as int) == Some(j as int) && i < j <= s@.len(),
            None => parse_null(s@, i as int) is None,
        },
{
    if s.len() - i >= 4 && s[i] == 'n' && s[i + 1] == 'u' && s[i + 2] == 'l' && s[i + 3] == 'l' {
        Some(i + 4)
    } else {
        None
    }
}

// ---------------------------------------------------------------------
// Arrays of strings
// ---------------------------------------------------------------------

/// Parses the items of a non-empty string array, starting at the first
/// item's opening quote; yields the item texts and the index just past
/// the closing bracket.
pub open spec fn parse_array_items(s: Seq<char>, i: int) -> Option<(Seq<Seq<char>>, int)>
    decreases s.len() - i,
        via parse_array_items_decreases
{
    match parse_string(s, i) {
        None => None,
        Some(p) => {
            let k = skip_ws(s, p.1);
            if 0 <= k < s.len() && s[k] == ',' {
                let m = skip_ws(s, k + 1);
                match parse_array_items(s, m) {
                    Some(q) => Some((seq![p.0] + q.0, q.1)),
                    None => None,
                }
            } else if 0 <= k < s.len() && s[k] == ']' {
                Some((seq![p.0], k + 1))
            } else {
                None
            }
        },
    }
}

#[via_fn]
proof fn parse_array_items_decreases(s: Seq<char>, i: int) {
    match parse_string(s, i) {
        None => {},
        Some(p) => {
            lemma_parse_string_bounds(s, i);
            let k = skip_ws(s, p.1);
            lemma_skip_ws_bounds(s, p.1);
            if 0 <= k < s.len() && s[k] == ',' {
                lemma_skip_ws_bounds(s, k + 1);
            }
        },
    }
}

/// A successful item-list parse always advances and stays in bounds.
pub proof fn lemma_parse_array_items_bounds(s: Seq<char>, i: int)
    requires
        parse_array_items(s, i) is Some,
    ensures
        i < parse_array_items(s, i)->Some_0.1 <= s.len(),
    decreases s.len() - i,
{
    let p = parse_string(s, i)->Some_0;
    lemma_parse_string_bounds(s, i);
    let k = skip_ws(s, p.1);
    lemma_skip_ws_bounds(s, p.1);
    if 0 <= k < s.len() && s[k] == ',' {
        lemma_skip_ws_bounds(s, k + 1);
        lemma_parse_array_items_bounds(s, skip_ws(s, k + 1));
    }
}

/// Parses a whole string array, opening bracket at `i`.
pub open spec fn parse_string_array(s: Seq<char>, i: int) -> Option<(Seq<Seq<char>>, int)> {
    if 0 <= i < s.len() && s[i] == '[' {
        let j = skip_ws(s, i + 1);
        if 0 <= j < s.len() && s[j] == ']' {
            Some((Seq::<Seq<char>>::empty(), j + 1))
        } else {
            parse_array_items(s, j)
        }
    } else {
        None
    }
}

pub proof fn lemma_parse_string_array_bounds(s: Seq<char>, i: int)
    requires
        parse_string_array(s, i) is Some,
    ensures
        i < parse_string_array(s, i)->Some_0.1 <= s.len(),
{
    let j = skip_ws(s, i + 1);
    lemma_skip_ws_bounds(s, i + 1);
    if !(0 <= j < s.len() && s[j] == ']') {
        lemma_parse_array_items_bounds(s, j);
    }
}

fn parse_array_items_x(s: &Vec<char>, i: usize) -> (r: Option<(Vec<Vec<char>>, usize)>)
    requires
        i <= s@.len(),
    ensures
        match r {
            Some(p) => parse_array_items(s@, i as int) == Some((p.0.deep_view(), p.1 as int)) && i
                < p.1 <= s@.len(),
            None => parse_array_items(s@, i as int) is None,
        },
    decreases s@.len() - i,
{
    match parse_string_x(s, i) {
        None => None,
        Some(p) => {
            let (item, j) = p;
            let k = skip_ws_x(s, j);
            if k < s.len() && s[k] == ',' {
                let m = skip_ws_x(s, k + 1);
                match parse_array_items_x(s, m) {
                    Some(q) => {
                        let (mut items, e) = q;
                        let ghost tail = items.deep_view();
                        items.insert(0, item);
                        proof {
                            assert(items.deep_view() =~~= seq![item@] + tail);
                        }
                        Some((items, e))
                    },
                    None => None,
                }
            } else if k < s.len() && s[k] == ']' {
                let mut items: Vec<Vec<char>> = Vec::new();
                items.push(item);
                proof {
                    assert(items.deep_view() =~~= seq![item@]);
                }
                Some((items, k + 1))
            } else {
                None
            }
        },
    }
}

/// Parses a JSON array of strings whose opening bracket stands at `i`.
pub fn parse_string_array_x(s: &Vec<char>, i: usize) -> (r: Option<(Vec<Vec<char>>, usize)>)
    requires
        i <= s@.len(),
    ensures
        match r {
            Some(p) => parse_string_array(s@, i as int) == Some((p.0.deep_view(), p.1 as int))
                && i < p.1 <= s@.len(),
            None => parse_string_array(s@, i as int) is None,
        },
{
    if i < s.len() && s[i] == '[' {
        let j = skip_ws_x(s, i + 1);
        if j < s.len() && s[j] == ']' {
            let items: Vec<Vec<char>> = Vec::new();
            proof {
                assert(items.deep_view() =~~= Seq::<Seq<char>>::empty());
            }
            Some((items, j + 1))
        } else {
            parse_array_items_x(s, j)
        }
    } else {
        None
    }
}

/// Parses a JSON string whose opening quote stands at `i`.
pub fn parse_string_x(s: &Vec<char>, i: usize) -> (r: Option<(Vec<char>, usize)>)
    requires
        i <= s@.len(),
    ensures
        match r {
            Some(p) => parse_string(s@, i as int) == Some((p.0@, p.1 as int)) && i < p.1
                <= s@.len(),
            None => parse_string(s@, i as int) is None,
        },
{
    if i < s.len() && s[i] == '"' {
        parse_string_body_x(s, i + 1)
    } else {
        None
    }
}

// ---------------------------------------------------------------------
// Between characters and strings
// ---------------------------------------------------------------------

/// Relies on `String`'s `FromIterator` impl: collecting an iterator of
/// characters yields a string of exactly those characters, in order.
#[verifier::external_body]
pub fn chars_to_string(v: &Vec<char>) -> (r: String)
    ensures
        r@ == v@,
{
    v.iter().collect()
}

/// The characters of a string slice, as a vector.
pub fn str_chars(s: &str) -> (r: Vec<char>)
    ensures
        r@ == s@,
{
    let n = s.unicode_len();
    let mut v: Vec<char> = Vec::new();
    let mut k: usize = 0;
    while k < n
        invariant
            n == s@.len(),
            k <= n,
            v@ =~= s@.subrange(0, k as int),
        decreases n - k,
    {
        v.push(s.get_char(k));
        k = k + 1;
    }
    proof {
        assert(v@ =~= s@);
    }
    v
}

/// Compares a character vector against a string slice.
pub fn chars_eq_str(v: &Vec<char>, s: &str) -> (r: bool)
    ensures
        r == (v@ == s@),
{
    let n = s.unicode_len();
    if v.len() != n {
        proof {
            assert(v@.len() != s@.len());
        }
        return false;
    }
    let mut k: usize = 0;
    while k < n
        invariant
            n == s@.len(),
            v@.len() == n,
            k <= n,
            forall|j: int| 0 <= j < k ==> v@[j] == s@[j],
        decreases n - k,
    {
        if v[k] != s.get_char(k) {
            return false;
        }
        k = k + 1;
    }
    proof {
        assert(v@ =~= s@);
    }
    true
}

/// Appends the characters of a string slice to `out`.
pub fn push_str_chars(out: &mut Vec<char>, s: &str)
    ensures
        final(out)@ == old(out)@ + s@,
{
    let ghost start = out@;
    let n = s.unicode_len();
    let mut k: usize = 0;
    while k < n
        invariant
            n == s@.len(),
            k <= n,
            out@ == start + s@.subrange(0, k as int),
        decreases n - k,
    {
        out.push(s.get_char(k));
        proof {
            assert(start + s@.subrange(0, k as int) + seq![s@[k as int]] =~= start + s@.subrange(
                0,
                k + 1 as int,
            ));
        }
        k = k + 1;
    }
    proof {
        assert(start + s@.subrange(0, n as int) =~= start + s@);
    }
}

// ---------------------------------------------------------------------
// Encoding
// ---------------------------------------------------------------------

/// The lower-case hex digit for a value below 16.
pub open spec fn hex_digit_char(d: int) -> char {
    if d < 10 {
        (0x30 + d) as u8 as char
    } else {
        (0x61 + d - 10) as u8 as char
    }
}

/// How one character is written inside a JSON string.
pub open spec fn escape_char(c: char) -> Seq<char> {
    if c == '"' {
        seq!['\\', '"']
    } else if c == '\\' {
        seq!['\\', '\\']
    } else if c == '\n' {
        seq!['\\', 'n']
    } else if c == '\r' {
        seq!['\\', 'r']
    } else if c == '\t' {
        seq!['\\', 't']
    } else if c as u32 == 8 {
        seq!['\\', 'b']
    } else if c as u32 == 12 {
        seq!['\\', 'f']
    } else if is_control_char(c) {
        seq!['\\', 'u', '0', '0', hex_digit_char(c as u32 as int / 16), hex_digit_char(
            c as u32 as int % 16,
        )]
    } else {
        seq![c]
    }
}

/// How a whole text is written inside a JSON string.
pub open spec fn escape_string(s: Seq<char>) -> Seq<char>
    decreases s.len(),
{
    if s.len() == 0 {
        Seq::<char>::empty()
    } else {
        escape_char(s[0]) + escape_string(s.drop_first())
    }
}

/// A JSON string token: quotes around the escaped text.
pub open spec fn json_string(s: Seq<char>) -> Seq<char> {
    seq!['"'] + escape_string(s) + seq!['"']
}

/// The items of a string array, joined by commas.
pub open spec fn array_items_text(a: Seq<Seq<char>>) -> Seq<char>
    decreases a.len(),
{
    if a.len() == 0 {
        Seq::<char>::empty()
    } else if a.len() == 1 {
        json_string(a[0])
    } else {
        json_string(a[0]) + seq![','] + array_items_text(a.drop_first())
    }
}

/// A JSON array-of-strings token.
pub open spec fn json_string_array(a: Seq<Seq<char>>) -> Seq<char> {
    seq!['['] + array_items_text(a) + seq![']']
}

pub proof fn lemma_escape_string_concat(a: Seq<char>, b: Seq<char>)
    ensures
        escape_string(a + b) == escape_string(a) + escape_string(b),
    decreases a.len(),
{
    if a.len() == 0 {
        assert(a + b =~= b);
        assert(escape_string(a) + escape_string(b) =~= escape_string(b));
    } else {
        assert((a + b).drop_first() =~= a.drop_first() + b);
        lemma_escape_string_concat(a.drop_first(), b);
        assert(escape_char((a + b)[0]) + (escape_string(a.drop_first()) + escape_string(b))
            =~= (escape_char(a[0]) + escape_string(a.drop_first())) + escape_string(b));
    }
}

fn push_escaped(out: &mut Vec<char>, c: char)
    ensures
        final(out)@ == old(out)@ + escape_char(c),
{
    let ghost start = out@;
    if c == '"' {
        out.push('\\');
        out.push('"');
    } else if c == '\\' {
        out.push('\\');
        out.push('\\');
    } else if c == '\n' {
        out.push('\\');
        out.push('n');
    } else if c == '\r' {
        out.push('\\');
        out.push('r');
    } else if c == '\t' {
        out.push('\\');
        out.push('t');
    } else if c as u32 == 8 {
        out.push('\\');
        out.push('b');
    } else if c as u32 == 12 {
        out.push('\\');
        out.push('f');
    } else if (c as u32) < 0x20 {
        let u = c as u32;
        out.push('\\');
        out.push('u');
        out.push('0');
        out.push('0');
        let hi = u / 16;
        let lo = u % 16;
        out.push(if hi < 10 {
            ((0x30 + hi) as u8) as char
        } else {
            ((0x61 + hi - 10) as u8) as char
        });
        out.push(if lo < 10 {
            ((0x30 + lo) as u8) as char
        } else {
            ((0x61 + lo - 10) as u8) as char
        });
    } else {
        out.push(c);
    }
    proof {
        assert(out@ =~= start + escape_char(c));
    }
}

/// Appends the JSON string token for `s` to `out`.
pub fn write_json_string(out: &mut Vec<char>, s: &str)
    ensures
        final(out)@ == old(out)@ + json_string(s@),
{
    let ghost start = out@;
    out.push('"');
    let n = s.unicode_len();
    let mut k: usize = 0;
    while k < n
        invariant
            n == s@.len(),
            k <= n,
            out@ == start + seq!['"'] + escape_string(s@.subrange(0, k as int)),
        decreases n - k,
    {
        let c = s.get_char(k);
        push_escaped(out, c);
        proof {
            let x = s@[k as int];
            assert(s@.subrange(0, k + 1 as int) =~= s@.subrange(0, k as int) + seq![x]);
            lemma_escape_string_concat(s@.subrange(0, k as int), seq![x]);
            assert(seq![x].drop_first() =~= Seq::<char>::empty());
            assert(escape_string(seq![x]) =~= escape_char(x) + escape_string(Seq::<char>::empty()));
            assert(escape_string(seq![x]) =~= escape_char(x));
            assert(out@ =~= start + seq!['"'] + escape_string(s@.subrange(0, k + 1 as int)));
        }
        k = k + 1;
    }
    out.push('"');
    proof {
        assert(s@.subrange(0, n as int) =~= s@);
        assert(out@ =~= start + json_string(s@));
    }
}

/// Appends the JSON array token for the strings in `a` to `out`.
pub fn write_json_string_array(out: &mut Vec<char>, a: &Vec<String>)
    ensures
        final(out)@ == old(out)@ + json_string_array(a.deep_view()),
{
    let ghost start = out@;
    out.push('[');
    let n = a.len();
    let mut k: usize = 0;
    while k < n
        invariant
            n == a@.len(),
            k <= n,
            a.deep_view().len() == n,
            out@ == start + seq!['['] + comma_items_text(a.deep_view(), k as int),
        decreases n - k,
    {
        if k > 0 {
            out.push(',');
        }
        write_json_string(out, a[k].as_str());
        proof {
            lemma_comma_items_step(a.deep_view(), k as int);
            assert(out@ =~= start + seq!['['] + comma_items_text(a.deep_view(), k + 1 as int));
        }
        k = k + 1;
    }
    out.push(']');
    proof {
        lemma_comma_items_all(a.deep_view());
        assert(out@ =~= start + json_string_array(a.deep_view()));
    }
}

/// The text of the first `k` items of an array body, with the commas
/// that precede every item but the first.
pub open spec fn comma_items_text(a: Seq<Seq<char>>, k: int) -> Seq<char>
    decreases k,
{
    if k <= 0 {
        Seq::<char>::empty()
    } else if k == 1 {
        json_string(a[0])
    } else {
        comma_items_text(a, k - 1) + seq![','] + json_string(a[k - 1])
    }
}

proof fn lemma_comma_items_step(a: Seq<Seq<char>>, k: int)
    requires
        0 <= k < a.len(),
    ensures
        k == 0 ==> comma_items_text(a, k + 1) == comma_items_text(a, k) + json_string(a[k]),
        k > 0 ==> comma_items_text(a, k + 1) == comma_items_text(a, k) + seq![','] + json_string(
            a[k],
        ),
{
    if k == 0 {
        assert(comma_items_text(a, 1) =~= comma_items_text(a, 0) + json_string(a[0]));
    }
}

proof fn lemma_comma_items_all(a: Seq<Seq<char>>)
    ensures
        comma_items_text(a, a.len() as int) == array_items_text(a),
    decreases a.len(),
{
    if a.len() > 1 {
        lemma_comma_items_all(a.drop_first());
        lemma_comma_items_shift(a, a.len() as int);
        assert(json_string(a[0]) + seq![','] + array_items_text(a.drop_first())
            =~= json_string(a[0]) + (seq![','] + array_items_text(a.drop_first())));
    }
}

proof fn lemma_comma_items_shift(a: Seq<Seq<char>>, k: int)
    requires
        2 <= k <= a.len(),
    ensures
        comma_items_text(a, k) == json_string(a[0]) + (seq![','] + comma_items_text(
            a.drop_first(),
            k - 1,
        )),
    decreases k,
{
    if k == 2 {
        assert(a.drop_first()[0] == a[1]);
        assert(comma_items_text(a.drop_first(), 1) == json_string(a[1]));
        assert(comma_items_text(a, 2) == comma_items_text(a, 1) + seq![','] + json_string(a[1]));
        assert(comma_items_text(a, 2) =~= json_string(a[0]) + (seq![','] + comma_items_text(
            a.drop_first(),
            1,
        )));
    } else {
        lemma_comma_items_shift(a, k - 1);
        assert(a.drop_first()[k - 2] == a[k - 1]);
        assert(comma_items_text(a, k) =~= json_string(a[0]) + (seq![','] + comma_items_text(
            a.drop_first(),
            k - 1,
        )));
    }
}

// ---------------------------------------------------------------------
// The encoders and the parsers agree
// ---------------------------------------------------------------------

/// A character the encoder writes as itself.
pub open spec fn is_plain_char(c: char) -> bool {
    c != '"' && c != '\\' && !is_control_char(c)
}

/// A text the encoder writes as itself.
pub open spec fn is_plain_text(t: Seq<char>) -> bool {
    forall|j: int| 0 <= j < t.len() ==> is_plain_char(#[trigger] t[j])
}

/// Escaping leaves a plain text unchanged.
pub proof fn lemma_escape_plain(t: Seq<char>)
    requires
        is_plain_text(t),
    ensures
        escape_string(t) == t,
    decreases t.len(),
{
    if t.len() == 0 {
        assert(escape_string(t) =~= t);
    } else {
        assert(is_plain_char(t[0]));
        assert(escape_char(t[0]) =~= seq![t[0]]);
        assert(is_plain_text(t.drop_first())) by {
            assert(forall|j: int|
                0 <= j < t.drop_first().len() ==> #[trigger] t.drop_first()[j] == t[j + 1]);
        }
        lemma_escape_plain(t.drop_first());
        assert(escape_char(t[0]) + escape_string(t.drop_first()) =~= t);
    }
}

proof fn lemma_u8_char_round(c: char)
    requires
        (c as u32) < 0x100,
    ensures
        (((c as u32) as u8) as char) == c,
{
    let u = c as u32;
    let b = u as u8;
    let c2 = b as char;
    assert(c2 == c);
}

proof fn lemma_hex_digit_char(d: int)
    requires
        0 <= d < 16,
    ensures
        is_hex_char(hex_digit_char(d)),
        hex_val(hex_digit_char(d)) == d,
{
    if d < 10 {
        let b = (0x30 + d) as u8;
        assert(hex_digit_char(d) == b as char);
        assert(((b as char) as u32) == 0x30 + d);
    } else {
        let b = (0x61 + d - 10) as u8;
        assert(hex_digit_char(d) == b as char);
        assert(((b as char) as u32) == 0x61 + d - 10);
    }
}

/// The parser reads back exactly the text the escaper wrote: the
/// escaped content followed by a closing quote parses to the content.
pub proof fn lemma_parse_escaped(s: Seq<char>, i: int, content: Seq<char>)
    requires
        0 <= i,
        i + escape_string(content).len() + 1 <= s.len(),
        forall|j: int|
            0 <= j < escape_string(content).len() ==> s[i + j] == #[trigger] escape_string(
                content,
            )[j],
        s[i + escape_string(content).len()] == '"',
    ensures
        parse_string_body(s, i) == Some((content, i + escape_string(content).len() + 1)),
    decreases content.len(),
{
    if content.len() == 0 {
        assert(s[i] == '"');
        assert(content =~= Seq::<char>::empty());
    } else {
        let c = content[0];
        let e = escape_char(c);
        let rest = content.drop_first();
        let erest = escape_string(rest);
        assert(escape_string(content) == e + erest);
        let i2 = i + e.len();
        assert forall|j: int| 0 <= j < erest.len() implies s[i2 + j] == #[trigger] erest[j] by {
            assert((e + erest)[e.len() + j] == erest[j]);
            assert(s[i + (e.len() + j)] == escape_string(content)[e.len() + j]);
        }
        assert(s[i2 + erest.len()] == '"');
        lemma_parse_escaped(s, i2, rest);
        assert forall|j: int| 0 <= j < e.len() implies s[i + j] == #[trigger] e[j] by {
            assert((e + erest)[j] == e[j]);
        }
        if c == '"' || c == '\\' || c == '\n' || c == '\r' || c == '\t' || (c as u32) == 8 || (c
            as u32) == 12 {
            assert(e.len() == 2);
            assert(e[0] == '\\');
            assert(s[i + 0] == e[0]);
            let l = e[1];
            assert(s[i + 1] == l);
            assert(is_short_escape(l));
            if (c as u32) == 8 {
                assert(l == 'b');
                lemma_u8_char_round(c);
                assert((((c as u32) as u8) as char) == c);
                assert(((c as u32) as u8) == 8u8);
                assert(unescape_short(l) == c);
            } else if (c as u32) == 12 {
                assert(l == 'f');
                lemma_u8_char_round(c);
                assert((((c as u32) as u8) as char) == c);
                assert(((c as u32) as u8) == 12u8);
                assert(unescape_short(l) == c);
            } else {
                assert(unescape_short(l) == c);
            }
            assert(parse_string_body(s, i) is Some);
            assert(parse_string_body(s, i)->Some_0.0 =~= content);
            assert(parse_string_body(s, i)->Some_0.1 == i + escape_string(content).len() + 1);
        } else if is_control_char(c) {
            let cu = (c as u32) as int;
            vstd::arithmetic::div_mod::lemma_fundamental_div_mod(cu, 16);
            assert(e.len() == 6);
            assert(s[i] == '\\' && s[i + 1] == 'u' && s[i + 2] == '0' && s[i + 3] == '0');
            assert(s[i + 4] == hex_digit_char(cu / 16) && s[i + 5] == hex_digit_char(cu % 16));
            lemma_hex_digit_char(cu / 16);
            lemma_hex_digit_char(cu % 16);
            assert(('0' as u32) == 0x30);
            assert(is_hex_char('0') && hex_val('0') == 0);
            assert(!is_short_escape('u'));
            let code = hex_val(s[i + 2]) * 0x1000 + hex_val(s[i + 3]) * 0x100 + hex_val(s[i + 4])
                * 0x10 + hex_val(s[i + 5]);
            assert(code == cu);
            lemma_u8_char_round(c);
            assert((code as u8) == ((c as u32) as u8));
            assert(((code as u8) as char) == c);
            assert(parse_string_body(s, i) is Some);
            assert(parse_string_body(s, i)->Some_0.0 =~= content);
            assert(parse_string_body(s, i)->Some_0.1 == i + escape_string(content).len() + 1);
        } else {
            assert(e =~= seq![c]);
            assert(e[0] == c);
            assert(s[i + 0] == e[0]);
            assert(s[i] == c);
            assert(is_plain_char(c));
            assert(parse_string_body(s, i) is Some);
            assert(parse_string_body(s, i)->Some_0.0 =~= content);
            assert(parse_string_body(s, i)->Some_0.1 == i + escape_string(content).len() + 1);
        }
    }
}

/// A JSON string token parses back to the content it encodes,
/// wherever it stands in a larger text.
pub proof fn lemma_parse_json_string(s: Seq<char>, i: int, content: Seq<char>)
    requires
        0 <= i,
        i + json_string(content).len() <= s.len(),
        forall|j: int|
            0 <= j < json_string(content).len() ==> s[i + j] == #[trigger] json_string(content)[j],
    ensures
        parse_string(s, i) == Some((content, i + json_string(content).len())),
{
    let t = json_string(content);
    let esc = escape_string(content);
    assert(t.len() == esc.len() + 2);
    assert(t[0] == '"');
    assert(s[i] == '"');
    assert forall|j: int| 0 <= j < esc.len() implies s[i + 1 + j] == #[trigger] esc[j] by {
        assert(t[1 + j] == esc[j]);
        assert(s[i + (1 + j)] == t[1 + j]);
    }
    assert(t[1 + esc.len() as int] == '"');
    assert(s[i + 1 + esc.len()] == '"');
    lemma_parse_escaped(s, i + 1, content);
}

/// The items of an array token parse back to the item list.
proof fn lemma_parse_array_items_canonical(s: Seq<char>, i: int, items: Seq<Seq<char>>)
    requires
        items.len() >= 1,
        0 <= i,
        i + array_items_text(items).len() + 1 <= s.len(),
        forall|j: int|
            0 <= j < array_items_text(items).len() ==> s[i + j] == #[trigger] array_items_text(
                items,
            )[j],
        s[i + array_items_text(items).len()] == ']',
    ensures
        parse_array_items(s, i) == Some((items, i + array_items_text(items).len() + 1)),
    decreases items.len(),
{
    let t = array_items_text(items);
    let jt = json_string(items[0]);
    if items.len() == 1 {
        assert(t == jt);
        lemma_parse_json_string(s, i, items[0]);
        let k = i + jt.len();
        assert(s[k] == ']');
        assert(!is_ws_char(']'));
        assert(skip_ws(s, k) == k);
        assert(parse_array_items(s, i) is Some);
        assert(parse_array_items(s, i)->Some_0.0 =~= items);
        assert(parse_array_items(s, i)->Some_0.1 == i + t.len() + 1);
    } else {
        let rest = items.drop_first();
        let rt = array_items_text(rest);
        assert(t == jt + seq![','] + rt);
        assert forall|j: int| 0 <= j < jt.len() implies s[i + j] == #[trigger] jt[j] by {
            assert(t[j] == (jt + seq![','])[j]);
        }
        lemma_parse_json_string(s, i, items[0]);
        let k = i + jt.len();
        assert(t[jt.len() as int] == ',');
        assert(s[k] == ',');
        assert(!is_ws_char(','));
        assert(skip_ws(s, k) == k);
        assert(rt.len() >= 1);
        assert(rt == if rest.len() == 1 {
            json_string(rest[0])
        } else {
            json_string(rest[0]) + seq![','] + array_items_text(rest.drop_first())
        });
        assert(rt[0] == '"');
        assert forall|j: int| 0 <= j < rt.len() implies s[k + 1 + j] == #[trigger] rt[j] by {
            assert(t[jt.len() + 1 + j] == rt[j]);
            assert(s[i + (jt.len() + 1 + j)] == t[jt.len() + 1 + j]);
        }
        assert(s[k + 1] == rt[0]);
        assert(!is_ws_char('"'));
        assert(skip_ws(s, k + 1) == k + 1);
        assert(s[k + 1 + rt.len()] == ']');
        lemma_parse_array_items_canonical(s, k + 1, rest);
        assert(parse_array_items(s, i) is Some);
        assert(parse_array_items(s, i)->Some_0.0 =~= items);
        assert(parse_array_items(s, i)->Some_0.1 == i + t.len() + 1);
    }
}

/// A JSON array token parses back to the item list it encodes,
/// wherever it stands in a larger text.
pub proof fn lemma_parse_json_string_array(s: Seq<char>, i: int, items: Seq<Seq<char>>)
    requires
        0 <= i,
        i + json_string_array(items).len() <= s.len(),
        forall|j: int|
            0 <= j < json_string_array(items).len() ==> s[i + j] == #[trigger] json_string_array(
                items,
            )[j],
    ensures
        parse_string_array(s, i) == Some((items, i + json_string_array(items).len())),
{
    let t = json_string_array(items);
    let body = array_items_text(items);
    assert(t[0] == '[');
    assert(s[i] == '[');
    if items.len() == 0 {
        assert(body =~= Seq::<char>::empty());
        assert(t =~= seq!['[', ']']);
        assert(s[i + 1] == ']');
        assert(!is_ws_char(']'));
        assert(skip_ws(s, i + 1) == i + 1);
        assert(parse_string_array(s, i) is Some);
        assert(parse_string_array(s, i)->Some_0.0 =~= items);
        assert(parse_string_array(s, i)->Some_0.1 == i + t.len());
    } else {
        assert forall|j: int| 0 <= j < body.len() implies s[i + 1 + j] == #[trigger] body[j] by {
            assert(t[1 + j] == body[j]);
            assert(s[i + (1 + j)] == t[1 + j]);
        }
        assert(body[0] == '"') by {
            assert(body == if items.len() == 1 {
                json_string(items[0])
            } else {
                json_string(items[0]) + seq![','] + array_items_text(items.drop_first())
            });
        }
        assert(s[i + 1] == body[0]);
        assert(!is_ws_char('"'));
        assert(skip_ws(s, i + 1) == i + 1);
        assert(t[1 + body.len() as int] == ']');
        assert(s[i + 1 + body.len()] == ']');
        lemma_parse_array_items_canonical(s, i + 1, items);
        assert(parse_string_array(s, i) is Some);
        assert(parse_string_array(s, i)->Some_0.0 =~= items);
        assert(parse_string_array(s, i)->Some_0.1 == i + t.len());
    }
}

} // verus!
