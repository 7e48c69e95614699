//! The byte-level protocol: names as clients submit them, the payload of a
//! chat line, and the two-line frames the server writes.

use vstd::prelude::*;
use vstd::string::StringSliceAdditionalSpecFns;

verus! {

/// Names longer than this many bytes are cut down to it.
pub const MAX_NAME_BYTES: usize = 32;

/// The name under which the server itself speaks; no client may take it.
pub open spec fn server_name() -> Seq<u8> {
    "server".spec_bytes()
}

/// Appends `src` to the end of `out`.
pub fn append_bytes(out: &mut Vec<u8>, src: &[u8])
    ensures
        final(out)@ == old(out)@ + src@,
{
    let mut i: usize = 0;
    while i < src.len()
        invariant
            i <= src@.len(),
            out@ == old(out)@ + src@.subrange(0, i as int),
        decreases src@.len() - i,
    {
        out.push(src[i]);
        i = i + 1;
        assert(src@.subrange(0, i as int) =~= src@.subrange(0, i - 1) + seq![src@[i - 1]]);
    }
    assert(src@.subrange(0, src@.len() as int) =~= src@);
}

/// A fresh vector holding the bytes of `src`.
pub fn to_bytes(src: &[u8]) -> (r: Vec<u8>)
    ensures
        r@ == src@,
{
    let mut r: Vec<u8> = Vec::new();
    append_bytes(&mut r, src);
    assert(r@ =~= src@);
    r
}

/// The name bytes `server`.
pub fn server_name_bytes() -> (r: Vec<u8>)
    ensures
        r@ == server_name(),
{
    to_bytes("server".as_bytes())
}

/// Whether `s` and `t` hold the same bytes.
pub fn bytes_eq(s: &[u8], t: &[u8]) -> (r: bool)
    ensures
        r == (s@ == t@),
{
    if s.len() != t.len() {
        return false;
    }
    let mut i: usize = 0;
    while i < s.len()
        invariant
            s@.len() == t@.len(),
            i <= s@.len(),
            forall|j: int| 0 <= j < i ==> s@[j] == t@[j],
        decreases s@.len() - i,
    {
        if s[i] != t[i] {
            return false;
        }
        i = i + 1;
    }
    assert(s@ =~= t@);
    true
}

/// Whether the byte is an ASCII character that `char::is_whitespace` accepts:
/// tab, line feed, vertical tab, form feed, carriage return or space.
pub open spec fn is_ascii_ws(b: u8) -> bool {
    (9 <= b && b <= 13) || b == 32
}

/// The length of the UTF-8 encoding of a whitespace character with which `s`
/// ends, or 0 where it ends with none. The multi-byte ones are U+0085,
/// U+00A0, U+1680, U+2000 to U+200A, U+2028, U+2029, U+202F, U+205F and U+3000.
pub open spec fn ws_tail(s: Seq<u8>) -> nat {
    let n = s.len();
    if n >= 1 && is_ascii_ws(s[n - 1]) {
        1
    } else if n >= 2 && s[n - 2] == 0xC2 && (s[n - 1] == 0x85 || s[n - 1] == 0xA0) {
        2
    } else if n >= 3 && (
        (s[n - 3] == 0xE1 && s[n - 2] == 0x9A && s[n - 1] == 0x80)
        || (s[n - 3] == 0xE2 && s[n - 2] == 0x80 && (
            (0x80 <= s[n - 1] && s[n - 1] <= 0x8A)
            || s[n - 1] == 0xA8 || s[n - 1] == 0xA9 || s[n - 1] == 0xAF))
        || (s[n - 3] == 0xE2 && s[n - 2] == 0x81 && s[n - 1] == 0x9F)
        || (s[n - 3] == 0xE3 && s[n - 2] == 0x80 && s[n - 1] == 0x80)) {
        3
    } else {
        0
    }
}

/// `s` without the whitespace characters at its end.
pub open spec fn trim_end(s: Seq<u8>) -> Seq<u8>
    decreases s.len(),
{
    let k = ws_tail(s);
    if k == 0 || k > s.len() {
        s
    } else {
        trim_end(s.take(s.len() - k))
    }
}

/// A submitted name line as the registry and every message see it: cut to
/// its first `MAX_NAME_BYTES` bytes, then stripped of trailing whitespace
/// (the line's own terminator included).
pub open spec fn normalized_name(raw: Seq<u8>) -> Seq<u8> {
    if raw.len() <= MAX_NAME_BYTES {
        trim_end(raw)
    } else {
        trim_end(raw.take(MAX_NAME_BYTES as int))
    }
}

/// Computes `ws_tail` of the first `end` bytes of `s`.
fn ws_tail_len(s: &[u8], end: usize) -> (k: usize)
    requires
        end <= s@.len(),
    ensures
        k == ws_tail(s@.take(end as int)),
        k <= end,
{
    let ghost t = s@.take(end as int);
    if end >= 1 && ((9 <= s[end - 1] && s[end - 1] <= 13) || s[end - 1] == 32) {
        return 1;
    }
    if end >= 2 && s[end - 2] == 0xC2 && (s[end - 1] == 0x85 || s[end - 1] == 0xA0) {
        return 2;
    }
    if end >= 3 {
        let a = s[end - 3];
        let b = s[end - 2];
        let c = s[end - 1];
        if (a == 0xE1 && b == 0x9A && c == 0x80)
            || (a == 0xE2 && b == 0x80 && ((0x80 <= c && c <= 0x8A) || c == 0xA8 || c == 0xA9 || c == 0xAF))
            || (a == 0xE2 && b == 0x81 && c == 0x9F)
            || (a == 0xE3 && b == 0x80 && c == 0x80) {
            return 3;
        }
    }
    0
}

/// Normalizes the first line a client sends into the name it asks for.
pub fn normalize_name(raw: &[u8]) -> (r: Vec<u8>)
    ensures
        r@ == normalized_name(raw@),
        r@.len() <= MAX_NAME_BYTES,
{
    let mut end: usize = if raw.len() <= MAX_NAME_BYTES { raw.len() } else { MAX_NAME_BYTES };
    assert(raw@.take(raw@.len() as int) =~= raw@);
    loop
        invariant
            end <= raw@.len(),
            end <= MAX_NAME_BYTES,
            trim_end(raw@.take(end as int)) == normalized_name(raw@),
        ensures
            raw@.take(end as int) == normalized_name(raw@),
        decreases end,
    {
        let k = ws_tail_len(raw, end);
        if k == 0 {
            break;
        }
        proof {
            assert(raw@.take(end as int).take(end - k) =~= raw@.take(end - k));
        }
        end = end - k;
    }
    let mut r: Vec<u8> = Vec::new();
    let mut i: usize = 0;
    while i < end
        invariant
            end <= raw@.len(),
            i <= end,
            r@ == raw@.take(i as int),
        decreases end - i,
    {
        r.push(raw[i]);
        i = i + 1;
        assert(r@ =~= raw@.take(i as int));
    }
    r
}

/// A chat line as it is relayed: the line without its `\n` terminator, and
/// without a `\r` just before that `\n`.
pub open spec fn line_payload(raw: Seq<u8>) -> Seq<u8> {
    let n = raw.len();
    if n >= 2 && raw[n - 1] == 10 && raw[n - 2] == 13 {
        raw.take(n - 2)
    } else if n >= 1 && raw[n - 1] == 10 {
        raw.take(n - 1)
    } else {
        raw
    }
}

/// Strips the line terminator from a chat line.
pub fn strip_line_end(raw: &[u8]) -> (r: Vec<u8>)
    ensures
        r@ == line_payload(raw@),
{
    let n = raw.len();
    let end: usize = if n >= 2 && raw[n - 1] == 10 && raw[n - 2] == 13 {
        n - 2
    } else if n >= 1 && raw[n - 1] == 10 {
        n - 1
    } else {
        n
    };
    let mut r: Vec<u8> = Vec::new();
    let mut i: usize = 0;
    while i < end
        invariant
            end <= raw@.len(),
            i <= end,
            r@ == raw@.take(i as int),
        decreases end - i,
    {
        r.push(raw[i]);
        i = i + 1;
        assert(r@ =~= raw@.take(i as int));
    }
    assert(raw@.take(n as int) =~= raw@);
    r
}

/// One message on the wire: the originator's name on the first line, the
/// body on the second.
pub open spec fn frame(origin: Seq<u8>, body: Seq<u8>) -> Seq<u8> {
    origin + seq![10u8] + body + seq![10u8]
}

/// `Welcome {name}!`
pub open spec fn welcome_body(name: Seq<u8>) -> Seq<u8> {
    "Welcome ".spec_bytes() + name + "!".spec_bytes()
}

/// `{name} has entered`
pub open spec fn entered_body(name: Seq<u8>) -> Seq<u8> {
    name + " has entered".spec_bytes()
}

/// `{name} has left`
pub open spec fn left_body(name: Seq<u8>) -> Seq<u8> {
    name + " has left".spec_bytes()
}

/// `{name} is already taken`
pub open spec fn taken_body(name: Seq<u8>) -> Seq<u8> {
    name + " is already taken".spec_bytes()
}

/// `no users in chat`
pub open spec fn no_users_body() -> Seq<u8> {
    "no users in chat".spec_bytes()
}

/// The names joined by `, `, in order.
pub open spec fn join_names(names: Seq<Seq<u8>>) -> Seq<u8>
    decreases names.len(),
{
    if names.len() == 0 {
        Seq::empty()
    } else if names.len() == 1 {
        names[0]
    } else {
        join_names(names.drop_last()) + ", ".spec_bytes() + names.last()
    }
}

/// `users in chat: {names joined by ", "}`
pub open spec fn users_body(names: Seq<Seq<u8>>) -> Seq<u8> {
    "users in chat: ".spec_bytes() + join_names(names)
}

/// Builds a frame from an originator and a body.
pub fn make_frame(origin: &[u8], body: &[u8]) -> (r: Vec<u8>)
    ensures
        r@ == frame(origin@, body@),
{
    let mut r: Vec<u8> = Vec::new();
    append_bytes(&mut r, origin);
    r.push(10u8);
    append_bytes(&mut r, body);
    r.push(10u8);
    assert(r@ =~= frame(origin@, body@));
    r
}

/// A notice from the server with the given body.
pub fn server_notice(body: &[u8]) -> (r: Vec<u8>)
    ensures
        r@ == frame(server_name(), body@),
{
    make_frame("server".as_bytes(), body)
}

/// The body `Welcome {name}!`.
pub fn welcome_text(name: &[u8]) -> (r: Vec<u8>)
    ensures
        r@ == welcome_body(name@),
{
    let mut r = to_bytes("Welcome ".as_bytes());
    append_bytes(&mut r, name);
    append_bytes(&mut r, "!".as_bytes());
    r
}

/// The body `{name} has entered`.
pub fn entered_text(name: &[u8]) -> (r: Vec<u8>)
    ensures
        r@ == entered_body(name@),
{
    let mut r = to_bytes(name);
    append_bytes(&mut r, " has entered".as_bytes());
    r
}

/// The body `{name} has left`.
pub fn left_text(name: &[u8]) -> (r: Vec<u8>)
    ensures
        r@ == left_body(name@),
{
    let mut r = to_bytes(name);
    append_bytes(&mut r, " has left".as_bytes());
    r
}

/// The body `{name} is already taken`.
pub fn taken_text(name: &[u8]) -> (r: Vec<u8>)
    ensures
        r@ == taken_body(name@),
{
    let mut r = to_bytes(name);
    append_bytes(&mut r, " is already taken".as_bytes());
    r
}

/// The body `no users in chat`.
pub fn no_users_text() -> (r: Vec<u8>)
    ensures
        r@ == no_users_body(),
{
    to_bytes("no users in chat".as_bytes())
}

} // verus!
