//! The envelope codec: one envelope to one line of text and back. The line
//! is the JSON object `{"typ": <string>, "data": [<string>...], "serial":
//! <integer>}`, members in that order, with optional whitespace between
//! tokens. Encoding is total; decoding fails exactly on lines that do not
//! have this shape.

use crate::escape::escape_str;
use crate::escape::is_plain;
use crate::escape::parse_string_body;
use crate::escape::parse_string_body_exec;
use crate::escape::push_escaped;
use crate::event::EditorEvent;
use crate::event::EventModel;
use crate::event::tag_name_spec;
use crate::event::tag_of_name_spec;
use crate::numbers::int_dec_of;
use crate::numbers::parse_number;
use crate::numbers::parse_number_exec;
use crate::numbers::push_i64_dec;
use vstd::prelude::*;
use vstd::string::StringExecFns;

verus! {

broadcast use Seq::<_>::add_empty_left, Seq::<_>::add_empty_right, Seq::<
    _,
>::push_distributes_over_add;

/// Failure of the decoder: the line is not a well-formed envelope of the
/// expected shape. Treated as a fatal protocol violation by the caller.
#[derive(Clone, Copy, Debug, PartialEq, Eq)]
pub struct ProtocolDecodeError;

/// JSON whitespace.
pub open spec fn is_ws(c: char) -> bool {
    c == ' ' || c == '\t' || c == '\n' || c == '\r'
}

/// `s` without its leading whitespace.
pub open spec fn drop_ws(s: Seq<char>) -> Seq<char>
    decreases s.len(),
{
    if s.len() > 0 && is_ws(s[0]) {
        drop_ws(s.drop_first())
    } else {
        s
    }
}

/// Consumes optional whitespace and then the character `c`.
pub open spec fn expect_char(s: Seq<char>, c: char) -> Option<Seq<char>> {
    let t = drop_ws(s);
    if t.len() > 0 && t[0] == c {
        Some(t.drop_first())
    } else {
        None
    }
}

/// Consumes optional whitespace and a JSON string literal.
pub open spec fn parse_json_string(s: Seq<char>) -> Option<(Seq<char>, Seq<char>)> {
    match expect_char(s, '"') {
        Some(t) => parse_string_body(t),
        None => None,
    }
}

/// Consumes an object member key spelling `name`, with its colon.
pub open spec fn parse_key(s: Seq<char>, name: Seq<char>) -> Option<Seq<char>> {
    match parse_json_string(s) {
        Some(p) => if p.0 == name {
            expect_char(p.1, ':')
        } else {
            None
        },
        None => None,
    }
}

/// After one array element: either the closing bracket, or a comma and a
/// further string element, repeatedly.
pub open spec fn parse_items_rest(s: Seq<char>) -> Option<(Seq<Seq<char>>, Seq<char>)>
    decreases s.len(),
{
    match expect_char(s, ']') {
        Some(t) => Some((Seq::empty(), t)),
        None => match expect_char(s, ',') {
            Some(t) => match parse_json_string(t) {
                Some(p) => if p.1.len() < s.len() {
                    match parse_items_rest(p.1) {
                        Some(q) => Some((seq![p.0] + q.0, q.1)),
                        None => None,
                    }
                } else {
                    None
                },
                None => None,
            },
            None => None,
        },
    }
}

/// A JSON array of strings.
pub open spec fn parse_array(s: Seq<char>) -> Option<(Seq<Seq<char>>, Seq<char>)> {
    match expect_char(s, '[') {
        Some(t) => match expect_char(t, ']') {
            Some(r) => Some((Seq::empty(), r)),
            None => match parse_json_string(t) {
                Some(p) => match parse_items_rest(p.1) {
                    Some(q) => Some((seq![p.0] + q.0, q.1)),
                    None => None,
                },
                None => None,
            },
        },
        None => None,
    }
}

/// What a line of text denotes: the envelope, when the line is a JSON
/// object with exactly the members `typ` (a string), `data` (an array of
/// strings) and `serial` (a 64-bit signed integer), in that order, and
/// nothing but whitespace after it. The tag string is looked up in the
/// closed set; an unrecognized one still decodes, as `Unknown`.
pub open spec fn decode_spec(s: Seq<char>) -> Option<EventModel> {
    match expect_char(s, '{') {
        None => None,
        Some(s1) => match parse_key(s1, seq!['t', 'y', 'p']) {
            None => None,
            Some(s2) => match parse_json_string(s2) {
                None => None,
                Some(name_p) => match expect_char(name_p.1, ',') {
                    None => None,
                    Some(s4) => match parse_key(s4, seq!['d', 'a', 't', 'a']) {
                        None => None,
                        Some(s5) => match parse_array(s5) {
                            None => None,
                            Some(items_p) => match expect_char(items_p.1, ',') {
                                None => None,
                                Some(s7) => match parse_key(
                                    s7,
                                    seq!['s', 'e', 'r', 'i', 'a', 'l'],
                                ) {
                                    None => None,
                                    Some(s8) => match parse_number(drop_ws(s8)) {
                                        None => None,
                                        Some(num_p) => match expect_char(num_p.1, '}') {
                                            None => None,
                                            Some(s10) => if drop_ws(s10).len() == 0 {
                                                Some(
                                                    EventModel {
                                                        typ: tag_of_name_spec(name_p.0),
                                                        data: items_p.0,
                                                        serial: num_p.0,
                                                    },
                                                )
                                            } else {
                                                None
                                            },
                                        },
                                    },
                                },
                            },
                        },
                    },
                },
            },
        },
    }
}

/// The wire form of one string, quotes included.
pub open spec fn json_string_of(x: Seq<char>) -> Seq<char> {
    seq!['"'] + escape_str(x) + seq!['"']
}

/// The second and later array elements, each with its leading comma.
pub open spec fn encode_items_tail(data: Seq<Seq<char>>) -> Seq<char>
    decreases data.len(),
{
    if data.len() == 0 {
        Seq::empty()
    } else {
        seq![','] + json_string_of(data[0]) + encode_items_tail(data.drop_first())
    }
}

/// The array elements, comma separated.
pub open spec fn encode_items(data: Seq<Seq<char>>) -> Seq<char> {
    if data.len() == 0 {
        Seq::empty()
    } else {
        json_string_of(data[0]) + encode_items_tail(data.drop_first())
    }
}

/// The canonical line for a tag name, payload and serial: no whitespace,
/// members in the fixed order.
pub open spec fn encode_parts(name: Seq<char>, data: Seq<Seq<char>>, serial: int) -> Seq<char> {
    seq!['{', '"', 't', 'y', 'p', '"', ':'] + json_string_of(name) + seq![
        ',',
        '"',
        'd',
        'a',
        't',
        'a',
        '"',
        ':',
        '[',
    ] + encode_items(data) + seq![']', ',', '"', 's', 'e', 'r', 'i', 'a', 'l', '"', ':']
        + int_dec_of(serial) + seq!['}']
}

/// The canonical line for an envelope.
pub open spec fn encode_spec(e: EventModel) -> Seq<char> {
    encode_parts(tag_name_spec(e.typ), e.data, e.serial)
}

/// One more element extends the comma-joined tail by one group.
proof fn lemma_encode_items_tail_snoc(data: Seq<Seq<char>>, x: Seq<char>)
    ensures
        encode_items_tail(data.push(x)) == encode_items_tail(data) + seq![','] + json_string_of(x),
    decreases data.len(),
{
    if data.len() == 0 {
        assert(data.push(x).drop_first() =~= Seq::<Seq<char>>::empty());
        assert(data.push(x)[0] == x);
        assert(encode_items_tail(data.push(x)) == seq![','] + json_string_of(x)
            + encode_items_tail(Seq::<Seq<char>>::empty()));
        assert(encode_items_tail(data.push(x)) =~= encode_items_tail(data) + seq![',']
            + json_string_of(x));
    } else {
        assert(data.push(x).drop_first() =~= data.drop_first().push(x));
        lemma_encode_items_tail_snoc(data.drop_first(), x);
        assert(data.push(x)[0] == data[0]);
        assert(encode_items_tail(data.push(x)) =~= encode_items_tail(data) + seq![',']
            + json_string_of(x));
    }
}

/// One more element extends the joined elements by a comma group, or by a
/// bare first element.
proof fn lemma_encode_items_snoc(data: Seq<Seq<char>>, k: int)
    requires
        0 <= k < data.len(),
    ensures
        encode_items(data.take(k + 1)) == if k == 0 {
            json_string_of(data[0])
        } else {
            encode_items(data.take(k)) + seq![','] + json_string_of(data[k])
        },
{
    if k == 0 {
        assert(data.take(1).drop_first() =~= Seq::<Seq<char>>::empty());
        assert(encode_items(data.take(1)) =~= json_string_of(data[0]));
    } else {
        assert(data.take(k + 1).drop_first() =~= data.take(k).drop_first().push(data[k]));
        lemma_encode_items_tail_snoc(data.take(k).drop_first(), data[k]);
        assert(data.take(k + 1)[0] == data[0]);
        assert(encode_items(data.take(k + 1)) =~= encode_items(data.take(k)) + seq![',']
            + json_string_of(data[k]));
    }
}

/// Appends the wire form of one string, quotes included, to `out`.
fn push_json_string(out: &mut String, s: &str)
    ensures
        final(out)@ == old(out)@ + json_string_of(s@),
{
    out.push('"');
    push_escaped(out, s);
    out.push('"');
    proof {
        assert(final(out)@ =~= old(out)@ + json_string_of(s@));
    }
}

/// Builds the canonical line for a tag name, payload and serial.
#[verifier::loop_isolation(false)]
pub fn encode_parts_exec(name: &str, data: &Vec<String>, serial: i64) -> (r: String)
    ensures
        r@ == encode_parts(name@, data.deep_view(), serial as int),
{
    let mut out = String::new();
    out.append("{\"typ\":");
    proof {
        reveal_strlit("{\"typ\":");
        assert(out@ =~= seq!['{', '"', 't', 'y', 'p', '"', ':']);
    }
    push_json_string(&mut out, name);
    out.append(",\"data\":[");
    proof {
        reveal_strlit(",\"data\":[");
        assert(out@ =~= seq!['{', '"', 't', 'y', 'p', '"', ':'] + json_string_of(name@) + seq![
            ',',
            '"',
            'd',
            'a',
            't',
            'a',
            '"',
            ':',
            '[',
        ]);
    }
    let ghost head = out@;
    let mut k: usize = 0;
    while k < data.len()
        invariant
            k <= data.len(),
            out@ == head + encode_items(data.deep_view().take(k as int)),
        decreases data.len() - k,
    {
        if k > 0 {
            out.push(',');
        }
        push_json_string(&mut out, data[k].as_str());
        proof {
            lemma_encode_items_snoc(data.deep_view(), k as int);
            assert(data.deep_view()[k as int] == data[k as int]@);
            assert(out@ =~= head + encode_items(data.deep_view().take(k as int + 1)));
        }
        k = k + 1;
    }
    proof {
        assert(data.deep_view().take(data.len() as int) =~= data.deep_view());
    }
    out.append("],\"serial\":");
    proof {
        reveal_strlit("],\"serial\":");
        assert(out@ =~= head + encode_items(data.deep_view()) + seq![
            ']',
            ',',
            '"',
            's',
            'e',
            'r',
            'i',
            'a',
            'l',
            '"',
            ':',
        ]);
    }
    push_i64_dec(&mut out, serial);
    out.push('}');
    proof {
        assert(out@ =~= encode_parts(name@, data.deep_view(), serial as int));
    }
    out
}

/// Encodes an envelope to its canonical line.
pub fn encode_event(e: &EditorEvent) -> (r: String)
    ensures
        r@ == encode_spec(e@),
{
    let name = crate::event::tag_name(&e.typ);
    encode_parts_exec(name, &e.data, e.serial)
}

impl EditorEvent {
    /// The wire line of this envelope: the compute half of emitting it,
    /// with the write to the stream left to the caller.
    pub fn to_json(&self) -> (r: String)
        ensures
            r@ == encode_spec(self@),
    {
        encode_event(self)
    }
}

/// JSON whitespace, executably.
fn is_ws_exec(c: char) -> (r: bool)
    ensures
        r == is_ws(c),
{
    c == ' ' || c == '\t' || c == '\n' || c == '\r'
}

/// The index of the first non-whitespace character at or after `i`.
#[verifier::loop_isolation(false)]
fn skip_ws_exec(v: &Vec<char>, i: usize) -> (j: usize)
    requires
        i <= v.len(),
    ensures
        i <= j <= v.len(),
        drop_ws(v@.skip(i as int)) == v@.skip(j as int),
{
    let mut j = i;
    while j < v.len() && is_ws_exec(v[j])
        invariant
            i <= j <= v.len(),
            drop_ws(v@.skip(i as int)) == drop_ws(v@.skip(j as int)),
        decreases v.len() - j,
    {
        proof {
            assert(v@.skip(j as int)[0] == v@[j as int]);
            assert(v@.skip(j as int).drop_first() =~= v@.skip(j as int + 1));
        }
        j = j + 1;
    }
    proof {
        if j < v.len() {
            assert(v@.skip(j as int)[0] == v@[j as int]);
        }
        assert(drop_ws(v@.skip(j as int)) == v@.skip(j as int));
    }
    j
}

/// Consumes optional whitespace and the character `c`, beginning at index
/// `i`, following `expect_char` on the remaining characters.
fn expect_char_exec(v: &Vec<char>, i: usize, c: char) -> (r: Option<usize>)
    requires
        i <= v.len(),
    ensures
        match r {
            Some(j) => expect_char(v@.skip(i as int), c) == Some(v@.skip(j as int)) && i < j
                <= v.len(),
            None => expect_char(v@.skip(i as int), c) is None,
        },
{
    let j = skip_ws_exec(v, i);
    if j < v.len() && v[j] == c {
        proof {
            assert(v@.skip(j as int)[0] == v@[j as int]);
            assert(v@.skip(j as int).drop_first() =~= v@.skip(j as int + 1));
        }
        Some(j + 1)
    } else {
        proof {
            if j < v.len() {
                assert(v@.skip(j as int)[0] == v@[j as int]);
            }
        }
        None
    }
}

/// Consumes optional whitespace and a JSON string literal, beginning at
/// index `i`, following `parse_json_string` on the remaining characters.
fn parse_json_string_exec(v: &Vec<char>, i: usize) -> (r: Option<(Vec<char>, usize)>)
    requires
        i <= v.len(),
    ensures
        match r {
            Some(p) => {
                &&& parse_json_string(v@.skip(i as int)) == Some((p.0@, v@.skip(p.1 as int)))
                &&& i < p.1 <= v.len()
            },
            None => parse_json_string(v@.skip(i as int)) is None,
        },
{
    match expect_char_exec(v, i, '"') {
        Some(j) => parse_string_body_exec(v, j),
        None => None,
    }
}

/// Consumes an object member key spelling `name`, with its colon,
/// beginning at index `i`, following `parse_key`.
fn parse_key_exec(v: &Vec<char>, i: usize, name: &str) -> (r: Option<usize>)
    requires
        i <= v.len(),
    ensures
        match r {
            Some(j) => parse_key(v@.skip(i as int), name@) == Some(v@.skip(j as int)) && i < j
                <= v.len(),
            None => parse_key(v@.skip(i as int), name@) is None,
        },
{
    match parse_json_string_exec(v, i) {
        Some((k, j)) => {
            if crate::chars::chars_eq_str(&k, name) {
                expect_char_exec(v, j, ':')
            } else {
                None
            }
        },
        None => None,
    }
}

/// Consumes a JSON array of strings, beginning at index `i`, following
/// `parse_array`.
#[verifier::loop_isolation(false)]
fn parse_array_exec(v: &Vec<char>, i: usize) -> (r: Option<(Vec<String>, usize)>)
    requires
        i <= v.len(),
    ensures
        match r {
            Some(p) => {
                &&& parse_array(v@.skip(i as int)) == Some((p.0.deep_view(), v@.skip(p.1 as int)))
                &&& i < p.1 <= v.len()
            },
            None => parse_array(v@.skip(i as int)) is None,
        },
{
    let j = match expect_char_exec(v, i, '[') {
        Some(j) => j,
        None => {
            return None;
        },
    };
    match expect_char_exec(v, j, ']') {
        Some(j2) => {
            let items: Vec<String> = Vec::new();
            proof {
                assert(items.deep_view() =~= Seq::<Seq<char>>::empty());
            }
            return Some((items, j2));
        },
        None => {},
    }
    let (x0, mut jj) = match parse_json_string_exec(v, j) {
        Some(p) => p,
        None => {
            return None;
        },
    };
    let mut items: Vec<String> = Vec::new();
    items.push(crate::chars::chars_to_string(&x0));
    proof {
        assert(items.deep_view() =~= seq![x0@]);
    }
    loop
        invariant
            i < jj <= v.len(),
            items.deep_view().len() >= 1,
            (match parse_items_rest(v@.skip(jj as int)) {
                Some(p) => parse_array(v@.skip(i as int)) == Some(
                    (items.deep_view() + p.0, p.1),
                ),
                None => parse_array(v@.skip(i as int)) is None,
            }),
        decreases v.len() - jj,
    {
        match expect_char_exec(v, jj, ']') {
            Some(j3) => {
                proof {
                    assert(parse_items_rest(v@.skip(jj as int)) == Some(
                        (Seq::<Seq<char>>::empty(), v@.skip(j3 as int)),
                    ));
                    assert(items.deep_view() + Seq::<Seq<char>>::empty() =~= items.deep_view());
                }
                return Some((items, j3));
            },
            None => {},
        }
        let j4 = match expect_char_exec(v, jj, ',') {
            Some(j4) => j4,
            None => {
                return None;
            },
        };
        let (x, j5) = match parse_json_string_exec(v, j4) {
            Some(p) => p,
            None => {
                return None;
            },
        };
        proof {
            assert(v@.skip(jj as int).len() > v@.skip(j5 as int).len());
            let ghost_items = items.deep_view();
            match parse_items_rest(v@.skip(j5 as int)) {
                Some(q) => {
                    assert(parse_items_rest(v@.skip(jj as int)) == Some(
                        (seq![x@] + q.0, q.1),
                    ));
                    assert(ghost_items + (seq![x@] + q.0) =~= ghost_items.push(x@) + q.0);
                },
                None => {},
            }
        }
        let ghost old_items = items.deep_view();
        items.push(crate::chars::chars_to_string(&x));
        proof {
            assert(items.deep_view() =~= old_items.push(x@));
        }
        jj = j5;
    }
}

/// Decodes one line of text to an envelope, following `decode_spec`: the
/// envelope the line denotes, or the protocol violation when the line does
/// not have the expected shape.
#[verifier::rlimit(50)]
pub fn decode_event(line: &str) -> (r: Result<EditorEvent, ProtocolDecodeError>)
    ensures
        match r {
            Ok(e) => decode_spec(line@) == Some(e@),
            Err(_) => decode_spec(line@) is None,
        },
{
    let v = crate::chars::str_to_chars(line);
    proof {
        assert(v@.skip(0) =~= line@);
    }
    let s1 = match expect_char_exec(&v, 0, '{') {
        Some(j) => j,
        None => {
            return Err(ProtocolDecodeError);
        },
    };
    let s2 = match parse_key_exec(&v, s1, "typ") {
        Some(j) => j,
        None => {
            proof {
                reveal_strlit("typ");
                assert("typ"@ =~= seq!['t', 'y', 'p']);
            }
            return Err(ProtocolDecodeError);
        },
    };
    proof {
        reveal_strlit("typ");
        assert("typ"@ =~= seq!['t', 'y', 'p']);
    }
    let (name, s3) = match parse_json_string_exec(&v, s2) {
        Some(p) => p,
        None => {
            return Err(ProtocolDecodeError);
        },
    };
    let s4 = match expect_char_exec(&v, s3, ',') {
        Some(j) => j,
        None => {
            return Err(ProtocolDecodeError);
        },
    };
    let s5 = match parse_key_exec(&v, s4, "data") {
        Some(j) => j,
        None => {
            proof {
                reveal_strlit("data");
                assert("data"@ =~= seq!['d', 'a', 't', 'a']);
            }
            return Err(ProtocolDecodeError);
        },
    };
    proof {
        reveal_strlit("data");
        assert("data"@ =~= seq!['d', 'a', 't', 'a']);
    }
    let (items, s6) = match parse_array_exec(&v, s5) {
        Some(p) => p,
        None => {
            return Err(ProtocolDecodeError);
        },
    };
    let s7 = match expect_char_exec(&v, s6, ',') {
        Some(j) => j,
        None => {
            return Err(ProtocolDecodeError);
        },
    };
    let s8 = match parse_key_exec(&v, s7, "serial") {
        Some(j) => j,
        None => {
            proof {
                reveal_strlit("serial");
                assert("serial"@ =~= seq!['s', 'e', 'r', 'i', 'a', 'l']);
            }
            return Err(ProtocolDecodeError);
        },
    };
    proof {
        reveal_strlit("serial");
        assert("serial"@ =~= seq!['s', 'e', 'r', 'i', 'a', 'l']);
    }
    let s8w = skip_ws_exec(&v, s8);
    let (serial, s9) = match parse_number_exec(&v, s8w) {
        Some(p) => p,
        None => {
            return Err(ProtocolDecodeError);
        },
    };
    let s10 = match expect_char_exec(&v, s9, '}') {
        Some(j) => j,
        None => {
            return Err(ProtocolDecodeError);
        },
    };
    let s11 = skip_ws_exec(&v, s10);
    if s11 != v.len() {
        proof {
            assert(drop_ws(v@.skip(s10 as int)).len() > 0);
        }
        return Err(ProtocolDecodeError);
    }
    proof {
        assert(v@.skip(s11 as int).len() == 0);
    }
    let typ = crate::event::tag_from_chars(&name);
    Ok(EditorEvent::new(typ, items, serial))
}

/// A string of plain characters is its own wire form.
proof fn lemma_escape_plain(s: Seq<char>)
    requires
        forall|i: int| 0 <= i < s.len() ==> is_plain(#[trigger] s[i]),
    ensures
        escape_str(s) == s,
    decreases s.len(),
{
    if s.len() == 0 {
        assert(escape_str(s) =~= s);
    } else {
        assert(is_plain(s[0]));
        lemma_escape_plain(s.drop_first());
        assert(crate::escape::escape_char(s[0]) == seq![s[0]]);
        assert(seq![s[0]] + s.drop_first() =~= s);
    }
}

/// Consuming an expected character off a string that begins with it.
proof fn lemma_expect_char_exact(c: char, rest: Seq<char>)
    requires
        !is_ws(c),
    ensures
        expect_char(seq![c] + rest, c) == Some(rest),
{
    let s = seq![c] + rest;
    assert(s[0] == c);
    assert(drop_ws(s) == s);
    assert(s.drop_first() =~= rest);
}

/// Round trip for one quoted string: its wire form followed by anything
/// parses back to it.
proof fn lemma_parse_json_string_of(x: Seq<char>, rest: Seq<char>)
    ensures
        parse_json_string(json_string_of(x) + rest) == Some((x, rest)),
{
    let s = json_string_of(x) + rest;
    assert(s[0] == '"');
    assert(drop_ws(s) == s);
    assert(s.drop_first() =~= escape_str(x) + seq!['"'] + rest);
    crate::escape::lemma_parse_escaped(x, rest);
}

/// Round trip for an object member key of plain characters.
proof fn lemma_parse_key_of(name: Seq<char>, rest: Seq<char>)
    requires
        forall|i: int| 0 <= i < name.len() ==> is_plain(#[trigger] name[i]),
    ensures
        parse_key(seq!['"'] + name + seq!['"', ':'] + rest, name) == Some(rest),
{
    let s = seq!['"'] + name + seq!['"', ':'] + rest;
    lemma_escape_plain(name);
    assert(s =~= json_string_of(name) + (seq![':'] + rest));
    lemma_parse_json_string_of(name, seq![':'] + rest);
    lemma_expect_char_exact(':', rest);
}

/// Round trip for the comma-led tail of an array.
proof fn lemma_parse_items_tail(data: Seq<Seq<char>>, rest: Seq<char>)
    ensures
        parse_items_rest(encode_items_tail(data) + seq![']'] + rest) == Some((data, rest)),
    decreases data.len(),
{
    let s = encode_items_tail(data) + seq![']'] + rest;
    if data.len() == 0 {
        assert(s =~= seq![']'] + rest);
        lemma_expect_char_exact(']', rest);
        assert(Seq::<Seq<char>>::empty() =~= data);
    } else {
        let x0 = data[0];
        let d1 = data.drop_first();
        let inner = encode_items_tail(d1) + seq![']'] + rest;
        lemma_parse_items_tail(d1, rest);
        assert(s =~= seq![','] + (json_string_of(x0) + inner));
        assert(s[0] == ',');
        assert(drop_ws(s) == s);
        // not the closing bracket, so the comma arm applies
        assert(expect_char(s, ']') is None);
        lemma_expect_char_exact(',', json_string_of(x0) + inner);
        assert(s.drop_first() =~= json_string_of(x0) + inner);
        lemma_parse_json_string_of(x0, inner);
        assert(inner.len() < s.len());
        assert(seq![x0] + d1 =~= data);
    }
}

/// Round trip for a whole array of strings.
proof fn lemma_parse_array_of(data: Seq<Seq<char>>, rest: Seq<char>)
    ensures
        parse_array(seq!['['] + encode_items(data) + seq![']'] + rest) == Some((data, rest)),
{
    let s = seq!['['] + encode_items(data) + seq![']'] + rest;
    if data.len() == 0 {
        assert(s =~= seq!['['] + (seq![']'] + rest));
        lemma_expect_char_exact('[', seq![']'] + rest);
        lemma_expect_char_exact(']', rest);
        assert(Seq::<Seq<char>>::empty() =~= data);
    } else {
        let x0 = data[0];
        let d1 = data.drop_first();
        let inner = encode_items_tail(d1) + seq![']'] + rest;
        let t = json_string_of(x0) + inner;
        assert(s =~= seq!['['] + t);
        lemma_expect_char_exact('[', t);
        assert(t[0] == '"');
        assert(drop_ws(t) == t);
        assert(expect_char(t, ']') is None);
        lemma_parse_json_string_of(x0, inner);
        lemma_parse_items_tail(d1, rest);
        assert(seq![x0] + d1 =~= data);
    }
}

/// Codec round trip: every well-formed envelope, encoded and decoded
/// again, comes back with the identical tag, payload and serial.
#[verifier::rlimit(80)]
pub proof fn lemma_codec_round_trip(e: EventModel)
    requires
        crate::event::wf_event(e),
    ensures
        decode_spec(encode_spec(e)) == Some(e),
{
    let name = tag_name_spec(e.typ);
    let w = encode_spec(e);
    let num = int_dec_of(e.serial);
    let r5 = num + seq!['}'];
    let r4 = seq!['"', 's', 'e', 'r', 'i', 'a', 'l', '"', ':'] + r5;
    let r3 = seq!['['] + encode_items(e.data) + seq![']'] + (seq![','] + r4);
    let r2 = seq!['"', 'd', 'a', 't', 'a', '"', ':'] + r3;
    let r1 = json_string_of(name) + (seq![','] + r2);
    let r0 = seq!['"', 't', 'y', 'p', '"', ':'] + r1;
    assert(w =~= seq!['{'] + r0);
    lemma_expect_char_exact('{', r0);
    let key_typ = seq!['t', 'y', 'p'];
    assert(key_typ[0] == 't' && key_typ[1] == 'y' && key_typ[2] == 'p');
    assert(forall|i: int| 0 <= i < 3 ==> is_plain(#[trigger] key_typ[i]));
    assert(r0 =~= seq!['"'] + key_typ + seq!['"', ':'] + r1);
    lemma_parse_key_of(key_typ, r1);
    lemma_parse_json_string_of(name, seq![','] + r2);
    lemma_expect_char_exact(',', r2);
    let key_data = seq!['d', 'a', 't', 'a'];
    assert(key_data[0] == 'd' && key_data[1] == 'a' && key_data[2] == 't' && key_data[3] == 'a');
    assert(forall|i: int| 0 <= i < 4 ==> is_plain(#[trigger] key_data[i]));
    assert(r2 =~= seq!['"'] + key_data + seq!['"', ':'] + r3);
    lemma_parse_key_of(key_data, r3);
    assert(r3 =~= seq!['['] + encode_items(e.data) + seq![']'] + (seq![','] + r4));
    lemma_parse_array_of(e.data, seq![','] + r4);
    lemma_expect_char_exact(',', r4);
    let key_serial = seq!['s', 'e', 'r', 'i', 'a', 'l'];
    assert(key_serial[0] == 's' && key_serial[1] == 'e' && key_serial[2] == 'r' && key_serial[3]
        == 'i' && key_serial[4] == 'a' && key_serial[5] == 'l');
    assert(forall|i: int| 0 <= i < 6 ==> is_plain(#[trigger] key_serial[i]));
    assert(r4 =~= seq!['"'] + key_serial + seq!['"', ':'] + r5);
    lemma_parse_key_of(key_serial, r5);
    assert(drop_ws(r5) == r5) by {
        if e.serial >= 0 {
            crate::numbers::lemma_dec_of_shape(e.serial as nat);
            assert(r5[0] == num[0]);
            assert(crate::numbers::is_digit(num[0]));
        } else {
            assert(r5[0] == '-');
        }
    }
    crate::numbers::lemma_parse_number_of_int(e.serial, seq!['}']);
    lemma_expect_char_exact('}', Seq::<char>::empty());
    assert(seq!['}'] =~= seq!['}'] + Seq::<char>::empty());
    assert(drop_ws(Seq::<char>::empty()).len() == 0);
    crate::event::lemma_tag_round_trip(e.typ);
}

} // verus!
