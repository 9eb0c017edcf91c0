//! JSON string bodies: escaping a character sequence for the wire and
//! parsing an escaped body back, with the proof that the two are inverse.

use vstd::prelude::*;

verus! {

broadcast use Seq::<_>::add_empty_left, Seq::<_>::add_empty_right, Seq::<
    _,
>::push_distributes_over_add;

/// A character that travels unescaped inside a JSON string.
pub open spec fn is_plain(c: char) -> bool {
    c != '"' && c != '\\' && (c as u32) >= 0x20
}

/// The lowercase hexadecimal digit with value `d`, for `0 <= d < 16`.
pub open spec fn hex_digit_char(d: int) -> char
    recommends
        0 <= d < 16,
{
    if d == 0 {
        '0'
    } else if d == 1 {
        '1'
    } else if d == 2 {
        '2'
    } else if d == 3 {
        '3'
    } else if d == 4 {
        '4'
    } else if d == 5 {
        '5'
    } else if d == 6 {
        '6'
    } else if d == 7 {
        '7'
    } else if d == 8 {
        '8'
    } else if d == 9 {
        '9'
    } else if d == 10 {
        'a'
    } else if d == 11 {
        'b'
    } else if d == 12 {
        'c'
    } else if d == 13 {
        'd'
    } else if d == 14 {
        'e'
    } else {
        'f'
    }
}

/// Whether `c` is a hexadecimal digit, either case.
pub open spec fn is_hex_digit(c: char) -> bool {
    let u = c as u32;
    (48 <= u <= 57) || (97 <= u <= 102) || (65 <= u <= 70)
}

/// The value of a hexadecimal digit.
pub open spec fn hex_val(c: char) -> int {
    let u = c as u32;
    if 48 <= u <= 57 {
        u - 48
    } else if 97 <= u <= 102 {
        u - 87
    } else {
        u - 55
    }
}

/// How one character is written inside a JSON string: quote and backslash
/// get a backslash escape, the common control characters their short names,
/// the remaining control characters a `\u00..` escape, and everything else
/// stands as itself.
pub open spec fn escape_char(c: char) -> Seq<char> {
    let u = c as u32;
    if c == '"' {
        seq!['\\', '"']
    } else if c == '\\' {
        seq!['\\', '\\']
    } else if u >= 0x20 {
        seq![c]
    } else if u == 8 {
        seq!['\\', 'b']
    } else if u == 12 {
        seq!['\\', 'f']
    } else if u == 10 {
        seq!['\\', 'n']
    } else if u == 13 {
        seq!['\\', 'r']
    } else if u == 9 {
        seq!['\\', 't']
    } else {
        seq!['\\', 'u', '0', '0', hex_digit_char((u as int) / 16), hex_digit_char((u as int) % 16)]
    }
}

/// The wire form of a whole string body.
pub open spec fn escape_str(s: Seq<char>) -> Seq<char>
    decreases s.len(),
{
    if s.len() == 0 {
        Seq::empty()
    } else {
        escape_char(s[0]) + escape_str(s.drop_first())
    }
}

/// Reads one escape, the part after the backslash, off the head of `s`:
/// the character it denotes and how many characters it occupied. A `\u`
/// escape must carry four hexadecimal digits and must not name a surrogate.
pub open spec fn parse_escape(s: Seq<char>) -> Option<(char, int)> {
    if s.len() == 0 {
        None
    } else if s[0] == '"' {
        Some(('"', 1))
    } else if s[0] == '\\' {
        Some(('\\', 1))
    } else if s[0] == '/' {
        Some(('/', 1))
    } else if s[0] == 'b' {
        Some(('\u{8}', 1))
    } else if s[0] == 'f' {
        Some(('\u{c}', 1))
    } else if s[0] == 'n' {
        Some(('\n', 1))
    } else if s[0] == 'r' {
        Some(('\r', 1))
    } else if s[0] == 't' {
        Some(('\t', 1))
    } else if s[0] == 'u' {
        if s.len() >= 5 && is_hex_digit(s[1]) && is_hex_digit(s[2]) && is_hex_digit(s[3])
            && is_hex_digit(s[4]) {
            let u = hex_val(s[1]) * 4096 + hex_val(s[2]) * 256 + hex_val(s[3]) * 16 + hex_val(s[4]);
            if u < 0xD800 || u >= 0xE000 {
                Some((((u as u32) as char), 5))
            } else {
                None
            }
        } else {
            None
        }
    } else {
        None
    }
}

/// Parses a JSON string body up to and including its closing quote: the
/// decoded characters and the rest of the input. Fails on a bad escape, a
/// raw control character, or a missing closing quote.
pub open spec fn parse_string_body(s: Seq<char>) -> Option<(Seq<char>, Seq<char>)>
    decreases s.len(),
{
    if s.len() == 0 {
        None
    } else if s[0] == '"' {
        Some((Seq::empty(), s.drop_first()))
    } else if s[0] == '\\' {
        let tail = s.drop_first();
        match parse_escape(tail) {
            Some(p) => if 1 <= p.1 <= tail.len() {
                match parse_string_body(tail.skip(p.1)) {
                    Some(q) => Some((seq![p.0] + q.0, q.1)),
                    None => None,
                }
            } else {
                None
            },
            None => None,
        }
    } else if (s[0] as u32) < 0x20 {
        None
    } else {
        match parse_string_body(s.drop_first()) {
            Some(q) => Some((seq![s[0]] + q.0, q.1)),
            None => None,
        }
    }
}

/// Two characters with the same code point are the same character.
pub proof fn lemma_char_injective(a: char, b: char)
    requires
        a as u32 == b as u32,
    ensures
        a == b,
{
    vstd::utf8::char_u32_cast(a, a as u32);
    vstd::utf8::char_u32_cast(b, b as u32);
}

/// The hexadecimal digit characters and their values determine each other.
pub proof fn lemma_hex_digit_char_val(d: int)
    requires
        0 <= d < 16,
    ensures
        is_hex_digit(hex_digit_char(d)),
        hex_val(hex_digit_char(d)) == d,
{
}

/// Escaping distributes over concatenation.
pub proof fn lemma_escape_str_append(a: Seq<char>, b: Seq<char>)
    ensures
        escape_str(a + b) == escape_str(a) + escape_str(b),
    decreases a.len(),
{
    if a.len() == 0 {
        assert(a + b =~= b);
    } else {
        assert((a + b).drop_first() =~= a.drop_first() + b);
        lemma_escape_str_append(a.drop_first(), b);
        assert((a + b)[0] == a[0]);
        assert(escape_char(a[0]) + (escape_str(a.drop_first()) + escape_str(b)) =~= (escape_char(
            a[0],
        ) + escape_str(a.drop_first())) + escape_str(b));
    }
}

/// Escaping one more character appends that character's escape.
pub proof fn lemma_escape_str_snoc(s: Seq<char>, i: int)
    requires
        0 <= i < s.len(),
    ensures
        escape_str(s.take(i + 1)) == escape_str(s.take(i)) + escape_char(s[i]),
{
    assert(s.take(i + 1) =~= s.take(i) + seq![s[i]]);
    lemma_escape_str_append(s.take(i), seq![s[i]]);
    assert(seq![s[i]].drop_first() =~= Seq::<char>::empty());
    assert(escape_str(seq![s[i]]) == escape_char(s[i]) + escape_str(Seq::<char>::empty()));
}

/// Round trip for string bodies: the escaped form of `s`, a closing quote,
/// and anything after parse back to exactly `s` with the rest untouched.
#[verifier::rlimit(50)]
pub proof fn lemma_parse_escaped(s: Seq<char>, rest: Seq<char>)
    ensures
        parse_string_body(escape_str(s) + seq!['"'] + rest) == Some((s, rest)),
    decreases s.len(),
{
    let whole = escape_str(s) + seq!['"'] + rest;
    if s.len() == 0 {
        assert(whole =~= seq!['"'] + rest);
        assert(whole[0] == '"');
        assert(whole.drop_first() =~= rest);
        assert(Seq::<char>::empty() =~= s);
    } else {
        let c = s[0];
        let u = c as u32;
        let s1 = s.drop_first();
        lemma_parse_escaped(s1, rest);
        let inner = escape_str(s1) + seq!['"'] + rest;
        assert(escape_str(s) == escape_char(c) + escape_str(s1));
        assert(whole =~= escape_char(c) + inner);
        assert(seq![c] + s1 =~= s);
        if is_plain(c) {
            assert(escape_char(c) =~= seq![c]);
            assert(whole =~= seq![c] + inner);
            assert(whole[0] == c);
            assert(whole.drop_first() =~= inner);
        } else if c == '"' || c == '\\' || (0x20 <= u) {
            // quote or backslash: a two-character backslash escape
            let e = if c == '"' {
                '"'
            } else {
                '\\'
            };
            assert(whole =~= seq!['\\', e] + inner);
            assert(whole[0] == '\\');
            let tail = whole.drop_first();
            assert(tail =~= seq![e] + inner);
            assert(tail[0] == e);
            assert(parse_escape(tail) == Some((c, 1int)));
            assert(tail.skip(1) =~= inner);
        } else if u == 8 || u == 12 || u == 10 || u == 13 || u == 9 {
            let e: char = if u == 8 {
                'b'
            } else if u == 12 {
                'f'
            } else if u == 10 {
                'n'
            } else if u == 13 {
                'r'
            } else {
                't'
            };
            assert(escape_char(c) =~= seq!['\\', e]);
            assert(whole =~= seq!['\\', e] + inner);
            assert(whole[0] == '\\');
            let tail = whole.drop_first();
            assert(tail =~= seq![e] + inner);
            assert(tail[0] == e);
            let parsed: char = if u == 8 {
                '\u{8}'
            } else if u == 12 {
                '\u{c}'
            } else if u == 10 {
                '\n'
            } else if u == 13 {
                '\r'
            } else {
                '\t'
            };
            lemma_char_injective(parsed, c);
            assert(parse_escape(tail) == Some((c, 1int)));
            assert(tail.skip(1) =~= inner);
        } else {
            // the remaining control characters: a \u00.. escape
            let ui = u as int;
            let h1 = hex_digit_char(ui / 16);
            let h2 = hex_digit_char(ui % 16);
            lemma_hex_digit_char_val(ui / 16);
            lemma_hex_digit_char_val(ui % 16);
            assert(escape_char(c) =~= seq!['\\', 'u', '0', '0', h1, h2]);
            assert(whole =~= seq!['\\', 'u', '0', '0', h1, h2] + inner);
            assert(whole[0] == '\\');
            let tail = whole.drop_first();
            assert(tail =~= seq!['u', '0', '0', h1, h2] + inner);
            assert(tail[0] == 'u' && tail[1] == '0' && tail[2] == '0' && tail[3] == h1 && tail[4]
                == h2);
            assert(is_hex_digit('0') && hex_val('0') == 0);
            let uu = hex_val(tail[1]) * 4096 + hex_val(tail[2]) * 256 + hex_val(tail[3]) * 16
                + hex_val(tail[4]);
            assert(uu == (ui / 16) * 16 + ui % 16);
            assert(uu == ui);
            assert(uu < 0xD800);
            vstd::utf8::char_u32_cast(c, uu as u32);
            assert(((uu as u32) as char) == c);
            assert(parse_escape(tail) == Some((c, 5int)));
            assert(tail.skip(5) =~= inner);
        }
    }
}

/// The lowercase hexadecimal digit with value `d`, executably.
fn hex_digit_char_exec(d: u32) -> (c: char)
    requires
        d < 16,
    ensures
        c == hex_digit_char(d as int),
{
    if d == 0 {
        '0'
    } else if d == 1 {
        '1'
    } else if d == 2 {
        '2'
    } else if d == 3 {
        '3'
    } else if d == 4 {
        '4'
    } else if d == 5 {
        '5'
    } else if d == 6 {
        '6'
    } else if d == 7 {
        '7'
    } else if d == 8 {
        '8'
    } else if d == 9 {
        '9'
    } else if d == 10 {
        'a'
    } else if d == 11 {
        'b'
    } else if d == 12 {
        'c'
    } else if d == 13 {
        'd'
    } else if d == 14 {
        'e'
    } else {
        'f'
    }
}

/// The value of a hexadecimal digit, or nothing for any other character.
fn hex_val_exec(c: char) -> (r: Option<u32>)
    ensures
        match r {
            Some(x) => is_hex_digit(c) && x == hex_val(c) && x < 16,
            None => !is_hex_digit(c),
        },
{
    let u = c as u32;
    if 48 <= u && u <= 57 {
        Some(u - 48)
    } else if 97 <= u && u <= 102 {
        Some(u - 87)
    } else if 65 <= u && u <= 70 {
        Some(u - 55)
    } else {
        None
    }
}

/// Appends the wire form of one character to `out`.
fn push_escaped_char(out: &mut String, c: char)
    ensures
        final(out)@ == old(out)@ + escape_char(c),
{
    let u = c as u32;
    if c == '"' {
        out.push('\\');
        out.push('"');
    } else if c == '\\' {
        out.push('\\');
        out.push('\\');
    } else if u >= 0x20 {
        out.push(c);
    } else if u == 8 {
        out.push('\\');
        out.push('b');
    } else if u == 12 {
        out.push('\\');
        out.push('f');
    } else if u == 10 {
        out.push('\\');
        out.push('n');
    } else if u == 13 {
        out.push('\\');
        out.push('r');
    } else if u == 9 {
        out.push('\\');
        out.push('t');
    } else {
        out.push('\\');
        out.push('u');
        out.push('0');
        out.push('0');
        out.push(hex_digit_char_exec(u / 16));
        out.push(hex_digit_char_exec(u % 16));
    }
    proof {
        assert(final(out)@ =~= old(out)@ + escape_char(c));
    }
}

/// Appends the wire form of the whole string `s` to `out`.
#[verifier::loop_isolation(false)]
pub fn push_escaped(out: &mut String, s: &str)
    ensures
        final(out)@ == old(out)@ + escape_str(s@),
{
    let n = s.unicode_len();
    let mut i: usize = 0;
    while i < n
        invariant
            i <= n,
            out@ == old(out)@ + escape_str(s@.take(i as int)),
        decreases n - i,
    {
        let c = s.get_char(i);
        push_escaped_char(out, c);
        proof {
            lemma_escape_str_snoc(s@, i as int);
        }
        i = i + 1;
    }
    proof {
        assert(s@.take(n as int) =~= s@);
    }
}

/// Reads one escape, the part after the backslash, beginning at index `i`,
/// following `parse_escape` on the remaining characters: the denoted
/// character and the count of characters consumed.
pub fn parse_escape_exec(v: &Vec<char>, i: usize) -> (r: Option<(char, usize)>)
    requires
        i <= v.len(),
    ensures
        match r {
            Some(p) => {
                &&& parse_escape(v@.skip(i as int)) == Some((p.0, p.1 as int))
                &&& 1 <= p.1
                &&& i + p.1 <= v.len()
            },
            None => parse_escape(v@.skip(i as int)) is None,
        },
{
    let ghost s = v@.skip(i as int);
    if i == v.len() {
        return None;
    }
    let c = v[i];
    proof {
        assert(s[0] == c);
    }
    if c == '"' {
        Some(('"', 1))
    } else if c == '\\' {
        Some(('\\', 1))
    } else if c == '/' {
        Some(('/', 1))
    } else if c == 'b' {
        Some(('\u{8}', 1))
    } else if c == 'f' {
        Some(('\u{c}', 1))
    } else if c == 'n' {
        Some(('\n', 1))
    } else if c == 'r' {
        Some(('\r', 1))
    } else if c == 't' {
        Some(('\t', 1))
    } else if c == 'u' {
        if v.len() - i >= 5 {
            proof {
                assert(s.len() >= 5);
                assert(s[1] == v@[i + 1]);
                assert(s[2] == v@[i + 2]);
                assert(s[3] == v@[i + 3]);
                assert(s[4] == v@[i + 4]);
            }
            let h1 = hex_val_exec(v[i + 1]);
            let h2 = hex_val_exec(v[i + 2]);
            let h3 = hex_val_exec(v[i + 3]);
            let h4 = hex_val_exec(v[i + 4]);
            match (h1, h2, h3, h4) {
                (Some(a), Some(b), Some(x), Some(y)) => {
                    let u: u32 = a * 4096 + b * 256 + x * 16 + y;
                    if u < 0xD800 || u >= 0xE000 {
                        match char::from_u32(u) {
                            Some(ch) => {
                                proof {
                                    vstd::utf8::char_u32_cast(ch, u);
                                }
                                Some((ch, 5))
                            },
                            None => {
                                proof {
                                    assert(false);
                                }
                                None
                            },
                        }
                    } else {
                        None
                    }
                },
                _ => None,
            }
        } else {
            None
        }
    } else {
        None
    }
}

/// Parses a JSON string body beginning at index `i`, up to and including
/// its closing quote, following `parse_string_body` on the remaining
/// characters: the decoded characters and the index just past the quote.
#[verifier::loop_isolation(false)]
pub fn parse_string_body_exec(v: &Vec<char>, i: usize) -> (r: Option<(Vec<char>, usize)>)
    requires
        i <= v.len(),
    ensures
        match r {
            Some(p) => {
                &&& parse_string_body(v@.skip(i as int)) == Some((p.0@, v@.skip(p.1 as int)))
                &&& i < p.1 <= v.len()
            },
            None => parse_string_body(v@.skip(i as int)) is None,
        },
{
    let mut out: Vec<char> = Vec::new();
    let mut j = i;
    loop
        invariant
            i <= j <= v.len(),
            (match parse_string_body(v@.skip(j as int)) {
                Some(p) => parse_string_body(v@.skip(i as int)) == Some((out@ + p.0, p.1)),
                None => parse_string_body(v@.skip(i as int)) is None,
            }),
        decreases v.len() - j,
    {
        if j == v.len() {
            return None;
        }
        let c = v[j];
        proof {
            assert(v@.skip(j as int)[0] == c);
            assert(v@.skip(j as int).drop_first() =~= v@.skip(j as int + 1));
        }
        if c == '"' {
            return Some((out, j + 1));
        } else if c == '\\' {
            match parse_escape_exec(v, j + 1) {
                Some((e, k)) => {
                    proof {
                        let tail = v@.skip(j as int + 1);
                        assert(tail.skip(k as int) =~= v@.skip(j as int + 1 + k as int));
                        assert(k as int <= tail.len());
                        match parse_string_body(v@.skip(j as int + 1 + k as int)) {
                            Some(q) => {
                                assert(parse_string_body(v@.skip(j as int)) == Some(
                                    (seq![e] + q.0, q.1),
                                ));
                                assert(out@ + (seq![e] + q.0) =~= out@.push(e) + q.0);
                            },
                            None => {},
                        }
                    }
                    out.push(e);
                    j = j + 1 + k;
                },
                None => {
                    return None;
                },
            }
        } else {
            let u = c as u32;
            if u < 0x20 {
                return None;
            }
            proof {
                match parse_string_body(v@.skip(j as int + 1)) {
                    Some(q) => {
                        assert(parse_string_body(v@.skip(j as int)) == Some((seq![c] + q.0, q.1)));
                        assert(out@ + (seq![c] + q.0) =~= out@.push(c) + q.0);
                    },
                    None => {},
                }
            }
            out.push(c);
            j = j + 1;
        }
    }
}

} // verus!
