use vstd::prelude::*;
use vstd::string::StringExecFns;
use vstd::string::StrSliceExecFns;
use vstd::utf8::char_u32_cast;

verus! {

// The two std operations this module needs that vstd leaves unspecified.
/// Relies on `String::push`: appends exactly the given character.
pub assume_specification[ String::push ](s: &mut String, c: char)
    ensures
        final(s)@ == old(s)@.push(c),
;

/// Relies on `char::from_u32`: `Some` exactly for Unicode scalar values,
/// and the returned character carries the given code.
pub assume_specification[ char::from_u32 ](v: u32) -> (r: Option<char>)
    ensures
        r is Some <==> (v < 0xD800 || (0xDFFF < v && v <= 0x10FFFF)),
        r matches Some(c) ==> c as u32 == v,
;

/// The lowercase hexadecimal digit for a value below 16.
pub open spec fn hex_digit(d: int) -> char {
    if d == 0 {
        '0'
    } else if d == 1 {
        '1'
    } else if d == 2 {
        '2'
    } else if d == 3 {
        '3'
    } else if d == 4 {
        '4'
    } else if d == 5 {
        '5'
    } else if d == 6 {
        '6'
    } else if d == 7 {
        '7'
    } else if d == 8 {
        '8'
    } else if d == 9 {
        '9'
    } else if d == 10 {
        'a'
    } else if d == 11 {
        'b'
    } else if d == 12 {
        'c'
    } else if d == 13 {
        'd'
    } else if d == 14 {
        'e'
    } else {
        'f'
    }
}

/// The value of a lowercase hexadecimal digit; 16 for any other character.
pub open spec fn hex_val(c: char) -> int {
    if c == '0' {
        0
    } else if c == '1' {
        1
    } else if c == '2' {
        2
    } else if c == '3' {
        3
    } else if c == '4' {
        4
    } else if c == '5' {
        5
    } else if c == '6' {
        6
    } else if c == '7' {
        7
    } else if c == '8' {
        8
    } else if c == '9' {
        9
    } else if c == 'a' {
        10
    } else if c == 'b' {
        11
    } else if c == 'c' {
        12
    } else if c == 'd' {
        13
    } else if c == 'e' {
        14
    } else if c == 'f' {
        15
    } else {
        16
    }
}

/// The six-character `\u00XX` escape of a control character's code.
pub open spec fn control_escape(code: int) -> Seq<char> {
    seq!['\\', 'u', '0', '0', hex_digit(code / 16), hex_digit(code % 16)]
}

/// How one character is written inside a JSON string: quote and
/// backslash get a two-character escape, the named control characters
/// their short escapes, any other control character a `\u00XX` escape
/// with lowercase hexadecimal digits, and everything else stands as
/// itself.
pub open spec fn json_escape_char(c: char) -> Seq<char> {
    if c == '"' {
        seq!['\\', '"']
    } else if c == '\\' {
        seq!['\\', '\\']
    } else if c as u32 == 8 {
        seq!['\\', 'b']
    } else if c as u32 == 9 {
        seq!['\\', 't']
    } else if c as u32 == 10 {
        seq!['\\', 'n']
    } else if c as u32 == 12 {
        seq!['\\', 'f']
    } else if c as u32 == 13 {
        seq!['\\', 'r']
    } else if (c as u32) < 32 {
        control_escape((c as u32) as int)
    } else {
        seq![c]
    }
}

/// The body of a JSON string holding the given text: every character
/// escaped as `json_escape_char` says, in order.
pub open spec fn json_escape(s: Seq<char>) -> Seq<char>
    decreases s.len(),
{
    if s.len() == 0 {
        Seq::<char>::empty()
    } else {
        json_escape_char(s[0]) + json_escape(s.skip(1))
    }
}

proof fn lemma_escape_snoc(s: Seq<char>, c: char)
    ensures
        json_escape(s.push(c)) == json_escape(s) + json_escape_char(c),
    decreases s.len(),
{
    reveal_with_fuel(json_escape, 3);
    assert(s.push(c)[0] == if s.len() == 0 {
        c
    } else {
        s[0]
    });
    if s.len() == 0 {
        assert(s.push(c).skip(1) =~= Seq::<char>::empty());
        assert(json_escape(s.push(c)) =~= json_escape(s) + json_escape_char(c));
    } else {
        assert(s.push(c).skip(1) =~= s.skip(1).push(c));
        lemma_escape_snoc(s.skip(1), c);
        assert(json_escape(s.push(c)) =~= json_escape(s) + json_escape_char(c));
    }
}

/// The opening of the envelope, up to and including the quote that
/// opens the string value.
pub open spec fn envelope_prefix() -> Seq<char> {
    "{\n  \"raw_resume\": \""@
}

/// The closing of the envelope: the string value's closing quote, a
/// newline and the closing brace.
pub open spec fn envelope_suffix() -> Seq<char> {
    "\"\n}"@
}

/// The serialized envelope: a pretty-printed JSON object whose one key,
/// `raw_resume`, holds the given text.
pub open spec fn envelope(text: Seq<char>) -> Seq<char> {
    envelope_prefix() + json_escape(text) + envelope_suffix()
}

/// The lowercase hexadecimal digit for a value below 16.
fn hex_char(d: u8) -> (c: char)
    requires
        d < 16,
    ensures
        c == hex_digit(d as int),
{
    match d {
        0 => '0',
        1 => '1',
        2 => '2',
        3 => '3',
        4 => '4',
        5 => '5',
        6 => '6',
        7 => '7',
        8 => '8',
        9 => '9',
        10 => 'a',
        11 => 'b',
        12 => 'c',
        13 => 'd',
        14 => 'e',
        _ => 'f',
    }
}

/// Append one character's JSON escape to the accumulator.
fn append_escaped_char(out: &mut String, c: char)
    ensures
        final(out)@ == old(out)@ + json_escape_char(c),
{
    let code = c as u32;
    if c == '"' {
        out.append("\\\"");
        proof {
            reveal_strlit("\\\"");
            assert(out@ =~= old(out)@ + json_escape_char(c));
        }
    } else if c == '\\' {
        out.append("\\\\");
        proof {
            reveal_strlit("\\\\");
            assert(out@ =~= old(out)@ + json_escape_char(c));
        }
    } else if code == 8 {
        out.append("\\b");
        proof {
            reveal_strlit("\\b");
            assert(out@ =~= old(out)@ + json_escape_char(c));
        }
    } else if code == 9 {
        out.append("\\t");
        proof {
            reveal_strlit("\\t");
            assert(out@ =~= old(out)@ + json_escape_char(c));
        }
    } else if code == 10 {
        out.append("\\n");
        proof {
            reveal_strlit("\\n");
            assert(out@ =~= old(out)@ + json_escape_char(c));
        }
    } else if code == 12 {
        out.append("\\f");
        proof {
            reveal_strlit("\\f");
            assert(out@ =~= old(out)@ + json_escape_char(c));
        }
    } else if code == 13 {
        out.append("\\r");
        proof {
            reveal_strlit("\\r");
            assert(out@ =~= old(out)@ + json_escape_char(c));
        }
    } else if code < 32 {
        out.append("\\u00");
        out.push(hex_char((code / 16) as u8));
        out.push(hex_char((code % 16) as u8));
        proof {
            reveal_strlit("\\u00");
            assert(out@ =~= old(out)@ + json_escape_char(c));
        }
    } else {
        out.push(c);
        proof {
            assert(out@ =~= old(out)@ + json_escape_char(c));
        }
    }
}

/// Serialize the extracted text as the JSON envelope the command-line
/// driver writes: `{"raw_resume": <text>}`, pretty-printed with
/// two-space indentation.
pub fn json_envelope(text: &str) -> (r: String)
    ensures
        r@ == envelope(text@),
{
    let mut out = String::from_str("{\n  \"raw_resume\": \"");
    let n = text.unicode_len();
    let mut i: usize = 0;
    proof {
        assert(text@.take(0) =~= Seq::<char>::empty());
        assert(out@ =~= envelope_prefix() + json_escape(text@.take(0)));
    }
    while i < n
        invariant
            n == text@.len(),
            i <= n,
            out@ == envelope_prefix() + json_escape(text@.take(i as int)),
        decreases n - i,
    {
        let c = text.get_char(i);
        append_escaped_char(&mut out, c);
        proof {
            lemma_escape_snoc(text@.take(i as int), c);
            assert(text@.take(i + 1) =~= text@.take(i as int).push(c));
            assert(out@ =~= envelope_prefix() + json_escape(text@.take(i + 1)));
        }
        i += 1;
    }
    out.append("\"\n}");
    proof {
        assert(text@.take(n as int) =~= text@);
        assert(out@ =~= envelope(text@));
    }
    out
}

/// The characters that may follow a backslash as a two-character
/// escape inside a JSON string.
pub open spec fn is_simple_escape(c: char) -> bool {
    c == '"' || c == '\\' || c == '/' || c == 'b' || c == 'f' || c == 'n' || c == 'r' || c == 't'
}

/// The character a two-character escape stands for.
pub open spec fn simple_unescape(c: char) -> char {
    if c == 'b' {
        8u32 as char
    } else if c == 't' {
        9u32 as char
    } else if c == 'n' {
        10u32 as char
    } else if c == 'f' {
        12u32 as char
    } else if c == 'r' {
        13u32 as char
    } else {
        c
    }
}

/// Decode the body of a JSON string: the inverse of `json_escape`.
///
/// `None` where the body is malformed: a raw quote or control
/// character, a trailing backslash, an unknown escape, or a `\u`
/// escape other than the `\u00XX` form that `json_escape` emits.
pub open spec fn json_unescape(s: Seq<char>) -> Option<Seq<char>>
    decreases s.len(),
{
    if s.len() == 0 {
        Some(Seq::<char>::empty())
    } else if s[0] == '\\' {
        if s.len() >= 2 && is_simple_escape(s[1]) {
            match json_unescape(s.skip(2)) {
                Some(rest) => Some(seq![simple_unescape(s[1])] + rest),
                None => None,
            }
        } else if s.len() >= 6 && s[1] == 'u' && s[2] == '0' && s[3] == '0' && hex_val(s[4]) < 16
            && hex_val(s[5]) < 16 {
            match json_unescape(s.skip(6)) {
                Some(rest) => Some(
                    seq![(((hex_val(s[4]) * 16 + hex_val(s[5])) as u32) as char)] + rest,
                ),
                None => None,
            }
        } else {
            None
        }
    } else if s[0] == '"' || (s[0] as u32) < 32 {
        None
    } else {
        match json_unescape(s.skip(1)) {
            Some(rest) => Some(seq![s[0]] + rest),
            None => None,
        }
    }
}

/// What reading an envelope back yields: the text held under
/// `raw_resume`, or `None` where the input is not an envelope that
/// `json_envelope` could have produced.
pub open spec fn parse_envelope_spec(s: Seq<char>) -> Option<Seq<char>> {
    let p = envelope_prefix().len() as int;
    let q = envelope_suffix().len() as int;
    if s.len() >= p + q && s.take(p) == envelope_prefix() && s.skip(s.len() - q)
        == envelope_suffix() {
        json_unescape(s.subrange(p, s.len() - q))
    } else {
        None
    }
}

/// Escaping a text and decoding it back yields the text unchanged.
pub proof fn lemma_unescape_escape(s: Seq<char>)
    ensures
        json_unescape(json_escape(s)) == Some(s),
    decreases s.len(),
{
    reveal_with_fuel(json_escape, 2);
    reveal_with_fuel(json_unescape, 2);
    if s.len() == 0 {
    } else {
        let c = s[0];
        let e = json_escape_char(c);
        let t = json_escape(s.skip(1));
        let u = e + t;
        lemma_unescape_escape(s.skip(1));
        assert(json_escape(s) == u);
        assert(seq![c] + s.skip(1) =~= s);
        let code = (c as u32) as int;
        if c == '"' || c == '\\' {
            assert(u[0] == '\\' && u[1] == c);
            assert(u.skip(2) =~= t);
            assert(simple_unescape(c) == c);
            assert(json_unescape(u) == Some(seq![c] + s.skip(1)));
        } else if code == 8 || code == 9 || code == 10 || code == 12 || code == 13 {
            assert(u[0] == '\\' && is_simple_escape(u[1]));
            assert(u.skip(2) =~= t);
            char_u32_cast(c, c as u32);
            assert(simple_unescape(u[1]) == c);
            assert(json_unescape(u) == Some(seq![c] + s.skip(1)));
        } else if code < 32 {
            assert(e == control_escape(code));
            assert(u[0] == '\\' && u[1] == 'u' && u[2] == '0' && u[3] == '0');
            assert(!is_simple_escape('u'));
            assert(u[4] == hex_digit(code / 16) && u[5] == hex_digit(code % 16));
            assert(0 <= code / 16 < 16 && 0 <= code % 16 < 16);
            assert(hex_val(hex_digit(code / 16)) == code / 16);
            assert(hex_val(hex_digit(code % 16)) == code % 16);
            assert(u.skip(6) =~= t);
            assert((code / 16) * 16 + code % 16 == code) by {
                vstd::arithmetic::div_mod::lemma_fundamental_div_mod(code, 16);
            }
            char_u32_cast(c, c as u32);
            assert((((hex_val(u[4]) * 16 + hex_val(u[5])) as u32) as char) == c);
            assert(json_unescape(u) == Some(seq![c] + s.skip(1)));
        } else {
            assert(u[0] == c);
            assert(u.skip(1) =~= t);
            assert(json_unescape(u) == Some(seq![c] + s.skip(1)));
        }
    }
}

/// Round trip: an envelope written for a text reads back as exactly
/// that text, whatever characters the text holds.
pub proof fn lemma_envelope_round_trip(text: Seq<char>)
    ensures
        parse_envelope_spec(envelope(text)) == Some(text),
{
    let s = envelope(text);
    let e = json_escape(text);
    let p = envelope_prefix().len() as int;
    let q = envelope_suffix().len() as int;
    assert(s.len() == p + e.len() + q);
    assert(s.take(p) =~= envelope_prefix());
    assert(s.skip(s.len() - q) =~= envelope_suffix());
    assert(s.subrange(p, s.len() - q) =~= e);
    lemma_unescape_escape(text);
}

/// The value of a lowercase hexadecimal digit; 16 for anything else.
fn hex_val_char(c: char) -> (v: u8)
    ensures
        v as int == hex_val(c),
{
    if c == '0' {
        0
    } else if c == '1' {
        1
    } else if c == '2' {
        2
    } else if c == '3' {
        3
    } else if c == '4' {
        4
    } else if c == '5' {
        5
    } else if c == '6' {
        6
    } else if c == '7' {
        7
    } else if c == '8' {
        8
    } else if c == '9' {
        9
    } else if c == 'a' {
        10
    } else if c == 'b' {
        11
    } else if c == 'c' {
        12
    } else if c == 'd' {
        13
    } else if c == 'e' {
        14
    } else if c == 'f' {
        15
    } else {
        16
    }
}

/// Read an envelope back: returns the text held under `raw_resume`,
/// or `None` where the input is not a well-formed envelope.
pub fn parse_envelope(s: &str) -> (r: Option<String>)
    ensures
        r is Some <==> parse_envelope_spec(s@) is Some,
        r matches Some(t) ==> parse_envelope_spec(s@) == Some(t@),
{
    let pref = "{\n  \"raw_resume\": \"";
    let suff = "\"\n}";
    let p = pref.unicode_len();
    let q = suff.unicode_len();
    let n = s.unicode_len();
    if n < p || n - p < q {
        return None;
    }
    let mut j: usize = 0;
    while j < p
        invariant
            p == envelope_prefix().len(),
            n == s@.len(),
            n >= p + q,
            j <= p,
            pref@ == envelope_prefix(),
            forall|k: int| 0 <= k < j ==> s@[k] == envelope_prefix()[k],
        decreases p - j,
    {
        if s.get_char(j) != pref.get_char(j) {
            proof {
                assert(s@.take(p as int) != envelope_prefix());
            }
            return None;
        }
        j += 1;
    }
    proof {
        assert(s@.take(p as int) =~= envelope_prefix());
    }
    let mut j2: usize = 0;
    while j2 < q
        invariant
            q == envelope_suffix().len(),
            p == envelope_prefix().len(),
            n == s@.len(),
            n >= p + q,
            j2 <= q,
            suff@ == envelope_suffix(),
            forall|k: int| 0 <= k < j2 ==> s@[n - q + k] == envelope_suffix()[k],
        decreases q - j2,
    {
        if s.get_char(n - q + j2) != suff.get_char(j2) {
            proof {
                assert(s@.skip(n - q) != envelope_suffix());
            }
            return None;
        }
        j2 += 1;
    }
    proof {
        assert(s@.skip(n - q) =~= envelope_suffix());
    }
    let ghost mid = s@.subrange(p as int, n - q);
    let end = n - q;
    let mut out = String::new();
    let mut i: usize = p;
    proof {
        assert(mid.skip(0) =~= mid);
    }
    while i < end
        invariant
            p == envelope_prefix().len(),
            q == envelope_suffix().len(),
            n == s@.len(),
            n >= p + q,
            end == n - q,
            p <= i <= end,
            mid == s@.subrange(p as int, n - q),
            s@.take(p as int) == envelope_prefix(),
            s@.skip(n - q) == envelope_suffix(),
            (match json_unescape(mid.skip(i - p)) {
                Some(rest) => json_unescape(mid) == Some(out@ + rest),
                None => json_unescape(mid) is None,
            }),
        decreases end - i,
    {
        let ghost k = i - p;
        let ghost tail = mid.skip(k);
        proof {
            assert(tail.len() == end - i);
            assert(tail[0] == s@[i as int]);
        }
        let c = s.get_char(i);
        if c == '\\' {
            if i + 1 >= end {
                proof {
                    assert(json_unescape(tail) is None);
                }
                return None;
            }
            proof {
                assert(tail[1] == s@[i + 1]);
            }
            let nc = s.get_char(i + 1);
            let simple = nc == '"' || nc == '\\' || nc == '/' || nc == 'b' || nc == 'f' || nc
                == 'n' || nc == 'r' || nc == 't';
            if simple {
                let d = if nc == 'b' {
                    char::from_u32(8).unwrap()
                } else if nc == 't' {
                    char::from_u32(9).unwrap()
                } else if nc == 'n' {
                    char::from_u32(10).unwrap()
                } else if nc == 'f' {
                    char::from_u32(12).unwrap()
                } else if nc == 'r' {
                    char::from_u32(13).unwrap()
                } else {
                    nc
                };
                proof {
                    if nc == 'b' || nc == 't' || nc == 'n' || nc == 'f' || nc == 'r' {
                        char_u32_cast(d, d as u32);
                    }
                    assert(d == simple_unescape(tail[1]));
                }
                let ghost out0 = out@;
                out.push(d);
                proof {
                    assert(tail.skip(2) =~= mid.skip(k + 2));
                    assert(match json_unescape(mid.skip(k + 2)) {
                        Some(rest) => json_unescape(tail) == Some(seq![d] + rest),
                        None => json_unescape(tail) is None,
                    });
                    if json_unescape(mid.skip(k + 2)) is Some {
                        let rest = json_unescape(mid.skip(k + 2))->0;
                        assert(out@ + rest =~= out0 + (seq![d] + rest));
                    }
                }
                i += 2;
            } else if nc == 'u' {
                if end - i < 6 {
                    proof {
                        assert(tail.len() < 6);
                        assert(json_unescape(tail) is None);
                    }
                    return None;
                }
                proof {
                    assert(tail[2] == s@[i + 2]);
                    assert(tail[3] == s@[i + 3]);
                    assert(tail[4] == s@[i + 4]);
                    assert(tail[5] == s@[i + 5]);
                }
                let z1 = s.get_char(i + 2);
                let z2 = s.get_char(i + 3);
                let h = hex_val_char(s.get_char(i + 4));
                let l = hex_val_char(s.get_char(i + 5));
                if z1 != '0' || z2 != '0' || h >= 16 || l >= 16 {
                    proof {
                        assert(json_unescape(tail) is None);
                    }
                    return None;
                }
                let v: u32 = (h as u32) * 16 + (l as u32);
                let d = char::from_u32(v).unwrap();
                proof {
                    char_u32_cast(d, v);
                    assert(d == (((hex_val(tail[4]) * 16 + hex_val(tail[5])) as u32) as char));
                }
                let ghost out0 = out@;
                out.push(d);
                proof {
                    assert(tail.skip(6) =~= mid.skip(k + 6));
                    assert(match json_unescape(mid.skip(k + 6)) {
                        Some(rest) => json_unescape(tail) == Some(seq![d] + rest),
                        None => json_unescape(tail) is None,
                    });
                    if json_unescape(mid.skip(k + 6)) is Some {
                        let rest = json_unescape(mid.skip(k + 6))->0;
                        assert(out@ + rest =~= out0 + (seq![d] + rest));
                    }
                }
                i += 6;
            } else {
                proof {
                    assert(json_unescape(tail) is None);
                }
                return None;
            }
        } else if c == '"' || (c as u32) < 32 {
            proof {
                assert(json_unescape(tail) is None);
            }
            return None;
        } else {
            let ghost out0 = out@;
            out.push(c);
            proof {
                assert(tail.skip(1) =~= mid.skip(k + 1));
                assert(match json_unescape(mid.skip(k + 1)) {
                    Some(rest) => json_unescape(tail) == Some(seq![c] + rest),
                    None => json_unescape(tail) is None,
                });
                if json_unescape(mid.skip(k + 1)) is Some {
                    let rest = json_unescape(mid.skip(k + 1))->0;
                    assert(out@ + rest =~= out0 + (seq![c] + rest));
                }
            }
            i += 1;
        }
    }
    proof {
        assert(mid.skip(end - p) =~= Seq::<char>::empty());
        assert(json_unescape(mid) == Some(out@ + Seq::<char>::empty()));
        assert(out@ + Seq::<char>::empty() =~= out@);
    }
    Some(out)
}

} // verus!
