//! The textual document form of the settings record: a small, pretty-printed
//! object with the one recognized field, `api_key`. The writer and the reader
//! are both verified here, and a proved law says that any document the writer
//! produces reads back to the credential it was written from.
//!
//! The reader recognizes exactly the document shape the writer emits — brace
//! and indentation included — with the usual short escapes, `\u00`-prefixed
//! escapes for code points below `0x100`, and raw characters elsewhere. Any other
//! content does not parse, and the store then falls back to the default
//! record.

use vstd::prelude::*;

verus! {

/// The lowercase hexadecimal digit for a value below sixteen.
pub open spec fn spec_hex_digit(v: u8) -> char {
    if v == 0 {
        '0'
    } else if v == 1 {
        '1'
    } else if v == 2 {
        '2'
    } else if v == 3 {
        '3'
    } else if v == 4 {
        '4'
    } else if v == 5 {
        '5'
    } else if v == 6 {
        '6'
    } else if v == 7 {
        '7'
    } else if v == 8 {
        '8'
    } else if v == 9 {
        '9'
    } else if v == 10 {
        'a'
    } else if v == 11 {
        'b'
    } else if v == 12 {
        'c'
    } else if v == 13 {
        'd'
    } else if v == 14 {
        'e'
    } else {
        'f'
    }
}

/// The value of a lowercase hexadecimal digit, if `c` is one.
pub open spec fn spec_hex_val(c: char) -> Option<u8> {
    if c == '0' {
        Some(0u8)
    } else if c == '1' {
        Some(1u8)
    } else if c == '2' {
        Some(2u8)
    } else if c == '3' {
        Some(3u8)
    } else if c == '4' {
        Some(4u8)
    } else if c == '5' {
        Some(5u8)
    } else if c == '6' {
        Some(6u8)
    } else if c == '7' {
        Some(7u8)
    } else if c == '8' {
        Some(8u8)
    } else if c == '9' {
        Some(9u8)
    } else if c == 'a' {
        Some(10u8)
    } else if c == 'b' {
        Some(11u8)
    } else if c == 'c' {
        Some(12u8)
    } else if c == 'd' {
        Some(13u8)
    } else if c == 'e' {
        Some(14u8)
    } else if c == 'f' {
        Some(15u8)
    } else {
        None
    }
}

/// How one character of a credential appears inside the quoted value: the
/// quote and the backslash are escaped, a control character becomes a
/// `\u00`-prefixed escape with two hexadecimal digits, and every other
/// character stands as itself.
pub open spec fn escaped_char(c: char) -> Seq<char> {
    if c == '"' {
        seq!['\\', '"']
    } else if c == '\\' {
        seq!['\\', '\\']
    } else if (c as u32) < 32 {
        seq![
            '\\',
            'u',
            '0',
            '0',
            spec_hex_digit((c as u32 / 16) as u8),
            spec_hex_digit((c as u32 % 16) as u8),
        ]
    } else {
        seq![c]
    }
}

/// The escaped form of a whole credential.
pub open spec fn escaped_text(s: Seq<char>) -> Seq<char>
    decreases s.len(),
{
    if s.len() == 0 {
        Seq::empty()
    } else {
        escaped_char(s[0]) + escaped_text(s.drop_first())
    }
}

/// The exact document the store writes for a credential.
pub open spec fn document_text(key: Seq<char>) -> Seq<char> {
    "{\n  \"api_key\": \""@ + escaped_text(key) + "\"\n}"@
}

/// The character a short escape stands for, if `e` introduces one.
pub open spec fn spec_unescaped(e: char) -> Option<char> {
    if e == '"' {
        Some('"')
    } else if e == '\\' {
        Some('\\')
    } else if e == '/' {
        Some('/')
    } else if e == 'n' {
        Some('\n')
    } else if e == 't' {
        Some('\t')
    } else if e == 'r' {
        Some('\r')
    } else if e == 'b' {
        Some('\u{0008}')
    } else if e == 'f' {
        Some('\u{000C}')
    } else {
        None
    }
}

/// Reads a quoted string value of the document starting at position `i`
/// (just after the opening quote): the decoded characters and the position
/// just past the closing quote, or nothing when the text from `i` on is not
/// a properly closed, properly escaped value.
pub open spec fn parsed_string_body(s: Seq<char>, i: int) -> Option<(Seq<char>, int)>
    decreases s.len() - i,
{
    if i < 0 || i >= s.len() {
        None
    } else if s[i] == '"' {
        Some((Seq::empty(), i + 1))
    } else if s[i] == '\\' {
        if i + 1 >= s.len() {
            None
        } else if s[i + 1] == 'u' {
            if i + 5 >= s.len() {
                None
            } else if s[i + 2] == '0' && s[i + 3] == '0' {
                match (spec_hex_val(s[i + 4]), spec_hex_val(s[i + 5])) {
                    (Some(h1), Some(h2)) => match parsed_string_body(s, i + 6) {
                        Some((t, e)) => Some((seq![((h1 * 16 + h2) as u8) as char] + t, e)),
                        None => None,
                    },
                    _ => None,
                }
            } else {
                None
            }
        } else {
            match spec_unescaped(s[i + 1]) {
                Some(c) => match parsed_string_body(s, i + 2) {
                    Some((t, e)) => Some((seq![c] + t, e)),
                    None => None,
                },
                None => None,
            }
        }
    } else {
        match parsed_string_body(s, i + 1) {
            Some((t, e)) => Some((seq![s[i]] + t, e)),
            None => None,
        }
    }
}

/// Reads a whole document: the credential it carries, or nothing when the
/// text is not a well-formed settings document.
pub open spec fn parsed_key(s: Seq<char>) -> Option<Seq<char>> {
    if s.len() < 16 {
        None
    } else if s.subrange(0, 16) != "{\n  \"api_key\": \""@ {
        None
    } else {
        match parsed_string_body(s, 16) {
            Some((v, end)) => if end + 2 == s.len() && s[end] == '\n' && s[end + 1] == '}' {
                Some(v)
            } else {
                None
            },
            None => None,
        }
    }
}

/// The credential a saved text denotes: the parsed value, or the default
/// empty credential when the text does not parse.
pub open spec fn stored_key(text: Seq<char>) -> Seq<char> {
    match parsed_key(text) {
        Some(k) => k,
        None => Seq::empty(),
    }
}

/// Relies on `String::push`: appends exactly the one character.
#[verifier::external_body]
fn push_char(s: &mut String, c: char)
    ensures
        final(s)@ == old(s)@.push(c),
{
    s.push(c);
}

fn hex_digit(v: u8) -> (c: char)
    requires
        v < 16,
    ensures
        c == spec_hex_digit(v),
{
    if v == 0 {
        '0'
    } else if v == 1 {
        '1'
    } else if v == 2 {
        '2'
    } else if v == 3 {
        '3'
    } else if v == 4 {
        '4'
    } else if v == 5 {
        '5'
    } else if v == 6 {
        '6'
    } else if v == 7 {
        '7'
    } else if v == 8 {
        '8'
    } else if v == 9 {
        '9'
    } else if v == 10 {
        'a'
    } else if v == 11 {
        'b'
    } else if v == 12 {
        'c'
    } else if v == 13 {
        'd'
    } else if v == 14 {
        'e'
    } else {
        'f'
    }
}

fn hex_val(c: char) -> (r: Option<u8>)
    ensures
        r == spec_hex_val(c),
        (match r {
            Some(h) => h < 16,
            None => true,
        }),
{
    if c == '0' {
        Some(0u8)
    } else if c == '1' {
        Some(1u8)
    } else if c == '2' {
        Some(2u8)
    } else if c == '3' {
        Some(3u8)
    } else if c == '4' {
        Some(4u8)
    } else if c == '5' {
        Some(5u8)
    } else if c == '6' {
        Some(6u8)
    } else if c == '7' {
        Some(7u8)
    } else if c == '8' {
        Some(8u8)
    } else if c == '9' {
        Some(9u8)
    } else if c == 'a' {
        Some(10u8)
    } else if c == 'b' {
        Some(11u8)
    } else if c == 'c' {
        Some(12u8)
    } else if c == 'd' {
        Some(13u8)
    } else if c == 'e' {
        Some(14u8)
    } else if c == 'f' {
        Some(15u8)
    } else {
        None
    }
}

fn unescape(e: char) -> (r: Option<char>)
    ensures
        r == spec_unescaped(e),
{
    if e == '"' {
        Some('"')
    } else if e == '\\' {
        Some('\\')
    } else if e == '/' {
        Some('/')
    } else if e == 'n' {
        Some('\n')
    } else if e == 't' {
        Some('\t')
    } else if e == 'r' {
        Some('\r')
    } else if e == 'b' {
        Some('\u{0008}')
    } else if e == 'f' {
        Some('\u{000C}')
    } else {
        None
    }
}

/// `escaped_text` taken from the other end: the escaped form of a text is
/// the escaped form of all but its last character, then that character's
/// escape.
proof fn lemma_escaped_text_snoc(s: Seq<char>)
    requires
        s.len() > 0,
    ensures
        escaped_text(s) == escaped_text(s.drop_last()) + escaped_char(s.last()),
    decreases s.len(),
{
    if s.len() == 1 {
        assert(s.drop_first() =~= Seq::<char>::empty());
        assert(s.drop_last() =~= Seq::<char>::empty());
        assert(escaped_char(s[0]) + Seq::<char>::empty() =~= escaped_char(s[0]));
        assert(Seq::<char>::empty() + escaped_char(s.last()) =~= escaped_char(s[0]));
    } else {
        let t = s.drop_first();
        lemma_escaped_text_snoc(t);
        assert(t.drop_last() =~= s.drop_last().drop_first());
        assert(s.drop_last()[0] == s[0]);
        assert(escaped_text(s.drop_last()) == escaped_char(s[0]) + escaped_text(t.drop_last()));
        assert((escaped_char(s[0]) + escaped_text(t.drop_last())) + escaped_char(s.last()) =~= escaped_char(
            s[0],
        ) + (escaped_text(t.drop_last()) + escaped_char(s.last())));
    }
}

/// Writes the settings document for a credential: exactly `document_text`.
pub fn render_document(key: &str) -> (r: String)
    ensures
        r@ == document_text(key@),
{
    let mut out = String::from_str("{\n  \"api_key\": \"");
    let n = key.unicode_len();
    let mut i: usize = 0;
    while i < n
        invariant
            n == key@.len(),
            i <= n,
            out@ == "{\n  \"api_key\": \""@ + escaped_text(key@.subrange(0, i as int)),
        decreases n - i,
    {
        let ghost out0 = out@;
        let ghost pre = key@.subrange(0, i as int);
        let c = key.get_char(i);
        if c == '"' {
            out.append("\\\"");
            proof {
                reveal_strlit("\\\"");
                assert("\\\""@ =~= escaped_char(c));
            }
        } else if c == '\\' {
            out.append("\\\\");
            proof {
                reveal_strlit("\\\\");
                assert("\\\\"@ =~= escaped_char(c));
            }
        } else {
            let v: u32 = c as u32;
            if v < 32 {
                out.append("\\u00");
                let d1 = hex_digit((v / 16) as u8);
                let d2 = hex_digit((v % 16) as u8);
                push_char(&mut out, d1);
                push_char(&mut out, d2);
                proof {
                    reveal_strlit("\\u00");
                    assert(out@ =~= out0 + escaped_char(c));
                }
            } else {
                push_char(&mut out, c);
                proof {
                    assert(out@ =~= out0 + escaped_char(c));
                }
            }
        }
        proof {
            lemma_escaped_text_snoc(key@.subrange(0, i + 1));
            assert(key@.subrange(0, i + 1).drop_last() =~= pre);
            assert(key@.subrange(0, i + 1).last() == key@[i as int]);
            assert(out@ =~= "{\n  \"api_key\": \""@ + escaped_text(key@.subrange(0, i + 1)));
        }
        i = i + 1;
    }
    proof {
        assert(key@.subrange(0, n as int) =~= key@);
    }
    out.append("\"\n}");
    out
}

/// When a quoted value reads successfully, it ends after where it began and
/// within the text.
proof fn lemma_parsed_body_bounds(s: Seq<char>, i: int)
    ensures
        (match parsed_string_body(s, i) {
            Some((t, e)) => i < e <= s.len(),
            None => true,
        }),
    decreases s.len() - i,
{
    if i < 0 || i >= s.len() {
    } else if s[i] == '"' {
    } else if s[i] == '\\' {
        if i + 1 >= s.len() {
        } else if s[i + 1] == 'u' {
            if i + 5 >= s.len() {
            } else {
                lemma_parsed_body_bounds(s, i + 6);
            }
        } else {
            lemma_parsed_body_bounds(s, i + 2);
        }
    } else {
        lemma_parsed_body_bounds(s, i + 1);
    }
}

/// Reads the quoted value beginning at `start`; mirrors `parsed_string_body`
/// exactly, in both its answer and its refusals.
fn parse_string_body(s: &str, start: usize) -> (r: Option<(String, usize)>)
    requires
        start <= s@.len(),
    ensures
        (match r {
            Some(p) => parsed_string_body(s@, start as int) == Some((p.0@, p.1 as int)),
            None => parsed_string_body(s@, start as int) is None,
        }),
{
    let n = s.unicode_len();
    let mut acc = String::new();
    let mut i: usize = start;
    loop
        invariant
            n == s@.len(),
            start <= i <= n,
            (match parsed_string_body(s@, i as int) {
                Some((t, e)) => parsed_string_body(s@, start as int) == Some((acc@ + t, e)),
                None => parsed_string_body(s@, start as int) is None,
            }),
        decreases n - i,
    {
        if i >= n {
            return None;
        }
        let c = s.get_char(i);
        if c == '"' {
            proof {
                assert(acc@ + Seq::<char>::empty() =~= acc@);
            }
            return Some((acc, i + 1));
        }
        let ghost i0 = i as int;
        let ghost acc0 = acc@;
        if c == '\\' {
            if n - i <= 1 {
                return None;
            }
            let e = s.get_char(i + 1);
            if e == 'u' {
                if n - i <= 5 {
                    return None;
                }
                if !(s.get_char(i + 2) == '0' && s.get_char(i + 3) == '0') {
                    return None;
                }
                let h1 = match hex_val(s.get_char(i + 4)) {
                    Some(h) => h,
                    None => { return None; },
                };
                let h2 = match hex_val(s.get_char(i + 5)) {
                    Some(h) => h,
                    None => { return None; },
                };
                let v: u8 = h1 * 16 + h2;
                let c2 = v as char;
                push_char(&mut acc, c2);
                i = i + 6;
                proof {
                    match parsed_string_body(s@, i as int) {
                        Some((t, e2)) => {
                            assert(acc@ + t =~= acc0 + (seq![c2] + t));
                        },
                        None => {},
                    }
                }
            } else {
                let c2 = match unescape(e) {
                    Some(u) => u,
                    None => { return None; },
                };
                push_char(&mut acc, c2);
                i = i + 2;
                proof {
                    match parsed_string_body(s@, i as int) {
                        Some((t, e2)) => {
                            assert(acc@ + t =~= acc0 + (seq![c2] + t));
                        },
                        None => {},
                    }
                }
            }
        } else {
            push_char(&mut acc, c);
            i = i + 1;
            proof {
                match parsed_string_body(s@, i as int) {
                    Some((t, e2)) => {
                        assert(acc@ + t =~= acc0 + (seq![c] + t));
                    },
                    None => {},
                }
            }
        }
    }
}

/// Reads a whole settings document; mirrors `parsed_key` exactly.
pub fn parse_document(text: &str) -> (r: Option<String>)
    ensures
        (match r {
            Some(k) => parsed_key(text@) == Some(k@),
            None => parsed_key(text@) is None,
        }),
{
    let n = text.unicode_len();
    if n < 16 {
        return None;
    }
    let pre = "{\n  \"api_key\": \"";
    proof {
        reveal_strlit("{\n  \"api_key\": \"");
    }
    let mut j: usize = 0;
    while j < 16
        invariant
            n == text@.len(),
            n >= 16,
            j <= 16,
            pre@ == "{\n  \"api_key\": \""@,
            pre@.len() == 16,
            forall|k: int| 0 <= k < j ==> text@[k] == pre@[k],
        decreases 16 - j,
    {
        if text.get_char(j) != pre.get_char(j) {
            proof {
                assert(text@.subrange(0, 16)[j as int] != pre@[j as int]);
            }
            return None;
        }
        j = j + 1;
    }
    proof {
        assert(text@.subrange(0, 16) =~= pre@);
    }
    match parse_string_body(text, 16) {
        None => None,
        Some((v, end)) => {
            proof {
                lemma_parsed_body_bounds(text@, 16);
            }
            if n - end == 2 {
                if text.get_char(end) == '\n' && text.get_char(end + 1) == '}' {
                    return Some(v);
                }
            }
            None
        },
    }
}

proof fn lemma_hex_digit_round_trip(v: u8)
    requires
        v < 16,
    ensures
        spec_hex_val(spec_hex_digit(v)) == Some(v),
{
}

/// The heart of the round trip: wherever a text holds the escaped form of a
/// credential followed by a closing quote, reading a quoted value there
/// yields exactly that credential.
proof fn lemma_body_parses_escaped(s: Seq<char>, i: int, key: Seq<char>)
    requires
        0 <= i,
        i + escaped_text(key).len() + 1 <= s.len(),
        s.subrange(i, i + escaped_text(key).len()) == escaped_text(key),
        s[i + escaped_text(key).len()] == '"',
    ensures
        parsed_string_body(s, i) == Some((key, i + escaped_text(key).len() + 1)),
    decreases key.len(),
{
    let el = escaped_text(key).len() as int;
    assert(forall|k: int| 0 <= k < el ==> s[i + k] == #[trigger] escaped_text(key)[k]) by {
        assert(forall|k: int|
            0 <= k < el ==> #[trigger] s.subrange(i, i + el)[k] == s[i + k]);
    }
    if key.len() == 0 {
        assert(key =~= Seq::<char>::empty());
    } else {
        let c = key[0];
        let rest = key.drop_first();
        let ec = escaped_char(c);
        let er = escaped_text(rest);
        assert(escaped_text(key) == ec + er);
        let ecl = ec.len() as int;
        assert forall|k: int| 0 <= k < er.len() implies s.subrange(
            i + ecl,
            i + ecl + er.len(),
        )[k] == er[k] by {
            assert(escaped_text(key)[ecl + k] == er[k]);
            assert(s[i + (ecl + k)] == escaped_text(key)[ecl + k]);
        }
        assert(s.subrange(i + ecl, i + ecl + er.len()) =~= er);
        assert(el == ecl + er.len());
        assert(s[i + ecl + er.len() as int] == '"');
        lemma_body_parses_escaped(s, i + ecl, rest);
        if c == '"' || c == '\\' {
            assert(s[i + 0] == escaped_text(key)[0]);
            assert(s[i + 1] == escaped_text(key)[1]);
            assert(s[i] == '\\');
        } else if (c as u32) < 32 {
            let v = c as u32;
            let hi = (v / 16) as u8;
            let lo = (v % 16) as u8;
            lemma_hex_digit_round_trip(hi);
            lemma_hex_digit_round_trip(lo);
            assert(s[i + 0] == escaped_text(key)[0]);
            assert(s[i + 1] == escaped_text(key)[1]);
            assert(s[i + 2] == escaped_text(key)[2]);
            assert(s[i + 3] == escaped_text(key)[3]);
            assert(s[i + 4] == escaped_text(key)[4]);
            assert(s[i + 5] == escaped_text(key)[5]);
            assert(s[i] == '\\' && s[i + 1] == 'u' && s[i + 2] == '0' && s[i + 3] == '0');
            assert(s[i + 4] == spec_hex_digit(hi) && s[i + 5] == spec_hex_digit(lo));
            assert(hi * 16 + lo == v);
            vstd::utf8::char_u32_cast(c, v);
            assert(((hi * 16 + lo) as u8) as char == c);
        } else {
            assert(s[i + 0] == escaped_text(key)[0]);
            assert(s[i] == c);
        }
        assert(seq![c] + rest =~= key);
    }
}

/// Law: a document rendered for any credential reads back to exactly that
/// credential — saving a record and loading it again restores it.
pub proof fn lemma_document_round_trip(key: Seq<char>)
    ensures
        parsed_key(document_text(key)) == Some(key),
{
    reveal_strlit("{\n  \"api_key\": \"");
    reveal_strlit("\"\n}");
    let pre = "{\n  \"api_key\": \""@;
    let suf = "\"\n}"@;
    let esc = escaped_text(key);
    let d = document_text(key);
    assert(pre.len() == 16);
    assert(suf.len() == 3);
    assert(d.len() == 16 + esc.len() + 3);
    assert(d.subrange(0, 16) =~= pre);
    assert(d.subrange(16, 16 + esc.len() as int) =~= esc);
    assert(d[16 + esc.len() as int] == '"');
    lemma_body_parses_escaped(d, 16, key);
    let end: int = 16 + esc.len() as int + 1;
    assert(d[end as int] == '\n');
    assert(d[end as int + 1] == '}');
}

} // verus!
