//! A small JSON codec: exactly the fragment this system stores on disk and
//! in torrent category fields. The encoders emit what the common Rust JSON
//! serializer would; the parsers accept that output (plus surrounding
//! whitespace) and reject everything else.

use vstd::prelude::*;
use vstd::string::*;

verus! {

broadcast use vstd::utf8::char_is_scalar, vstd::utf8::char_u32_cast;

// ---------------------------------------------------------------------------
// Characters.
// ---------------------------------------------------------------------------

/// JSON whitespace.
pub open spec fn is_ws(c: char) -> bool {
    c == ' ' || c == '\n' || c == '\r' || c == '\t'
}

/// Lowercase hexadecimal digit.
pub open spec fn is_hex_lc(c: char) -> bool {
    ('0' <= c && c <= '9') || ('a' <= c && c <= 'f')
}

/// Value of a lowercase hexadecimal digit.
pub open spec fn hex_val(c: char) -> int {
    if '0' <= c && c <= '9' {
        (c as u32) - 48
    } else {
        (c as u32) - 87
    }
}

/// The lowercase hexadecimal digit for `d`.
pub open spec fn hex_digit(d: int) -> char {
    if d < 10 {
        ((d + 48) as u8) as char
    } else {
        ((d + 87) as u8) as char
    }
}

/// The character with code `n` (used for codes below 256).
pub open spec fn char_of_code(n: int) -> char {
    (n as u8) as char
}

proof fn lemma_hex_digit_val(d: int)
    requires
        0 <= d < 16,
    ensures
        is_hex_lc(hex_digit(d)),
        hex_val(hex_digit(d)) == d,
{
}

// ---------------------------------------------------------------------------
// String literals.
// ---------------------------------------------------------------------------

/// How one character appears inside a JSON string literal: the named
/// escapes for the usual control characters and the two delimiters,
/// `\u00..` for the remaining control characters, the character itself
/// otherwise.
pub open spec fn esc_char(c: char) -> Seq<char> {
    if c == '"' {
        seq!['\\', '"']
    } else if c == '\\' {
        seq!['\\', '\\']
    } else if c == '\u{8}' {
        seq!['\\', 'b']
    } else if c == '\u{c}' {
        seq!['\\', 'f']
    } else if c == '\n' {
        seq!['\\', 'n']
    } else if c == '\r' {
        seq!['\\', 'r']
    } else if c == '\t' {
        seq!['\\', 't']
    } else if (c as u32) < 0x20 {
        seq!['\\', 'u', '0', '0', hex_digit((c as u32) as int / 16), hex_digit((c as u32) as int % 16)]
    } else {
        seq![c]
    }
}

/// The body of a JSON string literal holding `s`.
pub open spec fn enc_string_body(s: Seq<char>) -> Seq<char>
    decreases s.len(),
{
    if s.len() == 0 {
        Seq::empty()
    } else {
        esc_char(s[0]) + enc_string_body(s.drop_first())
    }
}

/// The JSON string literal holding `s`, quotes included.
pub open spec fn enc_string(s: Seq<char>) -> Seq<char> {
    seq!['"'] + enc_string_body(s) + seq!['"']
}

pub(crate) proof fn lemma_enc_string_body_snoc(s: Seq<char>, c: char)
    ensures
        enc_string_body(s.push(c)) == enc_string_body(s) + esc_char(c),
    decreases s.len(),
{
    if s.len() == 0 {
        assert(s.push(c)[0] == c);
        assert(s.push(c).drop_first() =~= Seq::<char>::empty());
        assert(enc_string_body(Seq::<char>::empty()) =~= Seq::<char>::empty());
        assert(enc_string_body(s.push(c)) =~= esc_char(c));
        assert(enc_string_body(s) + esc_char(c) =~= esc_char(c));
    } else {
        assert(s.push(c)[0] == s[0]);
        assert(s.push(c).drop_first() =~= s.drop_first().push(c));
        lemma_enc_string_body_snoc(s.drop_first(), c);
        assert(enc_string_body(s.push(c)) =~= esc_char(s[0]) + (enc_string_body(s.drop_first())
            + esc_char(c)));
        assert(esc_char(s[0]) + (enc_string_body(s.drop_first()) + esc_char(c)) =~= (esc_char(s[0])
            + enc_string_body(s.drop_first())) + esc_char(c));
    }
}

/// Prepends `c` to the text of a successful parse.
pub open spec fn sp_cons(c: char, r: Option<(Seq<char>, int)>) -> Option<(Seq<char>, int)> {
    match r {
        Option::None => Option::None,
        Option::Some((t, j)) => Option::Some((seq![c] + t, j)),
    }
}

/// Parses the body of a string literal in `s` from position `i` up to and
/// past the closing quote. Yields the unescaped text and the position
/// after the quote.
pub open spec fn sp_string_body(s: Seq<char>, i: int) -> Option<(Seq<char>, int)>
    decreases s.len() - i,
{
    if i < 0 || i >= s.len() {
        Option::None
    } else if s[i] == '"' {
        Option::Some((Seq::empty(), i + 1))
    } else if s[i] == '\\' {
        if i + 1 < s.len() {
            let e = s[i + 1];
            if e == '"' || e == '\\' || e == '/' {
                sp_cons(e, sp_string_body(s, i + 2))
            } else if e == 'b' {
                sp_cons('\u{8}', sp_string_body(s, i + 2))
            } else if e == 'f' {
                sp_cons('\u{c}', sp_string_body(s, i + 2))
            } else if e == 'n' {
                sp_cons('\n', sp_string_body(s, i + 2))
            } else if e == 'r' {
                sp_cons('\r', sp_string_body(s, i + 2))
            } else if e == 't' {
                sp_cons('\t', sp_string_body(s, i + 2))
            } else if e == 'u' {
                if i + 5 < s.len() && s[i + 2] == '0' && s[i + 3] == '0' && is_hex_lc(s[i + 4])
                    && is_hex_lc(s[i + 5]) {
                    sp_cons(
                        char_of_code(16 * hex_val(s[i + 4]) + hex_val(s[i + 5])),
                        sp_string_body(s, i + 6),
                    )
                } else {
                    Option::None
                }
            } else {
                Option::None
            }
        } else {
            Option::None
        }
    } else if (s[i] as u32) < 0x20 {
        Option::None
    } else {
        sp_cons(s[i], sp_string_body(s, i + 1))
    }
}

/// Parses a whole string literal at position `i`.
pub open spec fn sp_string(s: Seq<char>, i: int) -> Option<(Seq<char>, int)> {
    if 0 <= i < s.len() && s[i] == '"' {
        sp_string_body(s, i + 1)
    } else {
        Option::None
    }
}

/// What remains after dropping a known concatenation prefix.
pub(crate) proof fn lemma_skip_concat(s: Seq<char>, i: int, a: Seq<char>, b: Seq<char>)
    requires
        0 <= i <= s.len(),
        s.skip(i) == a + b,
    ensures
        i + a.len() <= s.len(),
        s.skip(i + a.len()) == b,
        forall|k: int| 0 <= k < a.len() ==> #[trigger] s[i + k] == a[k],
{
    assert(s.skip(i).len() == a.len() + b.len());
    assert(s.skip(i + a.len()) =~= b) by {
        assert forall|k: int| 0 <= k < b.len() implies s.skip(i + a.len())[k] == b[k] by {
            assert(s.skip(i + a.len())[k] == s[i + a.len() + k]);
            assert(s[i + a.len() + k] == s.skip(i)[a.len() + k]);
            assert((a + b)[a.len() + k] == b[k]);
        }
    }
    assert forall|k: int| 0 <= k < a.len() implies #[trigger] s[i + k] == a[k] by {
        assert(s.skip(i)[k] == s[i + k]);
        assert((a + b)[k] == a[k]);
    }
}

/// Parsing inverts encoding: a string-literal body followed by its closing
/// quote parses back to the original text.
pub(crate) proof fn lemma_sp_body_of_enc(s: Seq<char>, i: int, t: Seq<char>, rest: Seq<char>)
    requires
        0 <= i <= s.len(),
        s.skip(i) == enc_string_body(t) + seq!['"'] + rest,
    ensures
        sp_string_body(s, i) == Option::Some((t, i + enc_string_body(t).len() + 1)),
    decreases t.len(),
{
    if t.len() == 0 {
        assert(enc_string_body(t) =~= Seq::<char>::empty());
        assert(s.skip(i) =~= seq!['"'] + rest);
        lemma_skip_concat(s, i, seq!['"'], rest);
        assert(s[i + 0] == '"');
        assert(s[i] == s[i + 0]);
    } else {
        let c = t[0];
        let t2 = t.drop_first();
        let e = esc_char(c);
        assert(enc_string_body(t) == e + enc_string_body(t2));
        let tail = enc_string_body(t2) + seq!['"'] + rest;
        assert(s.skip(i) =~= e + tail);
        lemma_skip_concat(s, i, e, tail);
        assert(s.skip(i + e.len()) == tail);
        assert(s[i + 0] == e[0]);
        if e.len() > 1 {
            assert(s[i + 1] == e[1]);
        }
        if e.len() > 2 {
            assert(s[i + 2] == e[2]);
            assert(s[i + 3] == e[3]);
            assert(s[i + 4] == e[4]);
            assert(s[i + 5] == e[5]);
        }
        lemma_sp_body_of_enc(s, i + e.len(), t2, rest);
        let inner = sp_string_body(s, i + e.len());
        assert(inner == Option::Some((t2, i + e.len() + enc_string_body(t2).len() + 1)));
        if c == '"' {
            assert(s[i + 0] == '\\' && s[i + 1] == '"');
            assert(sp_string_body(s, i) == sp_cons('"', sp_string_body(s, i + 2)));
            assert(seq!['"'] + t2 =~= t);
        } else if c == '\\' {
            assert(s[i + 0] == '\\' && s[i + 1] == '\\');
            assert(seq!['\\'] + t2 =~= t);
        } else if c == '\u{8}' {
            assert(s[i + 0] == '\\' && s[i + 1] == 'b');
            assert(seq!['\u{8}'] + t2 =~= t);
        } else if c == '\u{c}' {
            assert(s[i + 0] == '\\' && s[i + 1] == 'f');
            assert(seq!['\u{c}'] + t2 =~= t);
        } else if c == '\n' {
            assert(s[i + 0] == '\\' && s[i + 1] == 'n');
            assert(seq!['\n'] + t2 =~= t);
        } else if c == '\r' {
            assert(s[i + 0] == '\\' && s[i + 1] == 'r');
            assert(seq!['\r'] + t2 =~= t);
        } else if c == '\t' {
            assert(s[i + 0] == '\\' && s[i + 1] == 't');
            assert(seq!['\t'] + t2 =~= t);
        } else if (c as u32) < 0x20 {
            assert(s[i + 0] == '\\' && s[i + 1] == 'u' && s[i + 2] == '0' && s[i + 3] == '0');
            assert(s[i + 4] == hex_digit((c as u32) as int / 16));
            assert(s[i + 5] == hex_digit((c as u32) as int % 16));
            lemma_hex_digit_val((c as u32) as int / 16);
            lemma_hex_digit_val((c as u32) as int % 16);
            assert(16 * ((c as u32) as int / 16) + (c as u32) as int % 16 == (c as u32) as int);
            assert(char_of_code((c as u32) as int) as u32 == c as u32);
            assert(char_of_code((c as u32) as int) == c) by {
                let c2 = char_of_code((c as u32) as int);
                vstd::utf8::char_u32_cast(c2, c2 as u32);
                vstd::utf8::char_u32_cast(c, c as u32);
            }
            assert(seq![c] + t2 =~= t);
        } else {
            assert(s[i + 0] == c);
            assert(seq![c] + t2 =~= t);
        }
    }
}

/// Parsing inverts encoding for whole string literals.
pub(crate) proof fn lemma_sp_string_of_enc(s: Seq<char>, i: int, t: Seq<char>, rest: Seq<char>)
    requires
        0 <= i <= s.len(),
        s.skip(i) == enc_string(t) + rest,
    ensures
        sp_string(s, i) == Option::Some((t, i + enc_string(t).len())),
        s.skip(i + enc_string(t).len()) == rest,
{
    assert(s.skip(i) =~= seq!['"'] + (enc_string_body(t) + seq!['"'] + rest));
    lemma_skip_concat(s, i, seq!['"'], enc_string_body(t) + seq!['"'] + rest);
    assert(s[i + 0] == '"');
    assert(s[i] == s[i + 0]);
    lemma_sp_body_of_enc(s, i + 1, t, rest);
    lemma_skip_concat(s, i, enc_string(t), rest);
}

// ---------------------------------------------------------------------------
// Executable string encoding and parsing.
// ---------------------------------------------------------------------------

fn push_esc_char(out: &mut String, c: char)
    ensures
        final(out)@ == old(out)@ + esc_char(c),
{
    if c == '"' {
        crate::text::push_char(out, '\\');
        crate::text::push_char(out, '"');
        proof {
            assert(old(out)@ + esc_char(c) =~= out@);
        }
    } else if c == '\\' {
        crate::text::push_char(out, '\\');
        crate::text::push_char(out, '\\');
        proof {
            assert(old(out)@ + esc_char(c) =~= out@);
        }
    } else if c == '\u{8}' {
        crate::text::push_char(out, '\\');
        crate::text::push_char(out, 'b');
        proof {
            assert(old(out)@ + esc_char(c) =~= out@);
        }
    } else if c == '\u{c}' {
        crate::text::push_char(out, '\\');
        crate::text::push_char(out, 'f');
        proof {
            assert(old(out)@ + esc_char(c) =~= out@);
        }
    } else if c == '\n' {
        crate::text::push_char(out, '\\');
        crate::text::push_char(out, 'n');
        proof {
            assert(old(out)@ + esc_char(c) =~= out@);
        }
    } else if c == '\r' {
        crate::text::push_char(out, '\\');
        crate::text::push_char(out, 'r');
        proof {
            assert(old(out)@ + esc_char(c) =~= out@);
        }
    } else if c == '\t' {
        crate::text::push_char(out, '\\');
        crate::text::push_char(out, 't');
        proof {
            assert(old(out)@ + esc_char(c) =~= out@);
        }
    } else if (c as u32) < 0x20 {
        crate::text::push_char(out, '\\');
        crate::text::push_char(out, 'u');
        crate::text::push_char(out, '0');
        crate::text::push_char(out, '0');
        let hi: u32 = (c as u32) / 16;
        let lo: u32 = (c as u32) % 16;
        let hc: char = if hi < 10 {
            ((hi + 48) as u8) as char
        } else {
            ((hi + 87) as u8) as char
        };
        let lc: char = if lo < 10 {
            ((lo + 48) as u8) as char
        } else {
            ((lo + 87) as u8) as char
        };
        crate::text::push_char(out, hc);
        crate::text::push_char(out, lc);
        proof {
            assert(hc == hex_digit((c as u32) as int / 16));
            assert(lc == hex_digit((c as u32) as int % 16));
            assert(old(out)@ + esc_char(c) =~= out@);
        }
    } else {
        crate::text::push_char(out, c);
        proof {
            assert(old(out)@ + esc_char(c) =~= out@);
        }
    }
}

/// Appends the JSON string literal holding `s` onto `out`.
pub fn encode_string_into(out: &mut String, s: &str)
    ensures
        final(out)@ == old(out)@ + enc_string(s@),
{
    crate::text::push_char(out, '"');
    let n: usize = s.unicode_len();
    let mut i: usize = 0;
    while i < n
        invariant
            n == s@.len(),
            i <= n,
            out@ == old(out)@ + seq!['"'] + enc_string_body(s@.take(i as int)),
        decreases n - i,
    {
        let c = s.get_char(i);
        push_esc_char(out, c);
        proof {
            assert(s@.take(i + 1) =~= s@.take(i as int).push(c));
            lemma_enc_string_body_snoc(s@.take(i as int), c);
            assert(out@ =~= old(out)@ + seq!['"'] + enc_string_body(s@.take(i + 1)));
        }
        i = i + 1;
    }
    crate::text::push_char(out, '"');
    proof {
        assert(s@.take(n as int) =~= s@);
        assert(out@ =~= old(out)@ + enc_string(s@));
    }
}

/// Parses the string literal at position `i` of `v`, returning its text
/// and the position just past the closing quote.
pub fn parse_string(v: &Vec<char>, i: usize) -> (r: Option<(String, usize)>)
    ensures
        r matches Some((t, j)) ==> sp_string(v@, i as int) == Option::Some((t@, j as int)) && i
            < j <= v@.len(),
        r is None ==> sp_string(v@, i as int) is None,
{
    if i < v.len() && v[i] == '"' {
        match parse_string_body(v, i + 1) {
            Some((t, j)) => Some((t, j)),
            None => None,
        }
    } else {
        None
    }
}

fn parse_string_body(v: &Vec<char>, i: usize) -> (r: Option<(String, usize)>)
    requires
        i <= v@.len(),
    ensures
        r matches Some((t, j)) ==> sp_string_body(v@, i as int) == Option::Some((t@, j as int))
            && i < j <= v@.len(),
        r is None ==> sp_string_body(v@, i as int) is None,
    decreases v@.len() - i,
{
    if i >= v.len() {
        return None;
    }
    let c = v[i];
    if c == '"' {
        return Some((String::new(), i + 1));
    }
    if c == '\\' {
        if i + 1 >= v.len() {
            return None;
        }
        let e = v[i + 1];
        let unescaped: char;
        if e == '"' || e == '\\' || e == '/' {
            unescaped = e;
        } else if e == 'b' {
            unescaped = '\u{8}';
        } else if e == 'f' {
            unescaped = '\u{c}';
        } else if e == 'n' {
            unescaped = '\n';
        } else if e == 'r' {
            unescaped = '\r';
        } else if e == 't' {
            unescaped = '\t';
        } else if e == 'u' {
            if v.len() >= 6 && i <= v.len() - 6 && v[i + 2] == '0' && v[i + 3] == '0'
                && char_is_hex_lc(v[i + 4]) && char_is_hex_lc(v[i + 5]) {
                let code: u32 = 16 * char_hex_val(v[i + 4]) + char_hex_val(v[i + 5]);
                let cu: char = (code as u8) as char;
                proof {
                    assert(cu == char_of_code(
                        16 * hex_val(v@[i + 4]) + hex_val(v@[i + 5]),
                    ));
                }
                match parse_string_body(v, i + 6) {
                    Some((t, j)) => {
                        let mut outp = String::new();
                        crate::text::push_char(&mut outp, cu);
                        outp.append(t.as_str());
                        proof {
                            assert(outp@ =~= seq![cu] + t@);
                        }
                        return Some((outp, j));
                    },
                    None => {
                        return None;
                    },
                }
            } else {
                return None;
            }
        } else {
            return None;
        }
        match parse_string_body(v, i + 2) {
            Some((t, j)) => {
                let mut outp = String::new();
                crate::text::push_char(&mut outp, unescaped);
                outp.append(t.as_str());
                proof {
                    assert(outp@ =~= seq![unescaped] + t@);
                }
                return Some((outp, j));
            },
            None => {
                return None;
            },
        }
    }
    if (c as u32) < 0x20 {
        return None;
    }
    match parse_string_body(v, i + 1) {
        Some((t, j)) => {
            let mut outp = String::new();
            crate::text::push_char(&mut outp, c);
            outp.append(t.as_str());
            proof {
                assert(outp@ =~= seq![c] + t@);
            }
            Some((outp, j))
        },
        None => None,
    }
}

fn char_is_hex_lc(c: char) -> (r: bool)
    ensures
        r == is_hex_lc(c),
{
    ('0' <= c && c <= '9') || ('a' <= c && c <= 'f')
}

fn char_hex_val(c: char) -> (r: u32)
    requires
        is_hex_lc(c),
    ensures
        r == hex_val(c),
        r < 16,
{
    if '0' <= c && c <= '9' {
        (c as u32) - 48
    } else {
        (c as u32) - 87
    }
}

// ---------------------------------------------------------------------------
// Whitespace, punctuation and numbers.
// ---------------------------------------------------------------------------

/// Every character of `w` is JSON whitespace.
pub open spec fn ws_only(w: Seq<char>) -> bool {
    forall|m: int| 0 <= m < w.len() ==> is_ws(#[trigger] w[m])
}

/// The first position at or after `i` holding a non-whitespace character.
pub open spec fn skip_ws(s: Seq<char>, i: int) -> int
    decreases s.len() - i,
{
    if 0 <= i < s.len() && is_ws(s[i]) {
        skip_ws(s, i + 1)
    } else {
        i
    }
}

/// Skipping whitespace walks over exactly a known whitespace prefix.
pub(crate) proof fn lemma_skip_ws_concat(s: Seq<char>, i: int, w: Seq<char>, rest: Seq<char>)
    requires
        0 <= i <= s.len(),
        s.skip(i) == w + rest,
        ws_only(w),
        rest.len() > 0 ==> !is_ws(rest[0]),
    ensures
        skip_ws(s, i) == i + w.len(),
        s.skip(i + w.len()) == rest,
    decreases w.len(),
{
    lemma_skip_concat(s, i, w, rest);
    if w.len() == 0 {
        assert(s.skip(i) =~= rest);
        if rest.len() > 0 {
            assert(s[i + 0] == rest[0]);
            assert(!is_ws(s[i]));
        }
    } else {
        assert(s[i + 0] == w[0]);
        assert(is_ws(s[i]));
        assert(s.skip(i + 1) =~= w.drop_first() + rest) by {
            assert(s.skip(i).drop_first() =~= s.skip(i + 1));
            assert((w + rest).drop_first() =~= w.drop_first() + rest);
        }
        assert(ws_only(w.drop_first()));
        lemma_skip_ws_concat(s, i + 1, w.drop_first(), rest);
    }
}

/// The position after the expected punctuation character `c`, with any
/// whitespace before it allowed.
pub open spec fn sp_punct(s: Seq<char>, i: int, c: char) -> Option<int> {
    let j = skip_ws(s, i);
    if j < s.len() && s[j] == c {
        Option::Some(j + 1)
    } else {
        Option::None
    }
}

/// A decimal number at position `i`: its digits read greedily, rejected
/// when absent or when the value does not fit in 32 bits.
pub open spec fn sp_u32(s: Seq<char>, i: int) -> Option<(u32, int)> {
    if 0 <= i <= s.len() {
        let d = crate::parse::leading_digits(s.skip(i));
        if d.len() == 0 || crate::parse::digits_value(d) > u32::MAX {
            Option::None
        } else {
            Option::Some((crate::parse::digits_value(d) as u32, i + d.len()))
        }
    } else {
        Option::None
    }
}

pub(crate) proof fn lemma_leading_digits_concat(d: Seq<char>, rest: Seq<char>)
    requires
        forall|m: int| 0 <= m < d.len() ==> crate::parse::is_digit_char(#[trigger] d[m]),
        rest.len() > 0 ==> !crate::parse::is_digit_char(rest[0]),
    ensures
        crate::parse::leading_digits(d + rest) == d,
    decreases d.len(),
{
    if d.len() == 0 {
        assert(d + rest =~= rest);
        if rest.len() > 0 {
            assert(!crate::parse::is_digit_char((d + rest)[0]));
        }
        assert(crate::parse::leading_digits(d + rest) =~= d);
    } else {
        assert((d + rest)[0] == d[0]);
        assert((d + rest).drop_first() =~= d.drop_first() + rest);
        lemma_leading_digits_concat(d.drop_first(), rest);
        assert(crate::parse::leading_digits(d + rest) =~= seq![d[0]] + d.drop_first());
        assert(seq![d[0]] + d.drop_first() =~= d);
    }
}

/// Parsing inverts decimal formatting.
pub(crate) proof fn lemma_sp_u32_of_enc(s: Seq<char>, i: int, n: u32, rest: Seq<char>)
    requires
        0 <= i <= s.len(),
        s.skip(i) == crate::text::spec_dec_digits(n as nat) + rest,
        rest.len() > 0 ==> !crate::parse::is_digit_char(rest[0]),
    ensures
        sp_u32(s, i) == Option::Some((n, i + crate::text::spec_dec_digits(n as nat).len())),
        s.skip(i + crate::text::spec_dec_digits(n as nat).len()) == rest,
{
    let d = crate::text::spec_dec_digits(n as nat);
    crate::text::lemma_dec_digits_value(n as nat);
    lemma_leading_digits_concat(d, rest);
    lemma_skip_concat(s, i, d, rest);
}

/// Skips whitespace from position `i`.
pub fn parse_skip_ws(v: &Vec<char>, i: usize) -> (r: usize)
    requires
        i <= v@.len(),
    ensures
        r == skip_ws(v@, i as int),
        i <= r <= v@.len(),
{
    let mut j = i;
    while j < v.len() && char_is_ws(v[j])
        invariant
            i <= j <= v@.len(),
            skip_ws(v@, i as int) == skip_ws(v@, j as int),
        decreases v@.len() - j,
    {
        j = j + 1;
    }
    j
}

fn char_is_ws(c: char) -> (r: bool)
    ensures
        r == is_ws(c),
{
    c == ' ' || c == '\n' || c == '\r' || c == '\t'
}

/// Consumes the punctuation character `c`, allowing whitespace before it.
pub fn parse_punct(v: &Vec<char>, i: usize, c: char) -> (r: Option<usize>)
    requires
        i <= v@.len(),
    ensures
        r matches Some(j) ==> sp_punct(v@, i as int, c) == Option::Some(j as int) && i < j
            <= v@.len(),
        r is None ==> sp_punct(v@, i as int, c) is None,
{
    let j = parse_skip_ws(v, i);
    if j < v.len() && v[j] == c {
        Some(j + 1)
    } else {
        None
    }
}

/// Parses the decimal number at position `i`.
pub fn parse_u32(v: &Vec<char>, i: usize) -> (r: Option<(u32, usize)>)
    requires
        i <= v@.len(),
    ensures
        r matches Some((n, j)) ==> sp_u32(v@, i as int) == Option::Some((n, j as int)) && i < j
            <= v@.len(),
        r is None ==> sp_u32(v@, i as int) is None,
{
    let ghost t = v@.skip(i as int);
    let ghost run = crate::parse::leading_digits(t);
    let n = v.len();
    let mut j: usize = i;
    let mut acc: u64 = 0;
    while j < n && char_is_digit_json(v[j])
        invariant
            n == v@.len(),
            i <= j <= n,
            t == v@.skip(i as int),
            run == crate::parse::leading_digits(t),
            forall|m: int| i <= m < j ==> crate::parse::is_digit_char(#[trigger] v@[m]),
            acc <= 0x1_0000_0000,
            crate::parse::digits_value(v@.subrange(i as int, j as int)) <= u32::MAX ==> acc
                == crate::parse::digits_value(v@.subrange(i as int, j as int)),
            crate::parse::digits_value(v@.subrange(i as int, j as int)) > u32::MAX ==> acc
                == 0x1_0000_0000,
        decreases n - j,
    {
        let c = v[j];
        let d: u32 = (c as u32) - 48;
        let ghost pre = v@.subrange(i as int, j as int);
        let ghost post = v@.subrange(i as int, j + 1 as int);
        proof {
            assert(post.drop_last() =~= pre);
            assert(post.last() == v@[j as int]);
            assert(crate::parse::digits_value(post) == crate::parse::digits_value(pre) * 10
                + crate::parse::digit_val(v@[j as int]));
        }
        if acc >= 0x1_0000_0000 {
            acc = 0x1_0000_0000;
            proof {
                assert(crate::parse::digits_value(post) >= crate::parse::digits_value(pre) * 10);
                assert(crate::parse::digits_value(post) > u32::MAX) by (nonlinear_arith)
                    requires
                        crate::parse::digits_value(post) >= crate::parse::digits_value(pre) * 10,
                        crate::parse::digits_value(pre) > u32::MAX,
                ;
            }
        } else {
            let x = acc * 10 + (d as u64);
            if x > 0xffff_ffff {
                acc = 0x1_0000_0000;
            } else {
                acc = x;
            }
        }
        j = j + 1;
    }
    proof {
        let k = (j - i) as int;
        assert(forall|m: int| 0 <= m < k ==> crate::parse::is_digit_char(#[trigger] t[m]));
        if j < n {
            assert(t[k] == v@[j as int]);
        }
        crate::parse::lemma_leading_digits_exact(t, k);
        assert(t.take(k) =~= v@.subrange(i as int, j as int));
        assert(run =~= v@.subrange(i as int, j as int));
    }
    if j == i {
        return None;
    }
    if acc <= 0xffff_ffff {
        Some((acc as u32, j))
    } else {
        None
    }
}

fn char_is_digit_json(c: char) -> (r: bool)
    ensures
        r == crate::parse::is_digit_char(c),
{
    '0' <= c && c <= '9'
}


} // verus!
