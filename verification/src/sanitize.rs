//! Title sanitization for directory names derived from media titles.

use vstd::prelude::*;

verus! {

/// Whether `c` may appear unchanged in a directory name derived from a
/// title: ASCII alphanumerics plus a fixed URL-safe punctuation set.
pub open spec fn is_url_safe_char(c: char) -> bool {
    ('a' <= c && c <= 'z') || ('A' <= c && c <= 'Z') || ('0' <= c && c <= '9') || c == '$' || c
        == '-' || c == '_' || c == '.' || c == '+' || c == '!' || c == '*' || c == '\'' || c == '('
        || c == ')' || c == ','
}

/// The image of a single character under sanitization.
pub open spec fn sanitize_char(c: char) -> char {
    if is_url_safe_char(c) {
        c
    } else {
        '_'
    }
}

/// The image of a whole title under sanitization.
pub open spec fn spec_sanitize(s: Seq<char>) -> Seq<char> {
    s.map_values(|c: char| sanitize_char(c))
}

fn char_is_url_safe(c: char) -> (r: bool)
    ensures
        r == is_url_safe_char(c),
{
    ('a' <= c && c <= 'z') || ('A' <= c && c <= 'Z') || ('0' <= c && c <= '9') || c == '$' || c
        == '-' || c == '_' || c == '.' || c == '+' || c == '!' || c == '*' || c == '\'' || c == '('
        || c == ')' || c == ','
}

/// Replaces every character that is neither ASCII alphanumeric nor in the
/// fixed URL-safe set with `_`, so the result is usable as a directory name.
pub fn sanitize_name_for_url(input: &str) -> (r: String)
    ensures
        r@ == spec_sanitize(input@),
{
    let n: usize = input.unicode_len();
    let mut out = String::new();
    let mut i: usize = 0;
    while i < n
        invariant
            n == input@.len(),
            i <= n,
            out@ == spec_sanitize(input@.take(i as int)),
        decreases n - i,
    {
        let c = input.get_char(i);
        let mapped = if char_is_url_safe(c) {
            c
        } else {
            '_'
        };
        crate::text::push_char(&mut out, mapped);
        proof {
            assert(input@.take(i + 1) =~= input@.take(i as int).push(input@[i as int]));
            assert(out@ =~= spec_sanitize(input@.take(i + 1)));
        }
        i = i + 1;
    }
    proof {
        assert(input@.take(n as int) =~= input@);
    }
    out
}

/// Every character in the allowed set is its own image under sanitization,
/// so sanitization is the identity on strings of allowed characters.
pub proof fn lemma_sanitize_identity_on_allowed(s: Seq<char>)
    requires
        forall|i: int| 0 <= i < s.len() ==> is_url_safe_char(#[trigger] s[i]),
    ensures
        spec_sanitize(s) =~= s,
{
}

} // verus!
