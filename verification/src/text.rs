//! Small string helpers shared across the crate.

use vstd::prelude::*;
use vstd::string::*;

verus! {

/// Relies on `String::push`: appends exactly one character at the end.
#[verifier::external_body]
pub fn push_char(s: &mut String, c: char)
    ensures
        final(s)@ == old(s)@.push(c),
{
    s.push(c)
}

/// Copies the characters of `s` into a vector.
pub fn to_char_vec(s: &str) -> (v: Vec<char>)
    ensures
        v@ == s@,
{
    let n: usize = s.unicode_len();
    let mut v: Vec<char> = Vec::new();
    let mut i: usize = 0;
    while i < n
        invariant
            n == s@.len(),
            i <= n,
            v@ == s@.take(i as int),
        decreases n - i,
    {
        v.push(s.get_char(i));
        proof {
            assert(s@.take(i + 1) =~= s@.take(i as int).push(s@[i as int]));
        }
        i = i + 1;
    }
    proof {
        assert(s@.take(n as int) =~= s@);
    }
    v
}

/// Builds a string from a sequence of characters.
pub fn chars_to_string(v: &Vec<char>) -> (r: String)
    ensures
        r@ == v@,
{
    let mut out = String::new();
    let mut i: usize = 0;
    while i < v.len()
        invariant
            i <= v@.len(),
            out@ == v@.take(i as int),
        decreases v@.len() - i,
    {
        push_char(&mut out, v[i]);
        proof {
            assert(v@.take(i + 1) =~= v@.take(i as int).push(v@[i as int]));
        }
        i = i + 1;
    }
    proof {
        assert(v@.take(v@.len() as int) =~= v@);
    }
    out
}

/// Character-for-character equality of two string slices.
pub fn str_eq(a: &str, b: &str) -> (r: bool)
    ensures
        r == (a@ == b@),
{
    let na: usize = a.unicode_len();
    let nb: usize = b.unicode_len();
    if na != nb {
        return false;
    }
    let mut i: usize = 0;
    while i < na
        invariant
            na == a@.len(),
            na == b@.len(),
            i <= na,
            forall|m: int| 0 <= m < i ==> a@[m] == b@[m],
        decreases na - i,
    {
        if a.get_char(i) != b.get_char(i) {
            return false;
        }
        i = i + 1;
    }
    proof {
        assert(a@ =~= b@);
    }
    true
}

/// `sub` occurs in `s` starting at position `i`.
pub open spec fn is_substring_at(s: Seq<char>, sub: Seq<char>, i: int) -> bool {
    0 <= i && i + sub.len() <= s.len() && s.subrange(i, i + sub.len()) == sub
}

/// `sub` occurs somewhere in `s`.
pub open spec fn spec_contains(s: Seq<char>, sub: Seq<char>) -> bool {
    exists|i: int| is_substring_at(s, sub, i)
}

/// `p` is a prefix of `s`.
pub open spec fn spec_starts_with(s: Seq<char>, p: Seq<char>) -> bool {
    p.len() <= s.len() && s.take(p.len() as int) == p
}

/// Whether `p` is a prefix of `s`.
pub fn starts_with(s: &str, p: &str) -> (r: bool)
    ensures
        r == spec_starts_with(s@, p@),
{
    let ns: usize = s.unicode_len();
    let np: usize = p.unicode_len();
    if np > ns {
        return false;
    }
    let mut i: usize = 0;
    while i < np
        invariant
            ns == s@.len(),
            np == p@.len(),
            np <= ns,
            i <= np,
            forall|m: int| 0 <= m < i ==> s@[m] == p@[m],
        decreases np - i,
    {
        if s.get_char(i) != p.get_char(i) {
            proof {
                assert(s@.take(np as int)[i as int] != p@[i as int]);
            }
            return false;
        }
        i = i + 1;
    }
    proof {
        assert(s@.take(np as int) =~= p@);
    }
    true
}

/// Whether `sub` occurs anywhere in `s`.
pub fn contains_str(s: &str, sub: &str) -> (r: bool)
    ensures
        r == spec_contains(s@, sub@),
{
    let ns: usize = s.unicode_len();
    let nsub: usize = sub.unicode_len();
    if nsub > ns {
        proof {
            assert(forall|i: int| !is_substring_at(s@, sub@, i));
        }
        return false;
    }
    let mut start: usize = 0;
    while start <= ns - nsub
        invariant
            ns == s@.len(),
            nsub == sub@.len(),
            nsub <= ns,
            start <= ns - nsub + 1,
            forall|m: int| 0 <= m < start ==> !is_substring_at(s@, sub@, m),
        decreases ns + 1 - nsub - start,
    {
        let mut k: usize = 0;
        let mut all_eq = true;
        while k < nsub
            invariant
                ns == s@.len(),
                nsub == sub@.len(),
                start + nsub <= ns,
                k <= nsub,
                all_eq ==> s@.subrange(start as int, start + k) == sub@.take(k as int),
                !all_eq ==> !is_substring_at(s@, sub@, start as int),
                nsub == 0 ==> all_eq,
            decreases nsub - k,
        {
            if s.get_char(start + k) != sub.get_char(k) {
                proof {
                    assert(s@.subrange(start as int, start + nsub)[k as int] != sub@[k as int]);
                    assert(!is_substring_at(s@, sub@, start as int));
                }
                all_eq = false;
                k = nsub;
            } else {
                proof {
                    assert(s@.subrange(start as int, start + k + 1) =~= s@.subrange(
                        start as int,
                        start + k,
                    ).push(s@[start + k]));
                    assert(sub@.take(k + 1) =~= sub@.take(k as int).push(sub@[k as int]));
                }
                k = k + 1;
            }
        }
        if all_eq {
            proof {
                assert(sub@.take(nsub as int) =~= sub@);
                assert(is_substring_at(s@, sub@, start as int));
            }
            return true;
        }
        start = start + 1;
    }
    proof {
        assert(forall|i: int| is_substring_at(s@, sub@, i) ==> 0 <= i <= ns - nsub);
    }
    false
}

/// The ASCII character for a decimal digit.
pub open spec fn digit_char(d: nat) -> char {
    ((d + 48) as u8) as char
}

/// The decimal digit string of `n`, most significant digit first.
pub open spec fn spec_dec_digits(n: nat) -> Seq<char>
    decreases n,
{
    if n < 10 {
        seq![digit_char(n)]
    } else {
        spec_dec_digits(n / 10).push(digit_char(n % 10))
    }
}

/// Formats `n` in decimal.
pub fn u32_to_string(n: u32) -> (r: String)
    ensures
        r@ == spec_dec_digits(n as nat),
{
    let mut m: u32 = n;
    let mut rev: Vec<char> = Vec::new();
    loop
        invariant_except_break
            (rev@.len() == 0 && m == n) || (m > 0 && spec_dec_digits(n as nat)
                =~= spec_dec_digits(m as nat) + rev@.reverse()),
        ensures
            spec_dec_digits(n as nat) =~= rev@.reverse(),
        decreases m, (if rev@.len() == 0 { 1int } else { 0int }),
    {
        let d: u32 = m % 10;
        let c: char = ((48 + d) as u8) as char;
        let ghost old_rev = rev@;
        let ghost old_m = m;
        rev.push(c);
        m = m / 10;
        proof {
            assert(c == digit_char((old_m % 10) as nat));
            assert(rev@.reverse() =~= seq![c] + old_rev.reverse());
            if old_m < 10 {
                assert(spec_dec_digits(old_m as nat) =~= seq![c]);
                if old_rev.len() == 0 {
                    assert(spec_dec_digits(n as nat) =~= rev@.reverse());
                } else {
                    assert(spec_dec_digits(n as nat) =~= seq![c] + old_rev.reverse());
                    assert(spec_dec_digits(n as nat) =~= rev@.reverse());
                }
            } else {
                assert(spec_dec_digits(old_m as nat) == spec_dec_digits((old_m / 10) as nat).push(
                    digit_char((old_m % 10) as nat),
                ));
                assert(spec_dec_digits(old_m as nat) =~= spec_dec_digits((old_m / 10) as nat)
                    + seq![c]);
                if old_rev.len() == 0 {
                    assert(spec_dec_digits(n as nat) =~= spec_dec_digits((old_m / 10) as nat)
                        + rev@.reverse());
                } else {
                    assert(spec_dec_digits(old_m as nat) + old_rev.reverse() =~= spec_dec_digits(
                        (old_m / 10) as nat,
                    ) + rev@.reverse());
                }
            }
        }
        if m == 0 {
            break;
        }
    }
    let n_rev = rev.len();
    let mut out = String::new();
    let mut i: usize = 0;
    while i < n_rev
        invariant
            n_rev == rev@.len(),
            i <= n_rev,
            out@ =~= rev@.reverse().take(i as int),
        decreases n_rev - i,
    {
        push_char(&mut out, rev[n_rev - 1 - i]);
        proof {
            assert(rev@.reverse()[i as int] == rev@[n_rev - 1 - i]);
            assert(rev@.reverse().take(i + 1) =~= rev@.reverse().take(i as int).push(
                rev@.reverse()[i as int]));
        }
        i = i + 1;
    }
    proof {
        assert(rev@.reverse().take(n_rev as int) =~= rev@.reverse());
    }
    out
}

/// The decimal digit string of `n` denotes `n`.
pub proof fn lemma_dec_digits_value(n: nat)
    ensures
        crate::parse::digits_value(spec_dec_digits(n)) == n,
        spec_dec_digits(n).len() > 0,
        forall|i: int|
            0 <= i < spec_dec_digits(n).len() ==> crate::parse::is_digit_char(
                #[trigger] spec_dec_digits(n)[i],
            ),
    decreases n,
{
    if n < 10 {
        assert(spec_dec_digits(n) == seq![digit_char(n)]);
        assert(crate::parse::is_digit_char(digit_char(n))) by {
            assert(digit_char(n) == ((n + 48) as u8) as char);
        }
        assert(crate::parse::digits_value(spec_dec_digits(n)) == crate::parse::digits_value(
            spec_dec_digits(n).drop_last(),
        ) * 10 + crate::parse::digit_val(digit_char(n)));
        assert(spec_dec_digits(n).drop_last() =~= Seq::<char>::empty());
        assert(crate::parse::digit_val(digit_char(n)) == n);
    } else {
        lemma_dec_digits_value(n / 10);
        let d = spec_dec_digits(n);
        assert(d == spec_dec_digits(n / 10).push(digit_char(n % 10)));
        assert(d.drop_last() =~= spec_dec_digits(n / 10));
        assert(d.last() == digit_char(n % 10));
        assert(crate::parse::digit_val(digit_char(n % 10)) == n % 10);
        assert(crate::parse::digits_value(d) == (n / 10) * 10 + n % 10);
        assert((n / 10) * 10 + n % 10 == n) by (nonlinear_arith);
        assert(forall|i: int| 0 <= i < d.len() - 1 ==> d[i] == spec_dec_digits(n / 10)[i]);
        assert(crate::parse::is_digit_char(digit_char(n % 10)));
    }
}

} // verus!
