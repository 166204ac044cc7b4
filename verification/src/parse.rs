//! Numeric extraction from filenames and other small text parsers.

use vstd::prelude::*;

verus! {

/// ASCII decimal digit.
pub open spec fn is_digit_char(c: char) -> bool {
    '0' <= c && c <= '9'
}

/// Numeric value of an ASCII digit.
pub open spec fn digit_val(c: char) -> nat {
    ((c as int) - ('0' as int)) as nat
}

/// The maximal run of digits at the very start of `s`.
pub open spec fn leading_digits(s: Seq<char>) -> Seq<char>
    decreases s.len(),
{
    if s.len() > 0 && is_digit_char(s[0]) {
        seq![s[0]] + leading_digits(s.drop_first())
    } else {
        Seq::empty()
    }
}

/// The first maximal digit run in `s`: skip any leading non-digits, then
/// take digits while they last. Empty when `s` holds no digit.
pub open spec fn digit_run(s: Seq<char>) -> Seq<char>
    decreases s.len(),
{
    if s.len() == 0 {
        Seq::empty()
    } else if is_digit_char(s[0]) {
        leading_digits(s)
    } else {
        digit_run(s.drop_first())
    }
}

/// The number that a digit string denotes, read in base ten.
pub open spec fn digits_value(d: Seq<char>) -> nat
    decreases d.len(),
{
    if d.len() == 0 {
        0
    } else {
        digits_value(d.drop_last()) * 10 + digit_val(d.last())
    }
}

/// The number carried by a filename: the value of its first maximal digit
/// run, or nothing when the name holds no digit.
pub open spec fn spec_numeric_content(s: Seq<char>) -> Option<nat> {
    if digit_run(s).len() == 0 {
        None
    } else {
        Some(digits_value(digit_run(s)))
    }
}

pub(crate) proof fn lemma_digit_run_skip(s: Seq<char>, i: int)
    requires
        0 <= i <= s.len(),
        forall|m: int| 0 <= m < i ==> !is_digit_char(#[trigger] s[m]),
    ensures
        digit_run(s) == digit_run(s.skip(i)),
    decreases i,
{
    if i > 0 {
        assert(s.skip(0) =~= s);
        assert(!is_digit_char(s[0]));
        assert(digit_run(s) == digit_run(s.drop_first()));
        assert(s.drop_first() =~= s.skip(1));
        lemma_digit_run_skip(s.skip(1), i - 1);
        assert(s.skip(1).skip(i - 1) =~= s.skip(i));
    } else {
        assert(s.skip(0) =~= s);
    }
}

pub(crate) proof fn lemma_leading_digits_exact(t: Seq<char>, k: int)
    requires
        0 <= k <= t.len(),
        forall|m: int| 0 <= m < k ==> is_digit_char(#[trigger] t[m]),
        k == t.len() || !is_digit_char(t[k as int]),
    ensures
        leading_digits(t) =~= t.take(k),
    decreases k,
{
    if k == 0 {
        if t.len() > 0 {
            assert(!is_digit_char(t[0]));
        }
    } else {
        assert(is_digit_char(t[0]));
        let t2 = t.drop_first();
        assert(forall|m: int| 0 <= m < k - 1 ==> is_digit_char(#[trigger] t2[m]));
        lemma_leading_digits_exact(t2, k - 1);
        assert(t.take(k) =~= seq![t[0]] + t2.take(k - 1));
    }
}

pub(crate) proof fn lemma_digits_value_step(d: Seq<char>, j: int)
    requires
        0 <= j < d.len(),
    ensures
        digits_value(d.take(j + 1)) == digits_value(d.take(j)) * 10 + digit_val(d[j]),
{
    assert(d.take(j + 1).drop_last() =~= d.take(j));
    assert(d.take(j + 1).last() == d[j]);
}

/// Locates the first maximal run of ASCII digits in `string` and reads it
/// as a number. Returns nothing when the name holds no digit; a run whose
/// value does not fit in 32 bits saturates.
pub fn get_numeric_content(string: &str) -> (r: Option<u32>)
    ensures
        r is None <==> spec_numeric_content(string@) is None,
        spec_numeric_content(string@) matches Some(v) ==> {
            &&& v <= u32::MAX ==> r == Some(v as u32)
            &&& v > u32::MAX ==> r == Some(u32::MAX)
        },
{
    let n: usize = string.unicode_len();
    let mut i: usize = 0;
    while i < n && !char_is_digit(string.get_char(i))
        invariant
            n == string@.len(),
            i <= n,
            forall|m: int| 0 <= m < i ==> !is_digit_char(#[trigger] string@[m]),
        decreases n - i,
    {
        i = i + 1;
    }
    proof {
        lemma_digit_run_skip(string@, i as int);
    }
    if i == n {
        proof {
            assert(string@.skip(n as int) =~= Seq::<char>::empty());
        }
        return None;
    }
    let ghost t = string@.skip(i as int);
    let ghost run = digit_run(string@);
    proof {
        assert(t[0] == string@[i as int]);
        assert(run == leading_digits(t));
    }
    // `t` starts with a digit, so the run is nonempty and begins at `i`.
    let i0 = i;
    let mut j: usize = i;
    let mut acc: u64 = 0;
    while j < n && char_is_digit(string.get_char(j))
        invariant
            n == string@.len(),
            i0 <= j <= n,
            t == string@.skip(i0 as int),
            run == leading_digits(t),
            is_digit_char(t[0]),
            forall|m: int| i0 <= m < j ==> is_digit_char(#[trigger] string@[m]),
            acc <= 0x1_0000_0000,
            digits_value(string@.subrange(i0 as int, j as int)) <= u32::MAX ==> acc
                == digits_value(string@.subrange(i0 as int, j as int)),
            digits_value(string@.subrange(i0 as int, j as int)) > u32::MAX ==> acc
                == 0x1_0000_0000,
        decreases n - j,
    {
        let c = string.get_char(j);
        let d: u32 = (c as u32) - 48;
        let ghost pre = string@.subrange(i0 as int, j as int);
        let ghost post = string@.subrange(i0 as int, j + 1 as int);
        proof {
            assert(post.take(post.len() - 1) =~= pre);
            assert(post.drop_last() =~= pre);
            assert(post.last() == string@[j as int]);
            assert(digits_value(post) == digits_value(pre) * 10 + digit_val(string@[j as int]));
            assert(digit_val(string@[j as int]) == d);
        }
        if acc >= 0x1_0000_0000 {
            acc = 0x1_0000_0000;
            proof {
                assert(digits_value(pre) > u32::MAX);
                assert(digits_value(post) >= digits_value(pre) * 10);
                assert(digits_value(post) > u32::MAX) by (nonlinear_arith)
                    requires
                        digits_value(post) >= digits_value(pre) * 10,
                        digits_value(pre) > u32::MAX,
                ;
            }
        } else {
            let x = acc * 10 + (d as u64);
            if x > 0xffff_ffff {
                acc = 0x1_0000_0000;
            } else {
                acc = x;
            }
        }
        j = j + 1;
    }
    proof {
        let k = (j - i0) as int;
        assert(forall|m: int| 0 <= m < k ==> is_digit_char(#[trigger] t[m]));
        if j < n {
            assert(t[k] == string@[j as int]);
        }
        lemma_leading_digits_exact(t, k);
        assert(t.take(k) =~= string@.subrange(i0 as int, j as int));
        assert(run =~= string@.subrange(i0 as int, j as int));
        assert(run.len() > 0);
    }
    if acc <= 0xffff_ffff {
        Some(acc as u32)
    } else {
        Some(u32::MAX)
    }
}

fn char_is_digit(c: char) -> (r: bool)
    ensures
        r == is_digit_char(c),
{
    '0' <= c && c <= '9'
}

/// What follows the last `:` in `s`; all of `s` when it has no `:`.
pub open spec fn after_last_colon(s: Seq<char>) -> Seq<char>
    decreases s.len(),
{
    if s.len() == 0 {
        s
    } else if s.last() == ':' {
        Seq::empty()
    } else {
        after_last_colon(s.drop_last()).push(s.last())
    }
}

/// A nonempty all-digit string read as a `usize`, or nothing when empty,
/// when a character is not a digit, or when the value does not fit.
pub open spec fn spec_parse_usize(d: Seq<char>) -> Option<usize> {
    if d.len() > 0 && (forall|m: int| 0 <= m < d.len() ==> is_digit_char(#[trigger] d[m]))
        && digits_value(d) <= usize::MAX {
        Some(digits_value(d) as usize)
    } else {
        None
    }
}

/// The port announced at the end of a readiness banner: the text after the
/// final `:`, read as a decimal number.
pub open spec fn spec_extract_port(s: Seq<char>) -> Option<usize> {
    spec_parse_usize(after_last_colon(s))
}

pub(crate) proof fn lemma_after_last_colon_no_colon(s: Seq<char>)
    requires
        forall|m: int| 0 <= m < s.len() ==> s[m] != ':',
    ensures
        after_last_colon(s) =~= s,
    decreases s.len(),
{
    if s.len() > 0 {
        lemma_after_last_colon_no_colon(s.drop_last());
        assert(s.drop_last().push(s.last()) =~= s);
    }
}

pub(crate) proof fn lemma_after_last_colon_at(s: Seq<char>, i: int)
    requires
        0 <= i < s.len(),
        s[i] == ':',
        forall|m: int| i < m < s.len() ==> s[m] != ':',
    ensures
        after_last_colon(s) =~= s.skip(i + 1),
    decreases s.len(),
{
    if i == s.len() - 1 {
        assert(s.last() == ':');
        assert(s.skip(i + 1) =~= Seq::<char>::empty());
    } else {
        assert(s.last() != ':');
        lemma_after_last_colon_at(s.drop_last(), i);
        assert(s.drop_last().skip(i + 1).push(s.last()) =~= s.skip(i + 1));
    }
}

/// Parses a nonempty all-digit `&str` region `[from, to)` as a `usize`.
fn parse_usize_region(s: &str, from: usize, to: usize) -> (r: Option<usize>)
    requires
        from <= to <= s@.len(),
    ensures
        r == spec_parse_usize(s@.subrange(from as int, to as int)),
{
    let ghost d = s@.subrange(from as int, to as int);
    if from == to {
        return None;
    }
    let mut acc: usize = 0;
    let mut k: usize = from;
    while k < to
        invariant
            from <= k <= to <= s@.len(),
            d == s@.subrange(from as int, to as int),
            forall|m: int| 0 <= m < k - from ==> is_digit_char(#[trigger] d[m]),
            acc == digits_value(d.take(k - from)),
            digits_value(d.take(k - from)) <= usize::MAX,
        decreases to - k,
    {
        let c = s.get_char(k);
        proof {
            assert(d[k - from] == s@[k as int]);
        }
        if !char_is_digit(c) {
            return None;
        }
        let dv: u32 = (c as u32) - 48;
        proof {
            lemma_digits_value_step(d, k - from);
        }
        if acc > usize::MAX / 10 || (acc == usize::MAX / 10 && (dv as usize) > usize::MAX % 10) {
            proof {
                assert(digits_value(d.take(k - from + 1)) > usize::MAX) by (nonlinear_arith)
                    requires
                        digits_value(d.take(k - from + 1)) == digits_value(d.take(k - from)) * 10
                            + digit_val(d[k - from]),
                        digits_value(d.take(k - from)) == acc,
                        digit_val(d[k - from]) == dv,
                        acc > usize::MAX / 10 || (acc == usize::MAX / 10 && dv > usize::MAX % 10),
                        usize::MAX == usize::MAX / 10 * 10 + usize::MAX % 10,
                ;
                lemma_digits_value_prefix_overflow(d, k - from + 1);
            }
            return None;
        }
        proof {
            assert(acc * 10 + dv <= usize::MAX) by (nonlinear_arith)
                requires
                    acc <= usize::MAX / 10,
                    dv <= 9,
                    acc < usize::MAX / 10 || dv <= usize::MAX % 10,
                    usize::MAX == usize::MAX / 10 * 10 + usize::MAX % 10,
            ;
        }
        acc = acc * 10 + (dv as usize);
        k = k + 1;
    }
    proof {
        assert(d.take(to - from) =~= d);
    }
    Some(acc)
}

pub(crate) proof fn lemma_digits_value_prefix_overflow(d: Seq<char>, k: int)
    requires
        0 <= k <= d.len(),
        digits_value(d.take(k)) > usize::MAX,
    ensures
        digits_value(d) > usize::MAX,
    decreases d.len() - k,
{
    if k < d.len() {
        lemma_digits_value_step(d, k);
        assert(digits_value(d.take(k + 1)) >= digits_value(d.take(k)) * 10) by (nonlinear_arith)
            requires
                digits_value(d.take(k + 1)) == digits_value(d.take(k)) * 10 + digit_val(d[k]),
        ;
        assert(digits_value(d.take(k)) * 10 >= digits_value(d.take(k))) by (nonlinear_arith);
        lemma_digits_value_prefix_overflow(d, k + 1);
    } else {
        assert(d.take(k) =~= d);
    }
}

/// Extracts the port from a process banner line: the trailing decimal
/// number after the final `:`, or nothing when that text is not a number.
pub fn extract_port(message: &str) -> (r: Option<usize>)
    ensures
        r == spec_extract_port(message@),
{
    let n: usize = message.unicode_len();
    // Find the position right after the last ':'.
    let mut start: usize = 0;
    let mut k: usize = n;
    while k > 0
        invariant
            n == message@.len(),
            start == 0,
            k <= n,
            forall|m: int| k <= m < n ==> message@[m] != ':',
        decreases k,
    {
        if message.get_char(k - 1) == ':' {
            proof {
                lemma_after_last_colon_at(message@, k - 1);
            }
            return parse_usize_region(message, k, n);
        }
        k = k - 1;
    }
    proof {
        lemma_after_last_colon_no_colon(message@);
        assert(message@.subrange(0, n as int) =~= message@);
    }
    parse_usize_region(message, start, n)
}

/// A value clamped into 32 bits.
pub open spec fn sat32(n: nat) -> u32 {
    if n <= u32::MAX {
        n as u32
    } else {
        u32::MAX
    }
}

/// Reads the run of digits at the very start of `s`: how many digits it
/// has, and its value (clamped into 32 bits) when it is nonempty.
pub fn leading_number(s: &str) -> (r: (usize, Option<u32>))
    ensures
        r.0 == leading_digits(s@).len(),
        r.1 == (if leading_digits(s@).len() == 0 {
            Option::<u32>::None
        } else {
            Option::Some(sat32(digits_value(leading_digits(s@))))
        }),
{
    let n: usize = s.unicode_len();
    let ghost run = leading_digits(s@);
    let mut j: usize = 0;
    let mut acc: u64 = 0;
    while j < n && char_is_digit(s.get_char(j))
        invariant
            n == s@.len(),
            j <= n,
            run == leading_digits(s@),
            forall|m: int| 0 <= m < j ==> is_digit_char(#[trigger] s@[m]),
            acc <= 0x1_0000_0000,
            digits_value(s@.subrange(0, j as int)) <= u32::MAX ==> acc == digits_value(
                s@.subrange(0, j as int),
            ),
            digits_value(s@.subrange(0, j as int)) > u32::MAX ==> acc == 0x1_0000_0000,
        decreases n - j,
    {
        let c = s.get_char(j);
        let d: u32 = (c as u32) - 48;
        let ghost pre = s@.subrange(0, j as int);
        let ghost post = s@.subrange(0, j + 1 as int);
        proof {
            assert(post.drop_last() =~= pre);
            assert(post.last() == s@[j as int]);
            assert(digits_value(post) == digits_value(pre) * 10 + digit_val(s@[j as int]));
        }
        if acc >= 0x1_0000_0000 {
            acc = 0x1_0000_0000;
            proof {
                assert(digits_value(post) >= digits_value(pre) * 10);
                assert(digits_value(post) > u32::MAX) by (nonlinear_arith)
                    requires
                        digits_value(post) >= digits_value(pre) * 10,
                        digits_value(pre) > u32::MAX,
                ;
            }
        } else {
            let x = acc * 10 + (d as u64);
            if x > 0xffff_ffff {
                acc = 0x1_0000_0000;
            } else {
                acc = x;
            }
        }
        j = j + 1;
    }
    proof {
        let k = j as int;
        assert(forall|m: int| 0 <= m < k ==> is_digit_char(#[trigger] s@[m]));
        if j < n {
            assert(s@[k] == s@[j as int]);
        }
        assert(s@.skip(0) =~= s@);
        lemma_leading_digits_exact(s@, k);
        assert(s@.take(k) =~= s@.subrange(0, k));
        assert(run =~= s@.subrange(0, k));
    }
    if j == 0 {
        (j, None)
    } else if acc <= 0xffff_ffff {
        (j, Some(acc as u32))
    } else {
        (j, Some(u32::MAX))
    }
}

} // verus!
