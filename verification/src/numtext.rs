//! Decimal text: parsing and formatting of 64-bit integers, and the
//! lexical grammar of 64-bit float literals.
//!
//! The delimited text codec stores every value as bytes, so the crate
//! needs an exact account of which byte strings denote integers and
//! floats and of the integer round trip. Float text is never evaluated
//! here: only its grammar is decided, and the text itself is carried
//! through the core unchanged.

use vstd::prelude::*;

verus! {

/// Is `b` an ASCII decimal digit?
pub open spec fn is_digit(b: u8) -> bool {
    48 <= b <= 57
}

/// The integer value of a digit sequence (most significant first).
pub open spec fn digits_value(s: Seq<u8>) -> int
    decreases s.len(),
{
    if s.len() == 0 {
        0
    } else {
        digits_value(s.drop_last()) * 10 + (s.last() - 48)
    }
}

/// Is every byte of `s` a digit?
pub open spec fn all_digits(s: Seq<u8>) -> bool {
    forall|i: int| 0 <= i < s.len() ==> is_digit(#[trigger] s[i])
}

/// The digit part of an integer literal: the text after an optional
/// leading sign.
pub open spec fn int_digits_part(s: Seq<u8>) -> Seq<u8> {
    if s.len() > 0 && (s[0] == 43 || s[0] == 45) {
        s.drop_first()
    } else {
        s
    }
}

/// Does `s` denote a signed 64-bit integer: an optional `+` or `-`
/// sign, one or more digits, and a value in range?
pub open spec fn is_int_text(s: Seq<u8>) -> bool {
    let digits = int_digits_part(s);
    &&& digits.len() > 0
    &&& all_digits(digits)
    &&& if s.len() > 0 && s[0] == 45 {
        -digits_value(digits) >= i64::MIN
    } else {
        digits_value(digits) <= i64::MAX
    }
}

/// The value denoted by an integer literal.
pub open spec fn int_text_value(s: Seq<u8>) -> int {
    if s.len() > 0 && s[0] == 45 {
        -digits_value(int_digits_part(s))
    } else {
        digits_value(int_digits_part(s))
    }
}

proof fn lemma_digits_value_nonneg(s: Seq<u8>)
    requires
        all_digits(s),
    ensures
        digits_value(s) >= 0,
    decreases s.len(),
{
    if s.len() > 0 {
        assert(all_digits(s.drop_last()));
        lemma_digits_value_nonneg(s.drop_last());
    }
}

/// A prefix of a digit sequence denotes no more than the whole.
proof fn lemma_digits_value_prefix_le(s: Seq<u8>, n: int)
    requires
        all_digits(s),
        0 <= n <= s.len(),
    ensures
        digits_value(s.take(n)) <= digits_value(s),
    decreases s.len() - n,
{
    if n < s.len() {
        lemma_digits_value_prefix_le(s, n + 1);
        assert(all_digits(s.take(n)));
        lemma_digits_value_nonneg(s.take(n));
        assert(s.take(n + 1).drop_last() =~= s.take(n));
        assert(digits_value(s.take(n + 1)) == digits_value(s.take(n)) * 10 + (s[n] - 48));
    } else {
        assert(s.take(n) =~= s);
    }
}

/// Parse a signed 64-bit integer from decimal text.
///
/// Returns the value exactly when the text is a well-formed in-range
/// integer literal.
pub fn parse_i64(s: &[u8]) -> (r: Option<i64>)
    ensures
        r is Some <==> is_int_text(s@),
        r is Some ==> r->0 == int_text_value(s@),
{
    let n: usize = s.len();
    if n == 0 {
        return None;
    }
    let neg: bool = s[0] == 45;
    let start: usize = if s[0] == 45 || s[0] == 43 {
        1
    } else {
        0
    };
    proof {
        assert(int_digits_part(s@) =~= s@.subrange(start as int, n as int));
    }
    if start == n {
        return None;
    }
    // Magnitude bound: 2^63 for negative values, 2^63 - 1 otherwise.
    let limit: u64 = if neg {
        9223372036854775808
    } else {
        9223372036854775807
    };
    let mut acc: u64 = 0;
    let mut i: usize = start;
    while i < n
        invariant
            start <= i <= n,
            n == s@.len(),
            start < n,
            start <= 1,
            neg <==> s@[0] == 45,
            limit == if neg {
                9223372036854775808u64
            } else {
                9223372036854775807u64
            },
            int_digits_part(s@) =~= s@.subrange(start as int, n as int),
            all_digits(s@.subrange(start as int, i as int)),
            acc == digits_value(s@.subrange(start as int, i as int)),
            acc <= limit,
        decreases n - i,
    {
        let b = s[i];
        if b < 48 || b > 57 {
            proof {
                assert(int_digits_part(s@)[i - start] == s@[i as int]);
                assert(!is_digit(s@[i as int]));
            }
            return None;
        }
        let d: u64 = (b - 48) as u64;
        proof {
            let pre = s@.subrange(start as int, i as int + 1);
            assert(pre.drop_last() =~= s@.subrange(start as int, i as int));
            assert(all_digits(pre));
            assert(digits_value(pre) == acc * 10 + d);
        }
        if acc > 922337203685477580 || (acc == 922337203685477580 && d > limit % 10) {
            // The value read so far already overflows, and later digits
            // can only grow it, so no in-range literal remains possible.
            proof {
                if is_int_text(s@) {
                    let whole = int_digits_part(s@);
                    let pre = s@.subrange(start as int, i as int + 1);
                    assert(pre =~= whole.take(i + 1 - start));
                    lemma_digits_value_prefix_le(whole, i + 1 - start);
                    assert(digits_value(whole) > limit);
                    assert(false);
                }
            }
            return None;
        }
        acc = acc * 10 + d;
        proof {
            let pre = s@.subrange(start as int, i as int + 1);
            assert(pre.drop_last() =~= s@.subrange(start as int, i as int));
        }
        i = i + 1;
    }
    proof {
        assert(s@.subrange(start as int, n as int) =~= int_digits_part(s@));
    }
    if neg {
        let v: i64 = if acc == 9223372036854775808 {
            i64::MIN
        } else {
            -(acc as i64)
        };
        Some(v)
    } else {
        Some(acc as i64)
    }
}

/// The end of the digit run starting at `i`: the first position at or
/// after `i` holding a non-digit, or the length.
pub open spec fn digits_run_end(s: Seq<u8>, i: int) -> int
    decreases s.len() - i,
{
    if i < 0 || i >= s.len() {
        i
    } else if is_digit(s[i]) {
        digits_run_end(s, i + 1)
    } else {
        i
    }
}

proof fn lemma_digits_run_end(s: Seq<u8>, i: int)
    requires
        0 <= i <= s.len(),
    ensures
        i <= digits_run_end(s, i) <= s.len(),
        forall|k: int| i <= k < digits_run_end(s, i) ==> is_digit(#[trigger] s[k]),
        digits_run_end(s, i) < s.len() ==> !is_digit(s[digits_run_end(s, i)]),
    decreases s.len() - i,
{
    if i < s.len() && is_digit(s[i]) {
        lemma_digits_run_end(s, i + 1);
    }
}

/// Find the end of a digit run, walking the bytes.
fn digits_run_end_at(s: &[u8], i: usize) -> (r: usize)
    requires
        i <= s@.len(),
    ensures
        r == digits_run_end(s@, i as int),
{
    let n: usize = s.len();
    let mut j: usize = i;
    while j < n && s[j] >= 48 && s[j] <= 57
        invariant
            i <= j <= n,
            n == s@.len(),
            digits_run_end(s@, i as int) == digits_run_end(s@, j as int),
        decreases n - j,
    {
        j = j + 1;
    }
    j
}

/// ASCII lower-casing of one byte.
pub open spec fn lower_byte(b: u8) -> u8 {
    if 65 <= b <= 90 {
        (b + 32) as u8
    } else {
        b
    }
}

/// Case-insensitive match of `s` from `i` against all of `word`.
pub open spec fn matches_word(s: Seq<u8>, i: int, word: Seq<u8>) -> bool {
    &&& s.len() - i == word.len()
    &&& forall|k: int| 0 <= k < word.len() ==> lower_byte(s[i + k]) == word[k]
}

/// The exponent part: `e` or `E`, an optional sign, one or more digits,
/// reaching the end of the text.
pub open spec fn is_exp_part(s: Seq<u8>, i: int) -> bool {
    &&& 0 <= i < s.len()
    &&& (lower_byte(s[i]) == 101)
    &&& {
        let k: int = if i + 1 < s.len() && (s[i + 1] == 43 || s[i + 1] == 45) {
            i + 2
        } else {
            i + 1
        };
        &&& s.len() > k
        &&& digits_run_end(s, k) == s.len()
    }
}

/// The number part from `i` to the end: digits with at most one dot and
/// at least one digit, then an optional exponent.
pub open spec fn is_number_part(s: Seq<u8>, i: int) -> bool {
    let j1 = digits_run_end(s, i);
    if j1 == s.len() {
        j1 > i
    } else if s[j1] == 46 {
        let j2 = digits_run_end(s, j1 + 1);
        &&& (j1 - i) + (j2 - j1 - 1) >= 1
        &&& (j2 == s.len() || is_exp_part(s, j2))
    } else {
        &&& j1 > i
        &&& is_exp_part(s, j1)
    }
}

/// The lexical grammar of 64-bit float literals: an optional sign, then
/// `inf`, `infinity` or `nan` (case-insensitive), or a decimal number
/// with optional fraction and exponent.
pub open spec fn is_float_text(s: Seq<u8>) -> bool {
    let i: int = if s.len() > 0 && (s[0] == 43 || s[0] == 45) {
        1
    } else {
        0
    };
    ||| matches_word(s, i, seq![105u8, 110u8, 102u8])
    ||| matches_word(s, i, seq![105u8, 110u8, 102u8, 105u8, 110u8, 105u8, 116u8, 121u8])
    ||| matches_word(s, i, seq![110u8, 97u8, 110u8])
    ||| is_number_part(s, i)
}

fn matches_word_at(s: &[u8], i: usize, word: &Vec<u8>) -> (r: bool)
    requires
        i <= s@.len(),
    ensures
        r == matches_word(s@, i as int, word@),
{
    let n: usize = s.len();
    let w: usize = word.len();
    if n - i != w {
        return false;
    }
    for k in 0..w
        invariant
            n == s@.len(),
            w == word@.len(),
            i + w <= n,
            forall|j: int| 0 <= j < k ==> lower_byte(s@[i + j]) == word@[j],
    {
        let b = s[i + k];
        let lb: u8 = if b >= 65 && b <= 90 {
            b + 32
        } else {
            b
        };
        if lb != word[k] {
            return false;
        }
    }
    true
}

fn is_exp_part_at(s: &[u8], i: usize) -> (r: bool)
    requires
        i <= s@.len(),
    ensures
        r == is_exp_part(s@, i as int),
{
    let n: usize = s.len();
    if i >= n {
        return false;
    }
    let b = s[i];
    let lb: u8 = if b >= 65 && b <= 90 {
        b + 32
    } else {
        b
    };
    if lb != 101 {
        return false;
    }
    let k: usize = if i + 1 < n && (s[i + 1] == 43 || s[i + 1] == 45) {
        i + 2
    } else {
        i + 1
    };
    let j = digits_run_end_at(s, k);
    j == n && n > k
}

/// Decide the float-literal grammar for a byte string.
pub fn is_float_text_at(s: &[u8]) -> (r: bool)
    ensures
        r == is_float_text(s@),
{
    let n: usize = s.len();
    let i: usize = if n > 0 && (s[0] == 43 || s[0] == 45) {
        1
    } else {
        0
    };
    let inf: Vec<u8> = vec![105, 110, 102];
    let infinity: Vec<u8> = vec![105, 110, 102, 105, 110, 105, 116, 121];
    let nan: Vec<u8> = vec![110, 97, 110];
    proof {
        assert(inf@ =~= seq![105u8, 110u8, 102u8]);
        assert(infinity@ =~= seq![105u8, 110u8, 102u8, 105u8, 110u8, 105u8, 116u8, 121u8]);
        assert(nan@ =~= seq![110u8, 97u8, 110u8]);
    }
    if matches_word_at(s, i, &inf) {
        return true;
    }
    if matches_word_at(s, i, &infinity) {
        return true;
    }
    if matches_word_at(s, i, &nan) {
        return true;
    }
    // Number part.
    let j1 = digits_run_end_at(s, i);
    proof {
        lemma_digits_run_end(s@, i as int);
    }
    if j1 == n {
        return j1 > i;
    }
    if s[j1] == 46 {
        let j2 = digits_run_end_at(s, j1 + 1);
        proof {
            lemma_digits_run_end(s@, j1 as int + 1);
        }
        if (j1 - i) + (j2 - (j1 + 1)) < 1 {
            return false;
        }
        if j2 == n {
            return true;
        }
        return is_exp_part_at(s, j2);
    }
    if j1 == i {
        return false;
    }
    is_exp_part_at(s, j1)
}

/// The canonical decimal digits of a non-negative integer.
pub open spec fn digits_of(n: int) -> Seq<u8>
    decreases n,
{
    if n < 10 {
        seq![(n + 48) as u8]
    } else {
        digits_of(n / 10).push((n % 10 + 48) as u8)
    }
}

/// The canonical decimal text of a signed 64-bit integer.
pub open spec fn int_text_of(v: int) -> Seq<u8> {
    if v < 0 {
        seq![45u8] + digits_of(-v)
    } else {
        digits_of(v)
    }
}

/// Canonical digits are digits and denote the number they came from.
pub proof fn lemma_digits_of_value(n: int)
    requires
        n >= 0,
    ensures
        digits_of(n).len() > 0,
        all_digits(digits_of(n)),
        digits_value(digits_of(n)) == n,
    decreases n,
{
    if n < 10 {
        assert((n + 48) as u8 == n + 48);
        assert(seq![(n + 48) as u8].drop_last() =~= Seq::<u8>::empty());
        assert(digits_value(seq![(n + 48) as u8]) == digits_value(Seq::<u8>::empty()) * 10 + ((n
            + 48) - 48));
    } else {
        lemma_digits_of_value(n / 10);
        assert(digits_of(n).drop_last() =~= digits_of(n / 10));
        assert(forall|i: int|
            0 <= i < digits_of(n).len() ==> is_digit(#[trigger] digits_of(n)[i]));
    }
}

/// The integer round trip: canonical text parses back to the value.
pub proof fn lemma_int_text_round_trip(v: int)
    requires
        i64::MIN <= v <= i64::MAX,
    ensures
        is_int_text(int_text_of(v)),
        int_text_value(int_text_of(v)) == v,
{
    if v < 0 {
        lemma_digits_of_value(-v);
        assert(int_digits_part(int_text_of(v)) =~= digits_of(-v));
        assert(int_text_of(v)[0] == 45);
    } else {
        lemma_digits_of_value(v);
        assert(is_digit(digits_of(v)[0]));
        assert(int_digits_part(int_text_of(v)) =~= digits_of(v));
    }
}

/// Format an unsigned 64-bit integer as canonical decimal digits.
pub fn format_u64(v: u64) -> (r: Vec<u8>)
    ensures
        r@ == digits_of(v as int),
{
    let mut m: u64 = v;
    let mut rev: Vec<u8> = Vec::new();
    if m == 0 {
        rev.push(48);
    } else {
        while m > 0
            invariant
                m >= 0,
                all_digits(rev@),
                rebuilt_value(rev@, m as int) == v as int,
                m == 0 ==> rev@.len() > 0 && rev@.last() != 48,
                m > 0 || rev@.len() > 0,
            decreases m,
        {
            let d: u8 = (m % 10) as u8;
            let ghost old_rev = rev@;
            let ghost old_m = m as int;
            rev.push(d + 48);
            m = m / 10;
            proof {
                lemma_rebuilt_push(old_rev, (d + 48) as u8, m as int);
                assert((m as int) * 10 + ((d + 48) - 48) == old_m);
                if m == 0 {
                    assert(old_m < 10);
                    assert(d + 48 != 48);
                    assert(rev@.last() == d + 48);
                }
            }
        }
    }
    let ghost revsnap = rev@;
    proof {
        if v == 0 {
            assert(revsnap =~= seq![48u8]);
            assert(revsnap.reverse() =~= digits_of(0));
        } else {
            lemma_rev_digits_canonical(revsnap, v as int);
        }
    }
    let mut out: Vec<u8> = Vec::new();
    let mut k: usize = rev.len();
    while k > 0
        invariant
            k <= rev@.len(),
            rev@ == revsnap,
            out@ =~= revsnap.subrange(k as int, revsnap.len() as int).reverse(),
        decreases k,
    {
        k = k - 1;
        out.push(rev[k]);
        proof {
            assert(revsnap.subrange(k as int, revsnap.len() as int).reverse() =~= revsnap.subrange(
                k as int + 1,
                revsnap.len() as int,
            ).reverse().push(revsnap[k as int]));
        }
    }
    proof {
        assert(revsnap.subrange(0, revsnap.len() as int) =~= revsnap);
        assert(out@ == digits_of(v as int));
    }
    out
}

/// The value rebuilt from a least-significant-first digit vector `rev`
/// with high part `m`.
spec fn rebuilt_value(rev: Seq<u8>, m: int) -> int
    decreases rev.len(),
{
    if rev.len() == 0 {
        m
    } else {
        rebuilt_value(rev.drop_first(), m) * 10 + (rev.first() - 48)
    }
}

proof fn lemma_rebuilt_push(rev: Seq<u8>, d: u8, m: int)
    ensures
        rebuilt_value(rev.push(d), m) == rebuilt_value(rev, m * 10 + (d - 48)),
    decreases rev.len(),
{
    if rev.len() == 0 {
        assert(rev.push(d).drop_first() =~= Seq::<u8>::empty());
        assert(rev.push(d).first() == d);
        assert(rebuilt_value(rev.push(d), m) == rebuilt_value(rev.push(d).drop_first(), m) * 10 + (
        rev.push(d).first() - 48));
        assert(rebuilt_value(rev, m * 10 + (d - 48)) == m * 10 + (d - 48));
    } else {
        assert(rev.push(d).drop_first() =~= rev.drop_first().push(d));
        assert(rev.push(d).first() == rev.first());
        lemma_rebuilt_push(rev.drop_first(), d, m);
        assert(rebuilt_value(rev.push(d), m) == rebuilt_value(rev.push(d).drop_first(), m) * 10 + (
        rev.push(d).first() - 48));
        assert(rebuilt_value(rev, m * 10 + (d - 48)) == rebuilt_value(
            rev.drop_first(),
            m * 10 + (d - 48),
        ) * 10 + (rev.first() - 48));
    }
}

proof fn lemma_rebuilt_zero_all_zero(rev: Seq<u8>)
    requires
        all_digits(rev),
        rebuilt_value(rev, 0) == 0,
    ensures
        forall|i: int| 0 <= i < rev.len() ==> rev[i] == 48,
    decreases rev.len(),
{
    if rev.len() > 0 {
        assert(all_digits(rev.drop_first()));
        lemma_rebuilt_nonneg(rev.drop_first());
        assert(rebuilt_value(rev.drop_first(), 0) == 0);
        lemma_rebuilt_zero_all_zero(rev.drop_first());
        assert(rev.first() == 48);
        assert(forall|i: int| 1 <= i < rev.len() ==> rev[i] == rev.drop_first()[i - 1]);
    }
}

proof fn lemma_rebuilt_nonneg(rev: Seq<u8>)
    requires
        all_digits(rev),
    ensures
        rebuilt_value(rev, 0) >= 0,
    decreases rev.len(),
{
    if rev.len() > 0 {
        assert(all_digits(rev.drop_first()));
        lemma_rebuilt_nonneg(rev.drop_first());
    }
}

/// A least-significant-first digit vector without a zero top digit
/// reverses to the canonical digit sequence of its value.
proof fn lemma_rev_digits_canonical(rev: Seq<u8>, mag: int)
    requires
        rev.len() > 0,
        all_digits(rev),
        rebuilt_value(rev, 0) == mag,
        rev.len() == 1 || rev.last() != 48,
    ensures
        rev.reverse() =~= digits_of(mag),
    decreases rev.len(),
{
    lemma_rebuilt_nonneg(rev);
    let tail = rev.drop_first();
    assert(all_digits(tail));
    lemma_rebuilt_nonneg(tail);
    let high = rebuilt_value(tail, 0);
    let d0: int = rev.first() - 48;
    assert(mag == high * 10 + d0);
    if rev.len() == 1 {
        assert(mag == d0);
        assert(digits_of(mag) =~= seq![(mag + 48) as u8]);
        assert(rev.reverse() =~= seq![rev.first()]);
    } else {
        assert(tail.last() == rev.last());
        if high == 0 {
            lemma_rebuilt_zero_all_zero(tail);
            assert(tail[tail.len() - 1] == 48);
            assert(false);
        }
        assert(mag / 10 == high && mag % 10 == d0) by (nonlinear_arith)
            requires
                mag == high * 10 + d0,
                0 <= d0 < 10,
                high > 0,
        ;
        lemma_rev_digits_canonical(tail, high);
        assert(digits_of(mag) =~= digits_of(high).push((d0 + 48) as u8));
        assert((d0 + 48) as u8 == rev.first());
        assert(rev.reverse() =~= tail.reverse().push(rev.first()));
    }
}

/// Format a signed 64-bit integer as canonical decimal text.
pub fn format_i64(v: i64) -> (r: Vec<u8>)
    ensures
        r@ == int_text_of(v as int),
{
    let neg: bool = v < 0;
    let ghost mag: int = if neg {
        -(v as int)
    } else {
        v as int
    };
    let mut m: u64 = if v < 0 {
        (-(v as i128)) as u64
    } else {
        v as u64
    };
    let mut rev: Vec<u8> = Vec::new();
    if m == 0 {
        rev.push(48);
    } else {
        while m > 0
            invariant
                m >= 0,
                all_digits(rev@),
                rebuilt_value(rev@, m as int) == mag,
                m == 0 ==> rev@.len() > 0 && rev@.last() != 48,
                m > 0 || rev@.len() > 0,
            decreases m,
        {
            let d: u8 = (m % 10) as u8;
            let ghost old_rev = rev@;
            let ghost old_m = m as int;
            rev.push(d + 48);
            m = m / 10;
            proof {
                lemma_rebuilt_push(old_rev, (d + 48) as u8, m as int);
                assert((m as int) * 10 + ((d + 48) - 48) == old_m);
                if m == 0 {
                    assert(old_m < 10);
                    assert(d + 48 != 48);
                    assert(rev@.last() == d + 48);
                }
            }
        }
    }
    let ghost revsnap = rev@;
    proof {
        if mag == 0 {
            assert(revsnap =~= seq![48u8]);
            assert(revsnap.reverse() =~= digits_of(0));
        } else {
            lemma_rev_digits_canonical(revsnap, mag);
        }
    }
    let mut out: Vec<u8> = Vec::new();
    if neg {
        out.push(45);
    }
    let ghost base = out@;
    let mut k: usize = rev.len();
    while k > 0
        invariant
            k <= rev@.len(),
            rev@ == revsnap,
            out@ =~= base + revsnap.subrange(k as int, revsnap.len() as int).reverse(),
        decreases k,
    {
        k = k - 1;
        out.push(rev[k]);
        proof {
            assert(revsnap.subrange(k as int, revsnap.len() as int).reverse() =~= revsnap.subrange(
                k as int + 1,
                revsnap.len() as int,
            ).reverse().push(revsnap[k as int]));
        }
    }
    proof {
        assert(revsnap.subrange(0, revsnap.len() as int) =~= revsnap);
        assert(revsnap.reverse() =~= digits_of(mag));
        if neg {
            assert(out@ =~= seq![45u8] + digits_of(mag));
        } else {
            assert(out@ =~= digits_of(mag));
        }
    }
    out
}

} // verus!
