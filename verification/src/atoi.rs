use vstd::prelude::*;
use vstd::arithmetic::div_mod::{lemma_add_mod_noop, lemma_fundamental_div_mod_converse, lemma_mul_mod_noop_left, lemma_small_mod};
use vstd::slice::slice_index_get;

verus! {

/// A byte is an ASCII decimal digit.
pub open spec fn is_ascii_digit(c: u8) -> bool {
    48 <= c <= 57
}

/// Numeric value of a run of ASCII digits, most significant first.
pub open spec fn dec_value(s: Seq<u8>) -> nat
    recommends
        forall|i: int| 0 <= i < s.len() ==> is_ascii_digit(s[i]),
    decreases s.len(),
{
    if s.len() == 0 {
        0
    } else {
        (dec_value(s.drop_last()) * 10 + (s.last() - 48)) as nat
    }
}

/// Length of the longest all-digit prefix of a byte run.
pub open spec fn digit_prefix_len(s: Seq<u8>) -> nat
    decreases s.len(),
{
    if s.len() == 0 || !is_ascii_digit(s[0]) {
        0
    } else {
        (1 + digit_prefix_len(s.drop_first())) as nat
    }
}

/// Reduction modulo the number of `usize` values; the scanner accumulates
/// with wrapping arithmetic, so an overlong digit run wraps around.
pub open spec fn usize_wrap(n: nat) -> nat {
    n % (usize::MAX as nat + 1)
}

/// What the decimal-prefix scanner returns: no value when the run does not
/// start with a digit, otherwise the value of the longest digit prefix,
/// wrapped to the machine word.
pub open spec fn atoi_spec(s: Seq<u8>) -> Option<usize> {
    if s.len() == 0 || !is_ascii_digit(s[0]) {
        None
    } else {
        Some(usize_wrap(dec_value(s.take(digit_prefix_len(s) as int))) as usize)
    }
}

proof fn lemma_digit_prefix_len_char(s: Seq<u8>, n: int)
    requires
        0 <= n <= s.len(),
        forall|j: int| 0 <= j < n ==> is_ascii_digit(s[j]),
        n == s.len() || !is_ascii_digit(s[n]),
    ensures
        digit_prefix_len(s) == n,
    decreases s.len(),
{
    if n == 0 {
    } else {
        assert(is_ascii_digit(s[0]));
        let t = s.drop_first();
        assert(forall|j: int| 0 <= j < n - 1 ==> is_ascii_digit(#[trigger] t[j])) by {
            assert(forall|j: int| 0 <= j < n - 1 ==> #[trigger] t[j] == s[j + 1]);
        }
        assert(n - 1 == t.len() || !is_ascii_digit(t[n - 1]));
        lemma_digit_prefix_len_char(t, n - 1);
    }
}

/// Parses an unsigned integer from the front of a byte run, stopping at the
/// first non-digit; returns no value if no digits are present.
pub fn atoi_usize(s: &[u8]) -> (r: Option<usize>)
    ensures
        r == atoi_spec(s@),
{
    let len = s.len();
    let mut n: usize = 0;
    let mut stop: bool = false;
    while n < len && !stop
        invariant
            n <= len,
            len == s@.len(),
            forall|j: int| 0 <= j < n ==> is_ascii_digit(s@[j]),
            stop ==> n < len && !is_ascii_digit(s@[n as int]),
        decreases len - n + (if stop { 0int } else { 1int }),
    {
        let c = *slice_index_get(s, n);
        if 48 <= c && c <= 57 {
            n += 1;
        } else {
            stop = true;
        }
    }
    proof {
        lemma_digit_prefix_len_char(s@, n as int);
    }
    if n == 0 {
        return None;
    }
    let mut acc: usize = 0;
    let mut i: usize = 0;
    proof {
        assert(s@.take(0).len() == 0);
        lemma_small_mod(0, usize::MAX as nat + 1);
    }
    while i < n
        invariant
            i <= n,
            n <= len,
            len == s@.len(),
            forall|j: int| 0 <= j < n ==> is_ascii_digit(s@[j]),
            acc == usize_wrap(dec_value(s@.take(i as int))),
        decreases n - i,
    {
        let c = *slice_index_get(s, i);
        let ghost v: int = dec_value(s@.take(i as int)) as int;
        let ghost d: int = c - 48;
        acc = acc.wrapping_mul(10).wrapping_add((c - 48) as usize);
        proof {
            let m: int = usize::MAX as int + 1;
            let t: int = (v % m) * 10 % m;
            vstd::arithmetic::div_mod::lemma_mod_bound((v % m) * 10, m);
            assert(0 <= t < m && 0 <= d < m);
            if t + d > usize::MAX as int {
                lemma_fundamental_div_mod_converse(t + d, m, 1, t + d - m);
            } else {
                lemma_small_mod((t + d) as nat, m as nat);
            }
            assert(acc == (t + d) % m);
            lemma_mul_mod_noop_left(v, 10, m);
            lemma_small_mod(d as nat, m as nat);
            lemma_add_mod_noop(v * 10, d, m);
            assert(acc == (v * 10 + d) % m);
            assert(s@.take(i + 1).drop_last() =~= s@.take(i as int));
            assert(s@.take(i + 1).last() == c);
            assert(dec_value(s@.take(i + 1)) == v * 10 + d);
        }
        i += 1;
    }
    Some(acc)
}

} // verus!
