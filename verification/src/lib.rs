//! A memoized evaluator for the linearly recursive sequence whose two base
//! terms both equal one and whose every later term is the sum of the two
//! terms before it.
//!
//! Terms grow exponentially, so 64-bit arithmetic runs out shortly past
//! index 90; every evaluator here uses checked arithmetic and reports
//! `FibError::Overflow` instead of wrapping silently.
use std::collections::HashMap;
use vstd::prelude::*;

verus! {

broadcast use vstd::std_specs::hash::group_hash_axioms;

/// Term `n` of the sequence: both base terms are one, and every later term
/// is the sum of the two terms before it.
pub open spec fn fib_value(n: nat) -> nat
    decreases n,
{
    if n <= 1 {
        1
    } else {
        fib_value((n - 1) as nat) + fib_value((n - 2) as nat)
    }
}

/// The only fault an evaluation can report: the true term does not fit in
/// 64 bits.
#[derive(Clone, Copy, Debug, PartialEq, Eq, Structural)]
pub enum FibError {
    Overflow,
}

/// What an evaluator owes for index `n` under checked 64-bit arithmetic:
/// the exact term whenever it is representable, and an overflow report
/// otherwise.
pub open spec fn fib_outcome(n: nat) -> Result<u64, FibError> {
    if fib_value(n) <= u64::MAX {
        Ok(fib_value(n) as u64)
    } else {
        Err(FibError::Overflow)
    }
}

/// The sequence never decreases with the index.
pub proof fn lemma_fib_value_monotone(m: nat, n: nat)
    requires
        m <= n,
    ensures
        fib_value(m) <= fib_value(n),
    decreases n,
{
    if m < n && n >= 2 {
        lemma_fib_value_monotone(m, (n - 1) as nat);
    }
}

/// Both base terms equal one, and every later term is the sum of the two
/// terms before it.
pub proof fn lemma_recurrence(n: nat)
    ensures
        fib_value(0) == 1,
        fib_value(1) == 1,
        n >= 2 ==> fib_value(n) == fib_value((n - 1) as nat) + fib_value((n - 2) as nat),
{
}

/// Two neighbouring terms at once, by a single recursion: term `n` beside
/// term `n + 1`. Unlike `fib_value` itself this unfolds in a linear chain,
/// which lets a proof evaluate a distant term.
spec fn fib_pair(n: nat) -> (nat, nat)
    decreases n,
{
    if n == 0 {
        (1, 1)
    } else {
        let p = fib_pair((n - 1) as nat);
        (p.1, p.0 + p.1)
    }
}

proof fn lemma_fib_pair_correct(n: nat)
    ensures
        fib_pair(n).0 == fib_value(n),
        fib_pair(n).1 == fib_value(n + 1),
    decreases n,
{
    if n > 0 {
        lemma_fib_pair_correct((n - 1) as nat);
    }
}

/// Exactly the terms up to index 92 fit in 64 bits: term 92 is the largest
/// representable one, and from index 93 on every term exceeds `u64::MAX`.
#[verifier::rlimit(30)]
pub proof fn lemma_overflow_threshold(n: nat)
    ensures
        fib_value(n) <= u64::MAX <==> n <= 92,
        fib_outcome(n) is Ok <==> n <= 92,
{
    assert(fib_pair(23) == (46368nat, 75025nat)) by {
        reveal_with_fuel(fib_pair, 24);
    };
    assert(fib_pair(46) == (2971215073nat, 4807526976nat)) by {
        reveal_with_fuel(fib_pair, 24);
    };
    assert(fib_pair(69) == (190392490709135nat, 308061521170129nat)) by {
        reveal_with_fuel(fib_pair, 24);
    };
    assert(fib_pair(92) == (12200160415121876738nat, 19740274219868223167nat)) by {
        reveal_with_fuel(fib_pair, 24);
    };
    lemma_fib_pair_correct(92);
    if n <= 92 {
        lemma_fib_value_monotone(n, 92);
    } else {
        lemma_fib_value_monotone(93, n);
    }
}

/// A cache is sound when every entry records the true term for its index.
pub open spec fn cache_ok(m: Map<u64, u64>) -> bool {
    forall|k: u64| #[trigger] m.contains_key(k) ==> m[k] == fib_value(k as nat)
}

/// Computes term `n` bottom up, with checked arithmetic.
pub fn fib(n: u64) -> (r: Result<u64, FibError>)
    ensures
        r == fib_outcome(n as nat),
{
    if n <= 1 {
        return Ok(1);
    }
    let mut a: u64 = 1;
    let mut b: u64 = 1;
    let mut i: u64 = 1;
    while i < n
        invariant
            1 <= i <= n,
            a == fib_value((i - 1) as nat),
            b == fib_value(i as nat),
        decreases n - i,
    {
        let next: u64 = match a.checked_add(b) {
            Some(v) => v,
            None => {
                proof {
                    lemma_fib_value_monotone((i + 1) as nat, n as nat);
                }
                return Err(FibError::Overflow);
            },
        };
        a = b;
        b = next;
        i = i + 1;
    }
    Ok(b)
}

/// Computes term `n` through a caller-supplied cache: a cached index is
/// answered by lookup alone, an uncached one is computed recursively and
/// recorded. The result never depends on what the cache already held, the
/// cache only gains entries, and a query the cache can already answer
/// leaves it untouched.
pub fn fast_fib(n: u64, map: &mut HashMap<u64, u64>) -> (r: Result<u64, FibError>)
    requires
        cache_ok(old(map)@),
    ensures
        r == fib_outcome(n as nat),
        cache_ok(final(map)@),
        forall|k: u64| #[trigger] old(map)@.contains_key(k) ==> final(map)@.contains_key(k)
            && final(map)@[k] == old(map)@[k],
        n <= 1 || old(map)@.contains_key(n) ==> final(map)@ == old(map)@,
        r is Ok && n >= 2 ==> final(map)@.contains_key(n),
    decreases n,
{
    if n <= 1 {
        Ok(1)
    } else if map.contains_key(&n) {
        let v: u64 = *map.get(&n).unwrap();
        Ok(v)
    } else {
        let a: u64 = match fast_fib(n - 1, map) {
            Ok(v) => v,
            Err(e) => {
                return Err(e);
            },
        };
        let b: u64 = match fast_fib(n - 2, map) {
            Ok(v) => v,
            Err(e) => {
                return Err(e);
            },
        };
        match a.checked_add(b) {
            Some(v) => {
                map.insert(n, v);
                Ok(v)
            },
            None => Err(FibError::Overflow),
        }
    }
}

} // verus!
