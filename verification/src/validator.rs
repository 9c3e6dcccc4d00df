//! Validation of a built filter against the corpus it was built from: that
//! it misses no key, and that it answers random keys with true no more
//! often than the corpus's share of all keys lets expect.

use vstd::prelude::*;
use crate::password_filter::{FilterView, PasswordFilter};
use crate::random::{random_key, thread_generator};

verus! {

/// The number of random keys that a validation draws by default.
pub const TEST_ITERATIONS: u64 = 10_000_000_000;

/// The number of all 64-bit keys.
pub open spec fn key_space() -> int {
    0x1_0000_0000_0000_0000
}

/// Why a filter failed its validation.
#[derive(Clone, Copy, Debug, PartialEq, Eq, Structural)]
pub enum ValidationError {
    /// The filter answers false for this key of the corpus.
    FalseNegative { key: u64 },
    /// Of the random keys drawn, this many were answered with true: more
    /// than the tolerance allows.
    FalsePositiveRate { positives: u64 },
}

/// Whether the filter holds each of the first `n` keys.
pub open spec fn holds_first(filter: FilterView, keys: Seq<u64>, n: int) -> bool {
    forall|j: int| 0 <= j < n ==> filter.contains(#[trigger] keys[j])
}

/// The first key that the filter does not hold, by its place.
pub fn first_missing(filter: &PasswordFilter, keys: &Vec<u64>) -> (r: Option<usize>)
    ensures
        match r {
            Some(i) => i < keys@.len() && !filter@.contains(keys@[i as int]) && holds_first(
                filter@,
                keys@,
                i as int,
            ),
            None => filter@.contains_all(keys@),
        },
{
    let mut i: usize = 0;
    while i < keys.len()
        invariant
            i <= keys.len(),
            holds_first(filter@, keys@, i as int),
        decreases keys.len() - i,
    {
        if !filter.contains(&keys[i]) {
            return Some(i);
        }
        i = i + 1;
    }
    None
}

/// How many of the first `n` keys of `samples` the filter holds.
pub open spec fn positives_among(filter: FilterView, samples: Seq<u64>, n: nat) -> nat
    decreases n,
{
    if n == 0 {
        0
    } else {
        positives_among(filter, samples, (n - 1) as nat) + if filter.contains(samples[n - 1]) {
            1nat
        } else {
            0nat
        }
    }
}

/// How many of the given keys the filter answers with true.
pub fn count_positives(filter: &PasswordFilter, samples: &Vec<u64>) -> (r: usize)
    ensures
        r == positives_among(filter@, samples@, samples@.len()),
{
    let mut count: usize = 0;
    let mut i: usize = 0;
    while i < samples.len()
        invariant
            i <= samples.len(),
            count == positives_among(filter@, samples@, i as nat),
            count <= i,
        decreases samples.len() - i,
    {
        if filter.contains(&samples[i]) {
            count = count + 1;
        }
        i = i + 1;
    }
    count
}

/// Draws `iterations` random keys, whichever chance gives, and counts the
/// positives among them: a filter without slots has none.
pub fn sample_positives(filter: &PasswordFilter, iterations: u64) -> (r: u64)
    ensures
        r <= iterations,
        exists|drawn: Seq<u64>|
            drawn.len() == iterations && r == #[trigger] positives_among(
                filter@,
                drawn,
                iterations as nat,
            ),
        filter@.table.len() == 0 ==> r == 0,
{
    let mut generator = thread_generator();
    let mut positives: u64 = 0;
    let mut i: u64 = 0;
    let ghost mut drawn: Seq<u64> = Seq::empty();
    while i < iterations
        invariant
            positives <= i <= iterations,
            drawn.len() == i,
            positives == positives_among(filter@, drawn, i as nat),
            filter@.table.len() == 0 ==> positives == 0,
        decreases iterations - i,
    {
        let key: u64 = random_key(&mut generator);
        proof {
            lemma_positives_of_prefix(filter@, drawn, drawn.push(key), i as nat);
            drawn = drawn.push(key);
        }
        if filter.contains(&key) {
            positives = positives + 1;
        }
        i = i + 1;
    }
    positives
}

/// The count among the first `n` keys is the same for two lists that agree
/// on their first `n` keys.
pub proof fn lemma_positives_of_prefix(filter: FilterView, a: Seq<u64>, b: Seq<u64>, n: nat)
    requires
        n <= a.len(),
        n <= b.len(),
        forall|j: int| 0 <= j < n ==> a[j] == b[j],
    ensures
        positives_among(filter, a, n) == positives_among(filter, b, n),
    decreases n,
{
    if n > 0 {
        lemma_positives_of_prefix(filter, a, b, (n - 1) as nat);
    }
}

/// Whether `positives` out of `iterations` random keys are too many for a
/// corpus of `corpus_length` keys: whether the share of positives, in
/// percent, exceeds the corpus's share of all keys, in percent, by more
/// than 0.001. Stated without fractions, both sides multiplied by a
/// thousand, by `iterations` and by the number of all keys.
pub open spec fn rate_exceeds(positives: int, iterations: int, corpus_length: int) -> bool {
    100_000 * (positives * key_space() - corpus_length * iterations) > iterations * key_space()
}

/// Whether `positives` out of `iterations` random keys are too many for a
/// corpus of `corpus_length` keys.
pub fn exceeds_expected_rate(positives: u64, iterations: u64, corpus_length: u64) -> (r: bool)
    ensures
        r == rate_exceeds(positives as int, iterations as int, corpus_length as int),
{
    let space: u128 = 0x1_0000_0000_0000_0000;
    let scaled: u128 = 100_000 * (corpus_length as u128);
    let high: u128 = scaled / space;
    let low: u128 = scaled % space;
    let n: u128 = iterations as u128;
    assert(low * n <= 0xFFFF_FFFF_FFFF_FFFF * 0xFFFF_FFFF_FFFF_FFFF) by (nonlinear_arith)
        requires
            low <= 0xFFFF_FFFF_FFFF_FFFF,
            n <= 0xFFFF_FFFF_FFFF_FFFF,
    ;
    assert(high * n <= 100_000 * 0xFFFF_FFFF_FFFF_FFFF) by (nonlinear_arith)
        requires
            high <= 100_000,
            n <= 0xFFFF_FFFF_FFFF_FFFF,
    ;
    let carried: u128 = (low * n) / space;
    let rest: Ghost<int> = Ghost((low * n) as int % space as int);
    let expected: u128 = high * n + carried;
    let observed: u128 = 100_000 * (positives as u128);
    proof {
        let t: int = key_space();
        let p: int = positives as int;
        let l: int = corpus_length as int;
        let m: int = iterations as int;
        assert(scaled as int == high * t + low);
        assert(low * n == carried * t + rest@);
        assert(0 <= rest@ < t);
        assert(100_000 * l * m == expected * t + rest@) by (nonlinear_arith)
            requires
                100_000 * l == high * t + low,
                low * m == carried * t + rest@,
                expected == high * m + carried,
        ;
        assert((observed > m + expected) == (observed * t > (m + expected) * t + rest@))
            by (nonlinear_arith)
            requires
                0 <= rest@ < t,
        ;
        assert(rate_exceeds(p, m, l) == (observed * t > (m + expected) * t + rest@))
            by (nonlinear_arith)
            requires
                observed == 100_000 * p,
                100_000 * l * m == expected * t + rest@,
                t == key_space(),
        ;
    }
    observed > n + expected
}

/// What a validation comes to, given the first key of the corpus that the
/// filter misses, if any, and the count of positives among the random keys.
/// A validation that passes reports that count.
pub open spec fn verdict(
    missing: Option<u64>,
    positives: u64,
    iterations: u64,
    corpus_length: u64,
) -> Result<u64, ValidationError> {
    match missing {
        Some(key) => Err(ValidationError::FalseNegative { key }),
        None => if rate_exceeds(positives as int, iterations as int, corpus_length as int) {
            Err(ValidationError::FalsePositiveRate { positives })
        } else {
            Ok(positives)
        },
    }
}

/// Judges the two findings of a validation. A missed key fails it whatever
/// the count of positives is.
pub fn judge(missing: Option<u64>, positives: u64, iterations: u64, corpus_length: u64) -> (r:
    Result<u64, ValidationError>)
    ensures
        r == verdict(missing, positives, iterations, corpus_length),
{
    match missing {
        Some(key) => Err(ValidationError::FalseNegative { key }),
        None => if exceeds_expected_rate(positives, iterations, corpus_length) {
            Err(ValidationError::FalsePositiveRate { positives })
        } else {
            Ok(positives)
        },
    }
}

/// Validates a filter against the keys of its corpus: looks each of them
/// up, then draws `iterations` random keys and judges how many of them the
/// filter holds. `corpus_length` is the number of entries of the corpus.
/// Once a key is missed no random key is drawn. A filter that passes comes
/// with the number of random keys that it held. A filter without slots
/// holds none, and so never fails by its rate.
pub fn test_filter(
    filter: &PasswordFilter,
    keys: &Vec<u64>,
    corpus_length: usize,
    iterations: u64,
) -> (r: Result<u64, ValidationError>)
    ensures
        match r {
            Ok(positives) => {
                &&& filter@.contains_all(keys@)
                &&& positives <= iterations
                &&& exists|drawn: Seq<u64>|
                    drawn.len() == iterations && positives == #[trigger] positives_among(
                        filter@,
                        drawn,
                        iterations as nat,
                    )
                &&& !rate_exceeds(positives as int, iterations as int, corpus_length as int)
                &&& filter@.table.len() == 0 ==> positives == 0
            },
            Err(ValidationError::FalseNegative { key }) => exists|i: int|
                0 <= i < keys@.len() && #[trigger] keys@[i] == key && !filter@.contains(key)
                    && holds_first(filter@, keys@, i),
            Err(ValidationError::FalsePositiveRate { positives }) => {
                &&& filter@.contains_all(keys@)
                &&& positives <= iterations
                &&& exists|drawn: Seq<u64>|
                    drawn.len() == iterations && positives == #[trigger] positives_among(
                        filter@,
                        drawn,
                        iterations as nat,
                    )
                &&& rate_exceeds(positives as int, iterations as int, corpus_length as int)
                &&& filter@.table.len() > 0
            },
        },
        filter@.contains_all(keys@) && (filter@.table.len() == 0 || iterations == 0)
            ==> r == Ok::<u64, ValidationError>(0),
{
    match first_missing(filter, keys) {
        Some(i) => judge(Some(keys[i]), 0, iterations, corpus_length as u64),
        None => {
            let positives: u64 = sample_positives(filter, iterations);
            proof {
                lemma_no_positives_pass(iterations as int, corpus_length as int);
            }
            judge(None, positives, iterations, corpus_length as u64)
        },
    }
}

/// No positives are never too many.
pub proof fn lemma_no_positives_pass(iterations: int, corpus_length: int)
    requires
        0 <= iterations,
        0 <= corpus_length,
    ensures
        !rate_exceeds(0, iterations, corpus_length),
{
    assert(corpus_length * iterations >= 0) by (nonlinear_arith)
        requires
            0 <= iterations,
            0 <= corpus_length,
    ;
    assert(iterations * key_space() >= 0) by (nonlinear_arith)
        requires
            0 <= iterations,
            key_space() > 0,
    ;
}

} // verus!
