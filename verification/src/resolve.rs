//! The roll resolver: drawing uniform values for each requested die and
//! resolving them under normal, advantage or disadvantage semantics, plus
//! the aggregation of kept values into a total.

use vstd::prelude::*;
use crate::expr::{DiceRequest, RollMode};
use rand::Rng;

verus! {

/// The outcome of rolling one die: the value kept and, in the two-roll
/// modes, the value dropped.
#[derive(Debug, Clone, Copy, PartialEq)]
pub struct RollResult {
    pub sides: u32,
    pub mode: RollMode,
    pub kept: u32,
    pub dropped: Option<u32>,
}

/// Relies on rand: `Rng::gen_range` on `rand::thread_rng()` returns a value
/// from the given inclusive range; it panics only on an empty range, which
/// the precondition rules out. Nothing more can be said of a random draw.
#[verifier::external_body]
fn draw_uniform(lo: u32, hi: u32) -> (r: u32)
    requires
        lo <= hi,
    ensures
        lo <= r && r <= hi,
{
    rand::thread_rng().gen_range(lo..=hi)
}

/// What a resolved outcome looks like for a die with `sides` sides in a
/// given mode: the kept value is a possible roll of that die, and in the
/// two-roll modes the dropped value is a possible roll on the proper side
/// of the kept one.
pub open spec fn outcome_ok(res: RollResult, sides: u32, mode: RollMode) -> bool {
    &&& res.sides == sides
    &&& res.mode == mode
    &&& 1 <= res.kept <= sides
    &&& match mode {
        RollMode::Normal => res.dropped is None,
        RollMode::Advantage => res.dropped matches Some(d) && 1 <= d <= sides && d <= res.kept,
        RollMode::Disadvantage => res.dropped matches Some(d) && 1 <= d <= sides && res.kept <= d,
    }
}

/// How two drawn values resolve: normal keeps the first draw and drops
/// nothing; advantage keeps the larger draw and drops the smaller;
/// disadvantage the reverse.
pub open spec fn spec_resolve(sides: u32, mode: RollMode, r1: u32, r2: u32) -> RollResult {
    match mode {
        RollMode::Normal => RollResult { sides, mode, kept: r1, dropped: None },
        RollMode::Advantage => RollResult {
            sides,
            mode,
            kept: if r1 >= r2 {
                r1
            } else {
                r2
            },
            dropped: Some(
                if r1 >= r2 {
                    r2
                } else {
                    r1
                },
            ),
        },
        RollMode::Disadvantage => RollResult {
            sides,
            mode,
            kept: if r1 <= r2 {
                r1
            } else {
                r2
            },
            dropped: Some(
                if r1 <= r2 {
                    r2
                } else {
                    r1
                },
            ),
        },
    }
}

/// Law: resolving two draws from `[1, sides]` keeps a value in `[1, sides]`;
/// with advantage the kept value is the larger of the draws and the dropped
/// value the smaller; with disadvantage the reverse.
pub proof fn lemma_resolve_bounds(sides: u32, mode: RollMode, r1: u32, r2: u32)
    requires
        1 <= r1 <= sides,
        1 <= r2 <= sides,
    ensures
        outcome_ok(spec_resolve(sides, mode, r1, r2), sides, mode),
{
}

/// Resolves one unit roll from the values drawn.
pub fn resolve_unit(sides: u32, mode: RollMode, r1: u32, r2: u32) -> (res: RollResult)
    requires
        1 <= r1 <= sides,
        1 <= r2 <= sides,
    ensures
        res == spec_resolve(sides, mode, r1, r2),
        outcome_ok(res, sides, mode),
{
    match mode {
        RollMode::Normal => RollResult { sides, mode, kept: r1, dropped: None },
        RollMode::Advantage => {
            let kept = if r1 >= r2 {
                r1
            } else {
                r2
            };
            let dropped = if r1 >= r2 {
                r2
            } else {
                r1
            };
            RollResult { sides, mode, kept, dropped: Some(dropped) }
        },
        RollMode::Disadvantage => {
            let kept = if r1 <= r2 {
                r1
            } else {
                r2
            };
            let dropped = if r1 <= r2 {
                r2
            } else {
                r1
            };
            RollResult { sides, mode, kept, dropped: Some(dropped) }
        },
    }
}

/// The number of unit rolls that the first `i` requests ask for.
pub open spec fn total_units(reqs: Seq<DiceRequest>, i: int) -> int
    decreases i,
{
    if i <= 0 {
        0
    } else {
        total_units(reqs, i - 1) + reqs[i - 1].count
    }
}

/// More requests never ask for fewer unit rolls.
pub proof fn lemma_total_units_mono(reqs: Seq<DiceRequest>, a: int, b: int)
    requires
        a <= b,
    ensures
        total_units(reqs, a) <= total_units(reqs, b),
    decreases b - a,
{
    if a < b {
        lemma_total_units_mono(reqs, a, b - 1);
    }
}

/// Rolls every requested die, in request order, `count` outcomes per
/// request in generation order: outcome `j` belongs to request `i` whenever
/// `j` falls among the units of request `i`, and every outcome is a valid
/// resolution for its request.
pub fn roll_dice(requests: &[DiceRequest]) -> (out: Vec<RollResult>)
    requires
        forall|i: int| 0 <= i < requests@.len() ==> (#[trigger] requests@[i]).sides >= 1,
    ensures
        out@.len() == total_units(requests@, requests@.len() as int),
        forall|i: int, j: int|
            0 <= i < requests@.len() && #[trigger] total_units(requests@, i) <= j < total_units(
                requests@,
                i + 1,
            ) ==> outcome_ok(#[trigger] out@[j], requests@[i].sides, requests@[i].mode),
{
    let mut out: Vec<RollResult> = Vec::new();
    let n = requests.len();
    let mut i: usize = 0;
    while i < n
        invariant
            n == requests@.len(),
            i <= n,
            forall|i2: int| 0 <= i2 < n ==> (#[trigger] requests@[i2]).sides >= 1,
            out@.len() == total_units(requests@, i as int),
            forall|i2: int, j: int|
                0 <= i2 < i && #[trigger] total_units(requests@, i2) <= j < total_units(
                    requests@,
                    i2 + 1,
                ) ==> outcome_ok(#[trigger] out@[j], requests@[i2].sides, requests@[i2].mode),
        decreases n - i,
    {
        let req = requests[i];
        assert(req == requests@[i as int]);
        let ghost base = total_units(requests@, i as int);
        let mut c: u32 = 0;
        while c < req.count
            invariant
                c <= req.count,
                i < requests@.len(),
                req == requests@[i as int],
                req.sides >= 1,
                base == total_units(requests@, i as int),
                out@.len() == base + c,
                forall|i2: int, j: int|
                    0 <= i2 < i && #[trigger] total_units(requests@, i2) <= j < total_units(
                        requests@,
                        i2 + 1,
                    ) ==> outcome_ok(#[trigger] out@[j], requests@[i2].sides, requests@[i2].mode),
                forall|j: int| base <= j < base + c ==> outcome_ok(
                    #[trigger] out@[j],
                    req.sides,
                    req.mode,
                ),
            decreases req.count - c,
        {
            let r1 = draw_uniform(1, req.sides);
            let res = match req.mode {
                RollMode::Normal => resolve_unit(req.sides, req.mode, r1, r1),
                RollMode::Advantage => {
                    let r2 = draw_uniform(1, req.sides);
                    resolve_unit(req.sides, req.mode, r1, r2)
                },
                RollMode::Disadvantage => {
                    let r2 = draw_uniform(1, req.sides);
                    resolve_unit(req.sides, req.mode, r1, r2)
                },
            };
            let ghost prev = out@;
            out.push(res);
            proof {
                assert forall|i2: int, j: int|
                    0 <= i2 < i && #[trigger] total_units(requests@, i2) <= j < total_units(
                        requests@,
                        i2 + 1,
                    ) implies outcome_ok(
                    #[trigger] out@[j],
                    requests@[i2].sides,
                    requests@[i2].mode,
                ) by {
                    lemma_total_units_mono(requests@, 0, i2);
                    lemma_total_units_mono(requests@, i2 + 1, i as int);
                    assert(out@[j] == prev[j]);
                }
                assert forall|j: int| base <= j < base + c + 1 implies outcome_ok(
                    #[trigger] out@[j],
                    req.sides,
                    req.mode,
                ) by {
                    lemma_total_units_mono(requests@, 0, i as int);
                    if j < base + c {
                        assert(out@[j] == prev[j]);
                    } else {
                        assert(out@[j] == res);
                    }
                }
            }
            c = c + 1;
        }
        proof {
            assert(total_units(requests@, i as int + 1) == base + req.count);
            assert forall|i2: int, j: int|
                0 <= i2 < i + 1 && #[trigger] total_units(requests@, i2) <= j < total_units(
                    requests@,
                    i2 + 1,
                ) implies outcome_ok(
                #[trigger] out@[j],
                requests@[i2].sides,
                requests@[i2].mode,
            ) by {
                lemma_total_units_mono(requests@, 0, i2);
                if i2 == i as int {
                    assert(total_units(requests@, i2 + 1) == base + req.count);
                }
            }
        }
        i = i + 1;
    }
    out
}

/// The sum of the kept values of the first `i` outcomes.
pub open spec fn kept_sum(results: Seq<RollResult>, i: int) -> int
    decreases i,
{
    if i <= 0 {
        0
    } else {
        kept_sum(results, i - 1) + results[i - 1].kept
    }
}

/// Sums the kept values of all outcomes. The sum is carried in a width that
/// cannot overflow: each kept value fits in 32 bits and there are fewer
/// outcomes than the address space has bytes.
pub fn total_kept(results: &Vec<RollResult>) -> (total: u128)
    ensures
        total == kept_sum(results@, results@.len() as int),
{
    let mut total: u128 = 0;
    let mut i: usize = 0;
    while i < results.len()
        invariant
            i <= results@.len(),
            total == kept_sum(results@, i as int),
            total <= i * 0xffff_ffffu128,
        decreases results@.len() - i,
    {
        assert(total + results@[i as int].kept <= (i + 1) * 0xffff_ffffu128) by {
            assert((i + 1) * 0xffff_ffffu128 == i * 0xffff_ffffu128 + 0xffff_ffffu128);
        }
        assert((i + 1) * 0xffff_ffffu128 <= usize::MAX * 0xffff_ffffu128) by {
            assert(i + 1 <= usize::MAX);
        }
        total = total + results[i].kept as u128;
        i = i + 1;
    }
    total
}

} // verus!
