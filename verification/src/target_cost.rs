//! Target cost: open level-1 eggs and merge until a pet of the target level
//! appears, and count the eggs it took.
use crate::game::{
    after_merge_model, check_pity, egg_model, empty_model, find_merge_level, lemma_merge_total,
    lemma_redeem_total, lemma_slot_le_total, lemma_two_slots_le_total, lowest_mergeable,
    merge_draw, open_egg, pity_below_thresholds, redeemable, spec_pity_threshold, total8,
    try_merge, GameModel, GameState,
};
use crate::parallel::{
    chain_to, chunk_size, concat, concat_chunks, deterministic, effective_threads, lemma_chain_prefix, lemma_chain_push,
    lemma_chain_unique, lemma_workers_chunk, lemma_workers_push,
    lemma_workers_unique, on_stream, spec_effective_threads, worker_rng, worker_seed,
    workers_output,
};
use crate::rng::{seed_key, SimRng};
use crate::stats::{
    ascending, lemma_ascending_bounds, lemma_ascending_unique, percentile, percentile_rank,
    sorted_copy, spec_percentile, usize_leq,
};
use vstd::arithmetic::div_mod::lemma_fundamental_div_mod;
use vstd::relations::sorted_by;
use vstd::string::StringExecFns;
use vstd::prelude::*;

verus! {

/// The most eggs a trial with pity enabled can take, whatever the merge
/// outcomes: with every merge failing, pity alone reaches level 7 by then.
pub const PITY_EGG_BOUND: usize = 11640806;

/// The rules of a target-cost trial, driven by the merge outcomes `rolls`.
///
/// While some level below `target` holds two pets, the lowest such level is
/// merged with the next outcome (with pity enabled, reached thresholds are
/// redeemed right after); the trial ends as soon as a pet of `target` exists,
/// and its result is the number of eggs opened. When nothing can be merged,
/// the next egg is opened. The result is `None` when `rolls` does not hold
/// exactly one outcome per merge, or when the egg count would pass `usize::MAX`.
pub open spec fn cost_model(g: GameModel, target: int, enable_pity: bool, rolls: Seq<bool>) -> Option<
    usize,
>
    decreases rolls.len(), 2 - g.pets[1],
{
    match lowest_mergeable(g.pets, target) {
        Some(level) => {
            if rolls.len() == 0 {
                None
            } else {
                let n = after_merge_model(g, level, enable_pity, rolls[0]);
                if n.pets[target] > 0 {
                    if rolls.len() == 1 {
                        Some(n.eggs)
                    } else {
                        None
                    }
                } else {
                    cost_model(n, target, enable_pity, rolls.drop_first())
                }
            }
        },
        None => {
            if g.pets.len() == 8 && g.pets[1] < 2 && g.eggs < usize::MAX {
                cost_model(egg_model(g), target, enable_pity, rolls)
            } else {
                None
            }
        },
    }
}

/// `eggs` is the cost of a trial towards `target` under the game rules, for
/// some sequence of merge outcomes.
pub open spec fn is_cost_outcome(target: int, enable_pity: bool, eggs: usize) -> bool {
    exists|rolls: Seq<bool>| #[trigger] cost_model(empty_model(), target, enable_pity, rolls) == Some(eggs)
}

/// The rules of a target-cost trial, driven by `rolls`, that uses every roll
/// without reaching `target` and then has to open an egg when the egg count is
/// already `usize::MAX`.
pub open spec fn overflow_model(g: GameModel, target: int, enable_pity: bool, rolls: Seq<bool>) -> bool
    decreases rolls.len(), 2 - g.pets[1],
{
    match lowest_mergeable(g.pets, target) {
        Some(level) => {
            if rolls.len() == 0 {
                false
            } else {
                let n = after_merge_model(g, level, enable_pity, rolls[0]);
                if n.pets[target] > 0 {
                    false
                } else {
                    overflow_model(n, target, enable_pity, rolls.drop_first())
                }
            }
        },
        None => {
            if g.pets.len() == 8 && g.pets[1] < 2 && g.eggs < usize::MAX {
                overflow_model(egg_model(g), target, enable_pity, rolls)
            } else {
                g.pets.len() == 8 && g.pets[1] < 2 && g.eggs == usize::MAX && rolls.len() == 0
            }
        },
    }
}

/// The rolls taken so far lead from the empty state to `g`, as far as running
/// out of countable eggs goes, whatever comes next.
pub open spec fn overflow_follows(rolls: Seq<bool>, g: GameModel, target: int, enable_pity: bool) -> bool {
    forall|fut: Seq<bool>|
        #[trigger] overflow_model(empty_model(), target, enable_pity, rolls + fut) == overflow_model(
            g,
            target,
            enable_pity,
            fut,
        )
}

/// What a state is worth in eggs when every merge fails and only pity
/// redemptions make progress: a level-`n` pet is worth `w(n)` eggs, with
/// `w(1) = 1` and `w(n) = r(n) * w(n - 1)`, and a unit of pity progress towards
/// level `n` is worth `w(n - 1)`. Merges and redemptions never lower it, and
/// each egg raises it by one.
pub open spec fn egg_worth(g: GameModel) -> int {
    g.pets[1] + 5 * g.pets[2] + 50 * g.pets[3] + 750 * g.pets[4] + 15000 * g.pets[5] + 375000
        * g.pets[6] + 11250000 * g.pets[7] + g.pity[2] + 5 * g.pity[3] + 50 * g.pity[4] + 750
        * g.pity[5] + 15000 * g.pity[6] + 375000 * g.pity[7]
}

/// What a state is worth in eggs when every merge succeeds: a level-`n` pet is
/// worth `2^(n-1)` eggs and a unit of pity progress towards level `n` is worth
/// `2^(n-2)`. A success keeps it, a failure keeps it (the returned pet's loss
/// is the progress's gain), a redemption lowers it, and an egg raises it by one.
pub open spec fn egg_floor(g: GameModel) -> int {
    g.pets[1] + 2 * g.pets[2] + 4 * g.pets[3] + 8 * g.pets[4] + 16 * g.pets[5] + 32 * g.pets[6] + 64
        * g.pets[7] + g.pity[2] + 2 * g.pity[3] + 4 * g.pity[4] + 8 * g.pity[5] + 16 * g.pity[6]
        + 32 * g.pity[7]
}

/// The fewest eggs that can produce a pet of `target`: `2^(target-1)`.
pub open spec fn min_target_eggs(target: int) -> int {
    if target <= 1 {
        1
    } else if target == 2 {
        2
    } else if target == 3 {
        4
    } else if target == 4 {
        8
    } else if target == 5 {
        16
    } else if target == 6 {
        32
    } else {
        64
    }
}

/// A state holding a pet of `target` is worth at least `2^(target-1)` eggs.
proof fn lemma_floor_at_target(g: GameModel, target: int)
    requires
        2 <= target <= 7,
        g.pets.len() == 8,
        g.pity.len() == 8,
        g.pets[target] >= 1,
    ensures
        egg_floor(g) >= min_target_eggs(target),
{
}

/// The rolls taken so far lead from the empty state to `g`, whatever comes next.
pub open spec fn cost_follows(rolls: Seq<bool>, g: GameModel, target: int, enable_pity: bool) -> bool {
    forall|fut: Seq<bool>|
        #[trigger] cost_model(empty_model(), target, enable_pity, rolls + fut) == cost_model(
            g,
            target,
            enable_pity,
            fut,
        )
}

/// Nothing above `target` has been reached.
pub open spec fn nothing_above(g: GameModel, target: int) -> bool {
    forall|l: int|
        #![trigger g.pets[l]]
        #![trigger g.pity[l]]
        target < l < 8 ==> g.pets[l] == 0 && g.pity[l] == 0
}

/// The merge outcomes `rolls` are the rolls of `key`'s stream from word `pos`
/// on: each merge of the trial takes the next word, at its own level.
pub open spec fn cost_rolls_drawn(
    g: GameModel,
    target: int,
    enable_pity: bool,
    rolls: Seq<bool>,
    key: Seq<u8>,
    pos: nat,
) -> bool
    decreases rolls.len(), 2 - g.pets[1],
{
    match lowest_mergeable(g.pets, target) {
        Some(level) => {
            if rolls.len() == 0 {
                true
            } else {
                let n = after_merge_model(g, level, enable_pity, rolls[0]);
                &&& rolls[0] == merge_draw(key, pos, level)
                &&& (n.pets[target] > 0 || cost_rolls_drawn(
                    n,
                    target,
                    enable_pity,
                    rolls.drop_first(),
                    key,
                    pos + 1,
                ))
            }
        },
        None => {
            if g.pets.len() == 8 && g.pets[1] < 2 && g.eggs < usize::MAX {
                cost_rolls_drawn(egg_model(g), target, enable_pity, rolls, key, pos)
            } else {
                true
            }
        },
    }
}

/// The rolls taken so far, from word `pos` of `key`'s stream, lead from the
/// empty state to `g`, and the rest must follow the stream.
pub open spec fn cost_drawn_follows(
    rolls: Seq<bool>,
    g: GameModel,
    target: int,
    enable_pity: bool,
    key: Seq<u8>,
    pos: nat,
) -> bool {
    forall|fut: Seq<bool>|
        #[trigger] cost_rolls_drawn(empty_model(), target, enable_pity, rolls + fut, key, pos)
            == cost_rolls_drawn(g, target, enable_pity, fut, key, pos + rolls.len())
}

/// `eggs` is the cost of a trial towards `target` whose merges take the words
/// of `key`'s stream from `pos` on, and `next` is the word after its last merge.
pub open spec fn cost_outcome_on(
    target: int,
    enable_pity: bool,
    key: Seq<u8>,
    pos: nat,
    eggs: usize,
    next: nat,
) -> bool {
    exists|rolls: Seq<bool>|
        #![trigger cost_model(empty_model(), target, enable_pity, rolls)]
        {
            &&& cost_model(empty_model(), target, enable_pity, rolls) == Some(eggs)
            &&& cost_rolls_drawn(empty_model(), target, enable_pity, rolls, key, pos)
            &&& next == pos + rolls.len()
        }
}

/// A trial towards `target` whose merges take the words of `key`'s stream from
/// `pos` on runs out of countable eggs before reaching `target`.
pub open spec fn cost_overflow_on(target: int, enable_pity: bool, key: Seq<u8>, pos: nat) -> bool {
    exists|rolls: Seq<bool>|
        #![trigger overflow_model(empty_model(), target, enable_pity, rolls)]
        overflow_model(empty_model(), target, enable_pity, rolls) && cost_rolls_drawn(
            empty_model(),
            target,
            enable_pity,
            rolls,
            key,
            pos,
        )
}

/// Some trial towards `target`, on the stream of some key from some word on,
/// runs out of countable eggs before reaching `target`.
pub open spec fn overflows_on_some_stream(target: int, enable_pity: bool) -> bool {
    exists|key: Seq<u8>, pos: nat| #[trigger] cost_overflow_on(target, enable_pity, key, pos)
}

/// Target-cost trials on the stream of seed `s` (its key `seed_key(s)`), from word `p` to
/// word `q`.
pub open spec fn cost_on_stream(target: int, enable_pity: bool) -> spec_fn(u64, nat, usize, nat) -> bool {
    |s: u64, p: nat, eggs: usize, q: nat| cost_outcome_on(target, enable_pity, seed_key(s), p, eggs, q)
}

/// Two complete trials whose rolls both follow the same stream from the same
/// word took the same rolls.
proof fn lemma_cost_rolls_unique(
    g: GameModel,
    target: int,
    enable_pity: bool,
    a: Seq<bool>,
    b: Seq<bool>,
    key: Seq<u8>,
    pos: nat,
)
    requires
        cost_model(g, target, enable_pity, a) is Some,
        cost_model(g, target, enable_pity, b) is Some,
        cost_rolls_drawn(g, target, enable_pity, a, key, pos),
        cost_rolls_drawn(g, target, enable_pity, b, key, pos),
    ensures
        a == b,
    decreases a.len(), 2 - g.pets[1],
{
    match lowest_mergeable(g.pets, target) {
        Some(level) => {
            let n = after_merge_model(g, level, enable_pity, a[0]);
            if n.pets[target] > 0 {
                assert(a =~= b);
            } else {
                lemma_cost_rolls_unique(n, target, enable_pity, a.drop_first(), b.drop_first(), key, pos + 1);
                assert(a =~= seq![a[0]] + a.drop_first());
                assert(b =~= seq![b[0]] + b.drop_first());
            }
        },
        None => {
            lemma_cost_rolls_unique(egg_model(g), target, enable_pity, a, b, key, pos);
        },
    }
}

/// Rolls that complete a trial and rolls that run it out of countable eggs
/// cannot both follow the same stream from the same word.
proof fn lemma_cost_or_overflow(
    g: GameModel,
    target: int,
    enable_pity: bool,
    a: Seq<bool>,
    b: Seq<bool>,
    key: Seq<u8>,
    pos: nat,
)
    requires
        cost_model(g, target, enable_pity, a) is Some,
        cost_rolls_drawn(g, target, enable_pity, a, key, pos),
        cost_rolls_drawn(g, target, enable_pity, b, key, pos),
    ensures
        !overflow_model(g, target, enable_pity, b),
    decreases a.len(), 2 - g.pets[1],
{
    match lowest_mergeable(g.pets, target) {
        Some(level) => {
            let n = after_merge_model(g, level, enable_pity, a[0]);
            if b.len() > 0 && n.pets[target] <= 0 {
                assert(a[0] == b[0]);
                lemma_cost_or_overflow(n, target, enable_pity, a.drop_first(), b.drop_first(), key, pos + 1);
            }
        },
        None => {
            lemma_cost_or_overflow(egg_model(g), target, enable_pity, a, b, key, pos);
        },
    }
}

/// A trial on a stream either completes or runs out of countable eggs, never both.
pub proof fn lemma_cost_outcome_exclusive(
    target: int,
    enable_pity: bool,
    key: Seq<u8>,
    pos: nat,
    eggs: usize,
    next: nat,
)
    requires
        cost_outcome_on(target, enable_pity, key, pos, eggs, next),
    ensures
        !cost_overflow_on(target, enable_pity, key, pos),
{
    if cost_overflow_on(target, enable_pity, key, pos) {
        let a = choose|rolls: Seq<bool>|
            #![trigger cost_model(empty_model(), target, enable_pity, rolls)]
            {
                &&& cost_model(empty_model(), target, enable_pity, rolls) == Some(eggs)
                &&& cost_rolls_drawn(empty_model(), target, enable_pity, rolls, key, pos)
                &&& next == pos + rolls.len()
            };
        let b = choose|rolls: Seq<bool>|
            #![trigger overflow_model(empty_model(), target, enable_pity, rolls)]
            overflow_model(empty_model(), target, enable_pity, rolls) && cost_rolls_drawn(
                empty_model(),
                target,
                enable_pity,
                rolls,
                key,
                pos,
            );
        lemma_cost_or_overflow(empty_model(), target, enable_pity, a, b, key, pos);
    }
}

/// A target-cost trial is reproducible: its egg count, and the word of
/// the stream it stops at, are fixed by the target, the pity setting, the key
/// and the word it starts at.
pub proof fn lemma_cost_outcome_deterministic(
    target: int,
    enable_pity: bool,
    key: Seq<u8>,
    pos: nat,
    eggs1: usize,
    next1: nat,
    eggs2: usize,
    next2: nat,
)
    requires
        cost_outcome_on(target, enable_pity, key, pos, eggs1, next1),
        cost_outcome_on(target, enable_pity, key, pos, eggs2, next2),
    ensures
        eggs1 == eggs2,
        next1 == next2,
{
    let a = choose|rolls: Seq<bool>|
        #![trigger cost_model(empty_model(), target, enable_pity, rolls)]
        {
            &&& cost_model(empty_model(), target, enable_pity, rolls) == Some(eggs1)
            &&& cost_rolls_drawn(empty_model(), target, enable_pity, rolls, key, pos)
            &&& next1 == pos + rolls.len()
        };
    let b = choose|rolls: Seq<bool>|
        #![trigger cost_model(empty_model(), target, enable_pity, rolls)]
        {
            &&& cost_model(empty_model(), target, enable_pity, rolls) == Some(eggs2)
            &&& cost_rolls_drawn(empty_model(), target, enable_pity, rolls, key, pos)
            &&& next2 == pos + rolls.len()
        };
    lemma_cost_rolls_unique(empty_model(), target, enable_pity, a, b, key, pos);
}

/// Seeded target-cost trials are deterministic on every stream.
proof fn lemma_cost_streams_deterministic(target: int, enable_pity: bool)
    ensures
        forall|s: u64| #[trigger] deterministic(on_stream(cost_on_stream(target, enable_pity), s)),
{
    assert forall|s: u64| #[trigger] deterministic(on_stream(cost_on_stream(target, enable_pity), s)) by {
        let f = on_stream(cost_on_stream(target, enable_pity), s);
        assert forall|p: nat, x1: usize, q1: nat, x2: usize, q2: nat|
            #![trigger f(p, x1, q1), f(p, x2, q2)]
            f(p, x1, q1) && f(p, x2, q2) implies x1 == x2 && q1 == q2 by {
            lemma_cost_outcome_deterministic(target, enable_pity, seed_key(s), p, x1, q1, x2, q2);
        }
    }
}

/// After one more merge whose roll follows the stream, the rolls taken so far
/// still lead from the empty state to the new state.
proof fn lemma_cost_drawn_step(
    pre: GameModel,
    level: int,
    target: int,
    enable_pity: bool,
    roll: bool,
    pre_rolls: Seq<bool>,
    key: Seq<u8>,
    pos0: nat,
)
    requires
        cost_drawn_follows(pre_rolls, pre, target, enable_pity, key, pos0),
        lowest_mergeable(pre.pets, target) == Some(level),
        roll == merge_draw(key, pos0 + pre_rolls.len(), level),
    ensures
        forall|fut: Seq<bool>|
            #[trigger] cost_rolls_drawn(
                empty_model(),
                target,
                enable_pity,
                pre_rolls.push(roll) + fut,
                key,
                pos0,
            ) == (after_merge_model(pre, level, enable_pity, roll).pets[target] > 0
                || cost_rolls_drawn(
                after_merge_model(pre, level, enable_pity, roll),
                target,
                enable_pity,
                fut,
                key,
                pos0 + pre_rolls.len() + 1,
            )),
{
    let rolls = pre_rolls.push(roll);
    assert forall|fut: Seq<bool>|
        #[trigger] cost_rolls_drawn(empty_model(), target, enable_pity, rolls + fut, key, pos0) == (
        after_merge_model(pre, level, enable_pity, roll).pets[target] > 0 || cost_rolls_drawn(
            after_merge_model(pre, level, enable_pity, roll),
            target,
            enable_pity,
            fut,
            key,
            pos0 + pre_rolls.len() + 1,
        )) by {
        let longer = seq![roll] + fut;
        assert(rolls + fut =~= pre_rolls + longer);
        assert(longer.drop_first() =~= fut);
        assert(longer[0] == roll);
        assert(cost_rolls_drawn(empty_model(), target, enable_pity, pre_rolls + longer, key, pos0)
            == cost_rolls_drawn(pre, target, enable_pity, longer, key, pos0 + pre_rolls.len()));
    }
}

/// After one more merge, the rolls taken so far still lead from the empty state
/// to the new state, as far as running out of countable eggs goes.
proof fn lemma_overflow_step(
    pre: GameModel,
    level: int,
    target: int,
    enable_pity: bool,
    roll: bool,
    pre_rolls: Seq<bool>,
)
    requires
        overflow_follows(pre_rolls, pre, target, enable_pity),
        lowest_mergeable(pre.pets, target) == Some(level),
    ensures
        forall|fut: Seq<bool>|
            #[trigger] overflow_model(empty_model(), target, enable_pity, pre_rolls.push(roll) + fut)
                == (if after_merge_model(pre, level, enable_pity, roll).pets[target] > 0 {
                false
            } else {
                overflow_model(after_merge_model(pre, level, enable_pity, roll), target, enable_pity, fut)
            }),
{
    let rolls = pre_rolls.push(roll);
    assert forall|fut: Seq<bool>|
        #[trigger] overflow_model(empty_model(), target, enable_pity, rolls + fut) == (
        if after_merge_model(pre, level, enable_pity, roll).pets[target] > 0 {
            false
        } else {
            overflow_model(after_merge_model(pre, level, enable_pity, roll), target, enable_pity, fut)
        }) by {
        let longer = seq![roll] + fut;
        assert(rolls + fut =~= pre_rolls + longer);
        assert(longer.drop_first() =~= fut);
        assert(longer[0] == roll);
        assert(overflow_model(empty_model(), target, enable_pity, pre_rolls + longer)
            == overflow_model(pre, target, enable_pity, longer));
    }
}

/// One merge of a target-cost trial at `level`, followed with pity enabled by
/// the redemption of every reached threshold. Returns the merge outcome.
#[verifier::rlimit(100)]
#[verifier::spinoff_prover]
fn cost_step(state: &mut GameState, level: usize, target: usize, enable_pity: bool, rng: &mut SimRng) -> (roll: bool)
    requires
        2 <= target <= 7,
        1 <= level < target,
        old(state).pets[level as int] >= 2,
        total8(old(state).pets@) + total8(old(state).pity@) <= old(state).c1,
        enable_pity ==> pity_below_thresholds(old(state)@),
        nothing_above(old(state)@, target as int),
    ensures
        final(state)@ == after_merge_model(old(state)@, level as int, enable_pity, roll),
        final(state).c1 == old(state).c1,
        total8(final(state).pets@) + total8(final(state).pity@) <= final(state).c1,
        2 * total8(final(state).pets@) + total8(final(state).pity@) < 2 * total8(old(state).pets@)
            + total8(old(state).pity@),
        enable_pity ==> pity_below_thresholds(final(state)@),
        enable_pity ==> egg_worth(final(state)@) >= egg_worth(old(state)@),
        egg_floor(final(state)@) <= egg_floor(old(state)@),
        nothing_above(final(state)@, target as int),
        final(rng).key() == old(rng).key(),
        final(rng).drawn() == old(rng).drawn() + 1,
        roll == merge_draw(old(rng).key(), old(rng).drawn(), level as int),
{
    let ghost pre = state@;
    proof {
        lemma_slot_le_total(state.pets@, level as int);
        lemma_two_slots_le_total(state.pets@, level as int, level + 1);
        lemma_slot_le_total(state.pity@, level + 1);
    }
    let roll = try_merge(state, level, rng);
    let ghost merged = state@;
    proof {
        lemma_merge_total(pre, level as int, roll);
        assert(merged.pity[level + 1] <= pre.pity[level + 1] + 1);
    }
    assert(egg_floor(merged) == egg_floor(pre));
    if enable_pity {
        proof {
            assert forall|l: int| redeemable(state@, l) implies state.pets[l] < usize::MAX by {
                lemma_slot_le_total(state.pets@, l);
                lemma_slot_le_total(state.pity@, l);
            }
            lemma_redeem_total(state@);
        }
        check_pity(state);
        proof {
            assert forall|l: int| 2 <= l <= 7 implies state.pity[l] < spec_pity_threshold(l) by {
                if l != level + 1 {
                    assert(merged.pity[l] == pre.pity[l]);
                }
            }
            assert forall|l: int| target < l < 8 implies state.pets[l] == 0 && state.pity[l] == 0 by {
                assert(!redeemable(merged, l));
            }
            assert(egg_worth(merged) >= egg_worth(pre));
            assert forall|l: int| 0 <= l < 8 implies #[trigger] state.pets[l] == merged.pets[l] + (
            if redeemable(merged, l) {
                1int
            } else {
                0int
            }) by {}
            assert(egg_worth(state@) == egg_worth(merged));
            assert forall|l: int| 0 <= l < 8 implies #[trigger] state.pity[l] == merged.pity[l] - (
            if redeemable(merged, l) {
                spec_pity_threshold(l)
            } else {
                0int
            }) by {}
            assert(egg_floor(state@) <= egg_floor(merged));
        }
    }
    roll
}

/// One target-cost trial: opens eggs and merges with outcomes drawn from `rng`
/// until a pet of `target` exists, and returns the number of eggs opened.
/// `None` means the egg count would have passed `usize::MAX`, which can only
/// happen with pity disabled.
#[verifier::rlimit(100)]
#[verifier::spinoff_prover]
pub fn simulate_target_cost_once_with_rng(target: usize, enable_pity: bool, rng: &mut SimRng) -> (r:
    Option<usize>)
    requires
        2 <= target <= 7,
    ensures
        r matches Some(eggs) ==> is_cost_outcome(target as int, enable_pity, eggs),
        r matches Some(eggs) ==> eggs >= min_target_eggs(target as int),
        enable_pity ==> (r matches Some(eggs) && eggs <= PITY_EGG_BOUND),
        final(rng).key() == old(rng).key(),
        r matches Some(eggs) ==> cost_outcome_on(
            target as int,
            enable_pity,
            old(rng).key(),
            old(rng).drawn(),
            eggs,
            final(rng).drawn(),
        ),
        r is None <==> cost_overflow_on(target as int, enable_pity, old(rng).key(), old(rng).drawn()),
{
    let ghost key0 = rng.key();
    let ghost pos0 = rng.drawn();
    let mut state = GameState::new();
    let ghost mut rolls: Seq<bool> = Seq::empty();
    proof {
        assert forall|fut: Seq<bool>|
            #[trigger] cost_model(empty_model(), target as int, enable_pity, rolls + fut)
                == cost_model(state@, target as int, enable_pity, fut) by {
            assert(rolls + fut =~= fut);
        }
        assert forall|fut: Seq<bool>|
            #[trigger] overflow_model(empty_model(), target as int, enable_pity, rolls + fut)
                == overflow_model(state@, target as int, enable_pity, fut) by {
            assert(rolls + fut =~= fut);
        }
        {
            assert forall|fut: Seq<bool>|
                #[trigger] cost_rolls_drawn(empty_model(), target as int, enable_pity, rolls + fut, key0, pos0)
                    == cost_rolls_drawn(state@, target as int, enable_pity, fut, key0, pos0 + rolls.len()) by {
                assert(rolls + fut =~= fut);
            }
        }
    }
    loop
        invariant
            2 <= target <= 7,
            cost_follows(rolls, state@, target as int, enable_pity),
            overflow_follows(rolls, state@, target as int, enable_pity),
            lowest_mergeable(state.pets@, target as int) is None,
            state.pets[target as int] == 0,
            nothing_above(state@, target as int),
            total8(state.pets@) + total8(state.pity@) <= state.c1,
            enable_pity ==> pity_below_thresholds(state@),
            enable_pity ==> egg_worth(state@) >= state.c1,
            egg_floor(state@) <= state.c1,
            rng.key() == key0,
            rng.drawn() == pos0 + rolls.len(),
            key0 == old(rng).key(),
            pos0 == old(rng).drawn(),
            cost_drawn_follows(rolls, state@, target as int, enable_pity, key0, pos0),
        decreases usize::MAX - state.c1,
    {
        proof {
            assert forall|k: int| 1 <= k < target implies state.pets[k] < 2 by {
                if state.pets[k] >= 2 {
                    assert(exists|l: int| 1 <= l < target && state.pets@[l] >= 2);
                }
            }
            assert(nothing_above(state@, target as int));
            assert forall|k: int| 1 <= k <= 6 implies state.pets[k] <= 1 by {
                if k == target {
                    assert(state.pets[k] == 0);
                } else if k > target {
                    assert(state@.pets[k] == 0);
                }
            }
            assert(state.pets[7] == 0) by {
                if target == 7 {
                    assert(state.pets[target as int] == 0);
                } else {
                    assert(state@.pets[7] == 0);
                }
            }
            if enable_pity {
                assert(state@.pity[2] < 5);
                assert(state@.pity[3] < 10);
                assert(state@.pity[4] < 15);
                assert(state@.pity[5] < 20);
                assert(state@.pity[6] < 25);
                assert(state@.pity[7] < 30);
                assert(state.pets[1] <= 1 && state.pets[2] <= 1 && state.pets[3] <= 1 && state.pets[4]
                    <= 1 && state.pets[5] <= 1 && state.pets[6] <= 1);
                assert(egg_worth(state@) <= PITY_EGG_BOUND - 1);
            }
        }
        if state.c1 == usize::MAX {
            proof {
                let empty: Seq<bool> = Seq::empty();
                assert(rolls + empty =~= rolls);
                assert(overflow_model(state@, target as int, enable_pity, empty));
                assert(overflow_model(empty_model(), target as int, enable_pity, rolls + empty));
                {
                    assert(cost_rolls_drawn(state@, target as int, enable_pity, empty, key0, pos0 + rolls.len()));
                    assert(cost_rolls_drawn(empty_model(), target as int, enable_pity, rolls + empty, key0, pos0));
                }
            }
            return None;
        }
        let ghost settled = state@;
        open_egg(&mut state);
        let ghost eggs = state.c1;
        proof {
            assert forall|fut: Seq<bool>|
                #[trigger] cost_model(empty_model(), target as int, enable_pity, rolls + fut)
                    == cost_model(state@, target as int, enable_pity, fut) by {
                assert(cost_model(empty_model(), target as int, enable_pity, rolls + fut)
                    == cost_model(settled, target as int, enable_pity, fut));
            }
            assert forall|fut: Seq<bool>|
                #[trigger] overflow_model(empty_model(), target as int, enable_pity, rolls + fut)
                    == overflow_model(state@, target as int, enable_pity, fut) by {
                assert(overflow_model(empty_model(), target as int, enable_pity, rolls + fut)
                    == overflow_model(settled, target as int, enable_pity, fut));
            }
            {
                assert forall|fut: Seq<bool>|
                    #[trigger] cost_rolls_drawn(empty_model(), target as int, enable_pity, rolls + fut, key0, pos0)
                        == cost_rolls_drawn(state@, target as int, enable_pity, fut, key0, pos0 + rolls.len()) by {
                    assert(cost_rolls_drawn(empty_model(), target as int, enable_pity, rolls + fut, key0, pos0)
                        == cost_rolls_drawn(settled, target as int, enable_pity, fut, key0, pos0 + rolls.len()));
                }
            }
        }
        loop
            invariant
                2 <= target <= 7,
                cost_follows(rolls, state@, target as int, enable_pity),
                overflow_follows(rolls, state@, target as int, enable_pity),
                state.pets[target as int] == 0,
                nothing_above(state@, target as int),
                total8(state.pets@) + total8(state.pity@) <= state.c1,
                enable_pity ==> pity_below_thresholds(state@),
                enable_pity ==> egg_worth(state@) >= state.c1,
                enable_pity ==> state.c1 <= PITY_EGG_BOUND,
                state.c1 == eggs,
                egg_floor(state@) <= state.c1,
                rng.key() == key0,
                rng.drawn() == pos0 + rolls.len(),
                key0 == old(rng).key(),
                pos0 == old(rng).drawn(),
                cost_drawn_follows(rolls, state@, target as int, enable_pity, key0, pos0),
            ensures
                lowest_mergeable(state.pets@, target as int) is None,
            decreases 2 * total8(state.pets@) + total8(state.pity@),
        {
            match find_merge_level(&state, target) {
                None => {
                    break ;
                },
                Some(level) => {
                    let ghost pre = state@;
                    let ghost pre_rolls = rolls;
                    let roll = cost_step(&mut state, level, target, enable_pity, rng);
                    proof {
                        rolls = pre_rolls.push(roll);
                        assert forall|fut: Seq<bool>|
                            #[trigger] cost_model(
                                empty_model(),
                                target as int,
                                enable_pity,
                                rolls + fut,
                            ) == (if state.pets[target as int] > 0 {
                                if fut.len() == 0 {
                                    Some(state.c1)
                                } else {
                                    None
                                }
                            } else {
                                cost_model(state@, target as int, enable_pity, fut)
                            }) by {
                            let longer = seq![roll] + fut;
                            assert(rolls + fut =~= pre_rolls + longer);
                            assert(longer.drop_first() =~= fut);
                            assert(longer[0] == roll);
                            assert(cost_model(
                                empty_model(),
                                target as int,
                                enable_pity,
                                pre_rolls + longer,
                            ) == cost_model(pre, target as int, enable_pity, longer));
                        }
                        lemma_overflow_step(pre, level as int, target as int, enable_pity, roll, pre_rolls);
                        {
                            lemma_cost_drawn_step(pre, level as int, target as int, enable_pity, roll, pre_rolls, key0, pos0);
                        }
                    }
                    if state.pets[target] > 0 {
                        proof {
                            lemma_floor_at_target(state@, target as int);
                            let empty: Seq<bool> = Seq::empty();
                            assert(rolls + empty =~= rolls);
                            assert(cost_model(empty_model(), target as int, enable_pity, rolls + empty)
                                == Some(state.c1));
                            {
                                assert(cost_rolls_drawn(
                                    empty_model(),
                                    target as int,
                                    enable_pity,
                                    rolls + empty,
                                    key0,
                                    pos0,
                                ));
                                assert(cost_outcome_on(
                                    target as int,
                                    enable_pity,
                                    key0,
                                    pos0,
                                    state.c1,
                                    rng.drawn(),
                                ));
                                lemma_cost_outcome_exclusive(
                                    target as int,
                                    enable_pity,
                                    key0,
                                    pos0,
                                    state.c1,
                                    rng.drawn(),
                                );
                            }
                        }
                        return Some(state.c1);
                    }
                },
            }
        }
    }
}

} // verus!

verus! {

/// The integer part of a target-cost batch summary: the samples in trial order
/// and their order statistics.
#[derive(Debug)]
pub struct TargetCostSimulationResult {
    pub trials: usize,
    pub threads: usize,
    pub min: usize,
    pub max: usize,
    pub p50: usize,
    pub p90: usize,
    pub p95: usize,
    pub samples: Vec<usize>,
}

/// `r` summarises `samples`, drawn by `threads` workers: the samples in trial
/// order, the least and greatest, and the 50th, 90th and 95th percentiles.
pub open spec fn summarizes(r: TargetCostSimulationResult, samples: Seq<usize>, threads: usize) -> bool {
    &&& r.trials == samples.len()
    &&& r.threads == threads
    &&& r.samples@ == samples
    &&& r.min == ascending(samples)[0]
    &&& r.max == ascending(samples)[samples.len() - 1]
    &&& r.p50 == spec_percentile(samples, 50)
    &&& r.p90 == spec_percentile(samples, 90)
    &&& r.p95 == spec_percentile(samples, 95)
}

/// Every sample is the cost of a trial towards `target` under the rules.
pub open spec fn all_cost_outcomes(target: int, enable_pity: bool, samples: Seq<usize>) -> bool {
    forall|i: int| 0 <= i < samples.len() ==> is_cost_outcome(target, enable_pity, #[trigger] samples[i])
}

/// Summarises a batch of samples; the order statistics come from a sorted copy,
/// and the samples stay in trial order.
pub fn summarize_target_cost_samples(samples: Vec<usize>, threads: usize) -> (r:
    TargetCostSimulationResult)
    requires
        samples.len() >= 1,
    ensures
        summarizes(r, samples@, threads),
{
    let sorted = sorted_copy(&samples);
    let n = sorted.len();
    proof {
        lemma_ascending_bounds(samples@);
    }
    let min = sorted[0];
    let max = sorted[n - 1];
    let p50 = percentile(&sorted, 50);
    let p90 = percentile(&sorted, 90);
    let p95 = percentile(&sorted, 95);
    TargetCostSimulationResult { trials: samples.len(), threads, min, max, p50, p90, p95, samples }
}

/// The summary of a batch of one trial that cost `consumption` eggs.
pub fn single_target_cost_result(consumption: usize) -> (r: TargetCostSimulationResult)
    ensures
        summarizes(r, seq![consumption], 1),
        r.min == consumption && r.max == consumption && r.p50 == consumption && r.p90 == consumption
            && r.p95 == consumption,
{
    let samples = vec![consumption];
    proof {
        let s = seq![consumption];
        assert(samples@ =~= s);
        assert(sorted_by(s, usize_leq()));
        lemma_ascending_unique(s, s);
        assert(percentile_rank(1, 50) == 0);
        assert(percentile_rank(1, 90) == 0);
        assert(percentile_rank(1, 95) == 0);
    }
    TargetCostSimulationResult {
        trials: 1,
        threads: 1,
        min: consumption,
        max: consumption,
        p50: consumption,
        p90: consumption,
        p95: consumption,
        samples,
    }
}

/// One target-cost trial with a generator seeded from `seed`, or from the
/// operating system when there is no seed.
pub fn simulate_target_cost_once(target: usize, seed: Option<u64>, enable_pity: bool) -> (r: Option<
    usize,
>)
    requires
        2 <= target <= 7,
    ensures
        r matches Some(eggs) ==> is_cost_outcome(target as int, enable_pity, eggs),
        r matches Some(eggs) ==> eggs >= min_target_eggs(target as int),
        enable_pity ==> (r matches Some(eggs) && eggs <= PITY_EGG_BOUND),
        seed matches Some(s) ==> (r matches Some(eggs) ==> seeded_cost_trial(
            target as int,
            enable_pity,
            s,
            eggs,
        )),
        seed matches Some(s) ==> (r is None <==> cost_overflow_on(target as int, enable_pity, seed_key(s), 0)),
        r is None ==> overflows_on_some_stream(target as int, enable_pity),
{
    let mut rng = SimRng::new(seed);
    let ghost key = rng.key();
    let r = simulate_target_cost_once_with_rng(target, enable_pity, &mut rng);
    proof {
        if r is None {
            assert(cost_overflow_on(target as int, enable_pity, key, 0));
        }
        if let Some(s) = seed {
            if let Some(eggs) = r {
                lemma_cost_outcome_exclusive(target as int, enable_pity, seed_key(s), 0, eggs, rng.drawn());
            }
        }
    }
    r
}

/// A seeded batch runs out of countable eggs: some worker, after a run of
/// complete trials on its stream (fewer than its share), starts a trial that
/// overflows.
pub open spec fn seeded_batch_overflow(
    target: int,
    enable_pity: bool,
    seed: u64,
    trials: int,
    threads: int,
) -> bool {
    exists|w: int, done: Seq<usize>, end: nat|
        #![trigger chain_to(on_stream(cost_on_stream(target, enable_pity), worker_seed(seed, w)), 0, done, end)]
        {
            &&& 0 <= w < threads
            &&& done.len() < chunk_size(trials, threads, w)
            &&& chain_to(on_stream(cost_on_stream(target, enable_pity), worker_seed(seed, w)), 0, done, end)
            &&& cost_overflow_on(target, enable_pity, seed_key(worker_seed(seed, w)), end)
        }
}

/// A seeded batch whose every worker completed its share never ran out of
/// countable eggs.
proof fn lemma_batch_complete_no_overflow(
    target: int,
    enable_pity: bool,
    seed: u64,
    trials: int,
    threads: int,
    samples: Seq<usize>,
)
    requires
        workers_output(cost_on_stream(target, enable_pity), seed, trials, threads, threads as nat, samples),
    ensures
        !seeded_batch_overflow(target, enable_pity, seed, trials, threads),
{
    if seeded_batch_overflow(target, enable_pity, seed, trials, threads) {
        let outcome = cost_on_stream(target, enable_pity);
        let (w, done, end) = choose|w: int, done: Seq<usize>, end: nat|
            #![trigger chain_to(on_stream(outcome, worker_seed(seed, w)), 0, done, end)]
            {
                &&& 0 <= w < threads
                &&& done.len() < chunk_size(trials, threads, w)
                &&& chain_to(on_stream(outcome, worker_seed(seed, w)), 0, done, end)
                &&& cost_overflow_on(target, enable_pity, seed_key(worker_seed(seed, w)), end)
            };
        let ws = worker_seed(seed, w);
        let stream = on_stream(outcome, ws);
        lemma_workers_chunk(outcome, seed, trials, threads, threads as nat, samples, w);
        let (chunk, chunk_end) = choose|chunk: Seq<usize>, chunk_end: nat|
            #![trigger chain_to(on_stream(outcome, worker_seed(seed, w)), 0, chunk, chunk_end)]
            chunk.len() == chunk_size(trials, threads, w) && chain_to(
                on_stream(outcome, worker_seed(seed, w)),
                0,
                chunk,
                chunk_end,
            );
        let k = done.len() as int;
        lemma_chain_prefix(stream, 0, chunk, chunk_end, k);
        let (mid, next) = choose|mid: nat, next: nat|
            #![trigger stream(mid, chunk[k], next)]
            chain_to(stream, 0, chunk.take(k), mid) && stream(mid, chunk[k], next);
        lemma_cost_streams_deterministic(target, enable_pity);
        assert(deterministic(stream));
        lemma_chain_unique(stream, 0, done, end, chunk.take(k), mid);
        lemma_cost_outcome_exclusive(target, enable_pity, seed_key(ws), mid, chunk[k], next);
    }
}

/// `eggs` is the cost of a trial towards `target` on a generator freshly seeded with `seed`.
pub open spec fn seeded_cost_trial(target: int, enable_pity: bool, seed: u64, eggs: usize) -> bool {
    exists|next: nat| #[trigger] cost_outcome_on(target, enable_pity, seed_key(seed), 0, eggs, next)
}

/// A single target-cost trial with a fixed seed is reproducible: two trials
/// towards the same target, with the same pity setting and seed, cost the same.
pub proof fn lemma_cost_trial_reproducible(
    target: int,
    enable_pity: bool,
    seed: u64,
    eggs1: usize,
    eggs2: usize,
)
    requires
        seeded_cost_trial(target, enable_pity, seed, eggs1),
        seeded_cost_trial(target, enable_pity, seed, eggs2),
    ensures
        eggs1 == eggs2,
{
    let n1 = choose|next: nat| #[trigger] cost_outcome_on(target, enable_pity, seed_key(seed), 0, eggs1, next);
    let n2 = choose|next: nat| #[trigger] cost_outcome_on(target, enable_pity, seed_key(seed), 0, eggs2, next);
    lemma_cost_outcome_deterministic(target, enable_pity, seed_key(seed), 0, eggs1, n1, eggs2, n2);
}

/// What worker `worker` of a target-cost batch split between `threads`
/// workers gives: its share of trials, each a cost under the rules (with a
/// seed, a chain of trials on the stream of `worker_seed(seed, worker)`); or
/// `None` when a trial runs out of countable eggs, which only a pity-disabled
/// trial can do (with a seed: after a chain of fewer trials than its share,
/// on that stream).
pub open spec fn cost_worker_output(
    target: int,
    enable_pity: bool,
    seed: Option<u64>,
    trials: int,
    threads: int,
    worker: int,
    r: Option<Seq<usize>>,
) -> bool {
    match r {
        Some(samples) => cost_worker_complete(target, enable_pity, seed, trials, threads, worker, samples),
        None => {
            &&& !enable_pity
            &&& overflows_on_some_stream(target, enable_pity)
            &&& seed matches Some(sd) ==> exists|done: Seq<usize>, end: nat|
                #![trigger chain_to(on_stream(cost_on_stream(target, enable_pity), worker_seed(sd, worker)), 0, done, end)]
                {
                    &&& done.len() < chunk_size(trials, threads, worker)
                    &&& chain_to(
                        on_stream(cost_on_stream(target, enable_pity), worker_seed(sd, worker)),
                        0,
                        done,
                        end,
                    )
                    &&& cost_overflow_on(target, enable_pity, seed_key(worker_seed(sd, worker)), end)
                }
        },
    }
}

/// A worker that completed its share: `samples` has one cost per trial of the
/// share and, with a seed, is a chain of trials on its stream.
pub open spec fn cost_worker_complete(
    target: int,
    enable_pity: bool,
    seed: Option<u64>,
    trials: int,
    threads: int,
    worker: int,
    samples: Seq<usize>,
) -> bool {
    &&& samples.len() == chunk_size(trials, threads, worker)
    &&& all_cost_outcomes(target, enable_pity, samples)
    &&& seed matches Some(sd) ==> exists|end: nat|
        #[trigger] chain_to(
            on_stream(cost_on_stream(target, enable_pity), worker_seed(sd, worker)),
            0,
            samples,
            end,
        )
}

/// The trials of worker `worker` of a target-cost batch split between
/// `threads` workers: its share (`chunk_size`), run one after another on its
/// own generator; `None` as soon as one runs out of countable eggs.
pub fn run_target_cost_worker(
    target: usize,
    trials: usize,
    threads: usize,
    worker: usize,
    seed: Option<u64>,
    enable_pity: bool,
) -> (r: Option<Vec<usize>>)
    requires
        2 <= target <= 7,
        1 <= threads <= trials,
        worker < threads,
    ensures
        cost_worker_output(
            target as int,
            enable_pity,
            seed,
            trials as int,
            threads as int,
            worker as int,
            match r {
                Some(v) => Some(v@),
                None => None,
            },
        ),
{
    let ghost outcome = cost_on_stream(target as int, enable_pity);
    let base = trials / threads;
    let remainder = trials % threads;
    proof {
        lemma_fundamental_div_mod(trials as int, threads as int);
        assert(base <= threads * base) by (nonlinear_arith)
            requires
                1 <= threads,
                0 <= base,
        ;
    }
    let count = if worker < remainder {
        base + 1
    } else {
        base
    };
    let mut rng = worker_rng(seed, worker);
    let ghost stream = on_stream(outcome, worker_seed(seed->0, worker as int));
    let mut samples: Vec<usize> = Vec::new();
    while samples.len() < count
        invariant
            2 <= target <= 7,
            count == chunk_size(trials as int, threads as int, worker as int),
            samples.len() <= count,
            all_cost_outcomes(target as int, enable_pity, samples@),
            seed is Some ==> rng.key() == seed_key(worker_seed(seed->0, worker as int)),
            seed is Some ==> chain_to(stream, 0, samples@, rng.drawn()),
            stream == on_stream(outcome, worker_seed(seed->0, worker as int)),
            outcome == cost_on_stream(target as int, enable_pity),
        decreases count - samples.len(),
    {
        let ghost mid = rng.drawn();
        let ghost key = rng.key();
        let ghost before = samples@;
        match simulate_target_cost_once_with_rng(target, enable_pity, &mut rng) {
            Some(eggs) => {
                samples.push(eggs);
                proof {
                    if seed is Some {
                        lemma_chain_push(stream, 0, before, mid, eggs, rng.drawn());
                    }
                }
            },
            None => {
                proof {
                    assert(cost_overflow_on(target as int, enable_pity, key, mid));
                    if let Some(sd) = seed {
                        assert(chain_to(stream, 0, before, mid));
                    }
                }
                return None;
            },
        }
    }
    proof {
        if let Some(sd) = seed {
            assert(chain_to(
                on_stream(cost_on_stream(target as int, enable_pity), worker_seed(sd, worker as int)),
                0,
                samples@,
                rng.drawn(),
            ));
        }
        assert(samples@.len() == chunk_size(trials as int, threads as int, worker as int));
        assert(cost_worker_complete(
            target as int,
            enable_pity,
            seed,
            trials as int,
            threads as int,
            worker as int,
            samples@,
        ));
        assert(cost_worker_output(
            target as int,
            enable_pity,
            seed,
            trials as int,
            threads as int,
            worker as int,
            Some(samples@),
        ));
    }
    Some(samples)
}

/// Runs a batch of target-cost trials, split between workers as for stock
/// drain (`chunk_size`), each worker drawing from its own generator seeded
/// from `splitmix64(seed ^ worker)`. `None` when some trial's egg count would
/// pass `usize::MAX`, which only pity-disabled trials can do.
pub fn simulate_target_cost_trials(
    target: usize,
    trials: usize,
    requested_threads: Option<usize>,
    seed: Option<u64>,
    enable_pity: bool,
    available_parallelism: usize,
) -> (r: Option<TargetCostSimulationResult>)
    requires
        2 <= target <= 7,
        trials >= 1,
        available_parallelism >= 1,
    ensures
        r matches Some(result) ==> summarizes(
            result,
            result.samples@,
            spec_effective_threads(trials, requested_threads, available_parallelism),
        ) && result.samples.len() == trials && all_cost_outcomes(
            target as int,
            enable_pity,
            result.samples@,
        ),
        r matches Some(result) ==> (seed matches Some(s) ==> workers_output(
            cost_on_stream(target as int, enable_pity),
            s,
            trials as int,
            result.threads as int,
            result.threads as nat,
            result.samples@,
        )),
        enable_pity ==> r is Some,
        r is None ==> overflows_on_some_stream(target as int, enable_pity),
        seed matches Some(s) ==> (r is None <==> seeded_batch_overflow(
            target as int,
            enable_pity,
            s,
            trials as int,
            spec_effective_threads(trials, requested_threads, available_parallelism) as int,
        )),
{
    let ghost outcome = cost_on_stream(target as int, enable_pity);
    let threads = effective_threads(trials, requested_threads, available_parallelism);
    let base = trials / threads;
    let remainder = trials % threads;
    proof {
        lemma_fundamental_div_mod(trials as int, threads as int);
    }
    let mut samples: Vec<usize> = Vec::new();
    let mut worker: usize = 0;
    while worker < threads
        invariant
            2 <= target <= 7,
            1 <= threads <= trials,
            threads == spec_effective_threads(trials, requested_threads, available_parallelism),
            base == trials / threads,
            remainder == trials % threads,
            trials == threads * base + remainder,
            worker <= threads,
            samples.len() == worker * base + if worker < remainder {
                worker as int
            } else {
                remainder as int
            },
            all_cost_outcomes(target as int, enable_pity, samples@),
            outcome == cost_on_stream(target as int, enable_pity),
            seed matches Some(sd) ==> workers_output(
                outcome,
                sd,
                trials as int,
                threads as int,
                worker as nat,
                samples@,
            ),
        decreases threads - worker,
    {
        proof {
            assert(base <= threads * base) by (nonlinear_arith)
                requires
                    1 <= threads,
                    0 <= base,
            ;
            assert((worker + 1) * base == worker * base + base) by (nonlinear_arith);
            assert(worker * base + base <= threads * base) by (nonlinear_arith)
                requires
                    worker < threads,
                    0 <= base,
            ;
        }
        match run_target_cost_worker(target, trials, threads, worker, seed, enable_pity) {
            None => {
                return None;
            },
            Some(chunk) => {
                let mut chunk = chunk;
                let ghost prefix = samples@;
                let ghost part = chunk@;
                samples.append(&mut chunk);
                assert(samples@ =~= prefix + part);
                assert forall|i: int| 0 <= i < samples@.len() implies is_cost_outcome(
                    target as int,
                    enable_pity,
                    #[trigger] samples@[i],
                ) by {
                    if i >= prefix.len() {
                        assert(samples@[i] == part[i - prefix.len()]);
                    } else {
                        assert(samples@[i] == prefix[i]);
                    }
                }
                proof {
                    if let Some(sd) = seed {
                        let stream = on_stream(outcome, worker_seed(sd, worker as int));
                        let end = choose|end: nat| #[trigger] chain_to(stream, 0, part, end);
                        lemma_workers_push(
                            outcome,
                            sd,
                            trials as int,
                            threads as int,
                            worker as nat,
                            prefix,
                            part,
                            end,
                        );
                    }
                }
            },
        }
        worker = worker + 1;
    }
    proof {
        if let Some(sd) = seed {
            lemma_batch_complete_no_overflow(
                target as int,
                enable_pity,
                sd,
                trials as int,
                threads as int,
                samples@,
            );
        }
    }
    Some(summarize_target_cost_samples(samples, threads))
}

} // verus!

verus! {

/// Which theoretical expectations a target-cost run reports.
#[derive(Clone, Copy, Debug, PartialEq, Eq, Structural)]
pub enum TargetCostTheoryMode {
    Auto,
    /// No theoretical value (spelled `none`).
    NoTheory,
    NoPity,
    PityDp,
    All,
}

/// A theoretical expectation of the egg cost.
#[derive(Clone, Copy, Debug, PartialEq, Eq, Structural)]
pub enum TheoryEstimate {
    /// The exact expectation without pity.
    NoPityExact,
    /// The layered approximation with pity.
    PityDpApprox,
}

impl TargetCostTheoryMode {
    /// The option spelling of the mode.
    pub fn as_str(self) -> (r: &'static str)
        ensures
            r@ == (match self {
                TargetCostTheoryMode::Auto => "auto"@,
                TargetCostTheoryMode::NoTheory => "none"@,
                TargetCostTheoryMode::NoPity => "no-pity"@,
                TargetCostTheoryMode::PityDp => "pity-dp"@,
                TargetCostTheoryMode::All => "all"@,
            }),
    {
        match self {
            TargetCostTheoryMode::Auto => "auto",
            TargetCostTheoryMode::NoTheory => "none",
            TargetCostTheoryMode::NoPity => "no-pity",
            TargetCostTheoryMode::PityDp => "pity-dp",
            TargetCostTheoryMode::All => "all",
        }
    }
}

/// `Auto` reports the approximation with pity when pity is enabled and the
/// exact value without pity otherwise; any other mode stands as it is.
pub open spec fn spec_resolve_theory_mode(mode: TargetCostTheoryMode, enable_pity: bool) -> TargetCostTheoryMode {
    match mode {
        TargetCostTheoryMode::Auto => if enable_pity {
            TargetCostTheoryMode::PityDp
        } else {
            TargetCostTheoryMode::NoPity
        },
        other => other,
    }
}

/// Resolves `Auto` against the pity setting.
pub fn resolve_theory_mode(mode: TargetCostTheoryMode, enable_pity: bool) -> (r: TargetCostTheoryMode)
    ensures
        r == spec_resolve_theory_mode(mode, enable_pity),
        r != TargetCostTheoryMode::Auto,
{
    match mode {
        TargetCostTheoryMode::Auto => {
            if enable_pity {
                TargetCostTheoryMode::PityDp
            } else {
                TargetCostTheoryMode::NoPity
            }
        },
        other => other,
    }
}

/// A target-cost run.
#[derive(Clone, Copy, Debug)]
pub struct TargetCostRequest {
    pub target: usize,
    pub trials: usize,
    pub requested_threads: Option<usize>,
    pub seed: Option<u64>,
    pub enable_pity: bool,
    pub theory_mode: TargetCostTheoryMode,
}

/// The integer outcome of a target-cost run, and which theoretical values go
/// with it: the no-pity exact value, the pity approximation, and the one the
/// simulated mean is compared with.
#[derive(Debug)]
pub struct TargetCostOutcome {
    pub simulation: TargetCostSimulationResult,
    pub theory_mode: TargetCostTheoryMode,
    pub show_no_pity: bool,
    pub show_pity_dp: bool,
    pub error_reference: Option<TheoryEstimate>,
}

/// The theoretical value a run compares its mean with: the one matching the
/// pity setting, when the mode reports it.
pub open spec fn spec_error_reference(mode: TargetCostTheoryMode, enable_pity: bool) -> Option<
    TheoryEstimate,
> {
    let resolved = spec_resolve_theory_mode(mode, enable_pity);
    if enable_pity {
        if resolved == TargetCostTheoryMode::PityDp || resolved == TargetCostTheoryMode::All {
            Some(TheoryEstimate::PityDpApprox)
        } else {
            None
        }
    } else {
        if resolved == TargetCostTheoryMode::NoPity || resolved == TargetCostTheoryMode::All {
            Some(TheoryEstimate::NoPityExact)
        } else {
            None
        }
    }
}

/// The target must be a level from 2 to 7.
pub open spec fn target_message() -> Seq<char> {
    "目标等级必须在 2 到 7 之间"@
}

/// A run needs at least one trial.
pub open spec fn trials_message() -> Seq<char> {
    "trials 必须 >= 1"@
}

/// Some trial's egg count passed `usize::MAX`.
pub open spec fn egg_overflow_message() -> Seq<char> {
    "一级蛋消耗超出可计数范围"@
}

/// What a successful run returns for `request`: one sample per trial, each
/// the cost of a trial under the rules, summarised over the effective number
/// of workers; the resolved theory mode and which theoretical values go with
/// it. With a seed, a single trial draws from the seed's own stream and a
/// batch's worker `w` from the stream of `worker_seed(seed, w)`.
pub open spec fn target_cost_run(
    request: TargetCostRequest,
    available_parallelism: usize,
    outcome: TargetCostOutcome,
) -> bool {
    &&& 2 <= request.target <= 7
    &&& outcome.simulation.samples.len() == request.trials
    &&& summarizes(
        outcome.simulation,
        outcome.simulation.samples@,
        spec_effective_threads(request.trials, request.requested_threads, available_parallelism),
    )
    &&& all_cost_outcomes(request.target as int, request.enable_pity, outcome.simulation.samples@)
    &&& outcome.theory_mode == spec_resolve_theory_mode(request.theory_mode, request.enable_pity)
    &&& outcome.show_no_pity == (outcome.theory_mode == TargetCostTheoryMode::NoPity
        || outcome.theory_mode == TargetCostTheoryMode::All)
    &&& outcome.show_pity_dp == (outcome.theory_mode == TargetCostTheoryMode::PityDp
        || outcome.theory_mode == TargetCostTheoryMode::All)
    &&& outcome.error_reference == spec_error_reference(request.theory_mode, request.enable_pity)
    &&& request.seed matches Some(seed) ==> if request.trials == 1 {
        seeded_cost_trial(
            request.target as int,
            request.enable_pity,
            seed,
            outcome.simulation.samples@[0],
        )
    } else {
        workers_output(
            cost_on_stream(request.target as int, request.enable_pity),
            seed,
            request.trials as int,
            outcome.simulation.threads as int,
            outcome.simulation.threads as nat,
            outcome.simulation.samples@,
        )
    }
}

/// Runs a target-cost simulation: checks the request, simulates the trials
/// (one trial with the run's own seed, several split between workers) and
/// resolves which theoretical values go with the result.
pub fn run_target_cost(request: TargetCostRequest, available_parallelism: usize) -> (r: Result<
    TargetCostOutcome,
    String,
>)
    requires
        available_parallelism >= 1,
    ensures
        !(2 <= request.target <= 7) ==> (r matches Err(m) && m@ == target_message()),
        2 <= request.target <= 7 && request.trials == 0 ==> (r matches Err(m) && m@
            == trials_message()),
        2 <= request.target <= 7 && request.trials >= 1 && request.enable_pity ==> r is Ok,
        2 <= request.target <= 7 && request.trials >= 1 ==> (r matches Err(m) ==> m@
            == egg_overflow_message() && !request.enable_pity && overflows_on_some_stream(
            request.target as int,
            request.enable_pity,
        )),
        r matches Ok(outcome) ==> target_cost_run(request, available_parallelism, outcome),
        2 <= request.target <= 7 && request.trials >= 1 ==> (request.seed matches Some(s) ==> (r is Err
            <==> if request.trials == 1 {
            cost_overflow_on(request.target as int, request.enable_pity, seed_key(s), 0)
        } else {
            seeded_batch_overflow(
                request.target as int,
                request.enable_pity,
                s,
                request.trials as int,
                spec_effective_threads(
                    request.trials,
                    request.requested_threads,
                    available_parallelism,
                ) as int,
            )
        })),
{
    match target_cost_threads(request, available_parallelism) {
        Err(message) => {
            return Err(message);
        },
        Ok(_) => {},
    }
    let simulation = if request.trials == 1 {
        match simulate_target_cost_once(request.target, request.seed, request.enable_pity) {
            Some(eggs) => {
                let result = single_target_cost_result(eggs);
                assert(result.samples@ =~= seq![eggs]);
                assert(result.samples@[0] == eggs);
                result
            },
            None => {
                return Err(String::from_str("一级蛋消耗超出可计数范围"));
            },
        }
    } else {
        match simulate_target_cost_trials(
            request.target,
            request.trials,
            request.requested_threads,
            request.seed,
            request.enable_pity,
            available_parallelism,
        ) {
            Some(result) => result,
            None => {
                return Err(String::from_str("一级蛋消耗超出可计数范围"));
            },
        }
    };
    Ok(outcome_with_theory(request, simulation))
}

/// A simulation result with the theoretical values that go with `request`.
fn outcome_with_theory(request: TargetCostRequest, simulation: TargetCostSimulationResult) -> (r:
    TargetCostOutcome)
    ensures
        r.simulation == simulation,
        r.theory_mode == spec_resolve_theory_mode(request.theory_mode, request.enable_pity),
        r.show_no_pity == (r.theory_mode == TargetCostTheoryMode::NoPity || r.theory_mode
            == TargetCostTheoryMode::All),
        r.show_pity_dp == (r.theory_mode == TargetCostTheoryMode::PityDp || r.theory_mode
            == TargetCostTheoryMode::All),
        r.error_reference == spec_error_reference(request.theory_mode, request.enable_pity),
{
    let theory_mode = resolve_theory_mode(request.theory_mode, request.enable_pity);
    let show_no_pity = theory_mode == TargetCostTheoryMode::NoPity || theory_mode
        == TargetCostTheoryMode::All;
    let show_pity_dp = theory_mode == TargetCostTheoryMode::PityDp || theory_mode
        == TargetCostTheoryMode::All;
    let error_reference = if request.enable_pity {
        if show_pity_dp {
            Some(TheoryEstimate::PityDpApprox)
        } else {
            None
        }
    } else {
        if show_no_pity {
            Some(TheoryEstimate::NoPityExact)
        } else {
            None
        }
    };
    TargetCostOutcome { simulation, theory_mode, show_no_pity, show_pity_dp, error_reference }
}

/// The number of workers a target-cost run of `request` uses, or the error for
/// a target outside 2-7 or a run without trials.
pub fn target_cost_threads(request: TargetCostRequest, available_parallelism: usize) -> (r: Result<
    usize,
    String,
>)
    requires
        available_parallelism >= 1,
    ensures
        !(2 <= request.target <= 7) ==> (r matches Err(m) && m@ == target_message()),
        2 <= request.target <= 7 && request.trials == 0 ==> (r matches Err(m) && m@
            == trials_message()),
        2 <= request.target <= 7 && request.trials >= 1 ==> (r matches Ok(threads) && threads
            == spec_effective_threads(
            request.trials,
            request.requested_threads,
            available_parallelism,
        ) && 1 <= threads <= request.trials),
{
    if request.target < 2 || request.target > 7 {
        return Err(String::from_str("目标等级必须在 2 到 7 之间"));
    }
    if request.trials == 0 {
        return Err(String::from_str("trials 必须 >= 1"));
    }
    Ok(effective_threads(request.trials, request.requested_threads, available_parallelism))
}

/// The outcome of a target-cost batch whose workers ran separately: the
/// overflow error when some worker ran out of countable eggs (`None`), else
/// the summary of their samples, worker after worker, over `threads` workers,
/// with the theoretical values that go with `request`.
pub fn finish_target_cost(
    request: TargetCostRequest,
    threads: usize,
    chunks: Option<Vec<Vec<usize>>>,
) -> (r: Result<TargetCostOutcome, String>)
    requires
        chunks matches Some(c) ==> concat_chunks(c@).len() >= 1,
    ensures
        r is Err <==> chunks is None,
        r matches Err(m) ==> m@ == egg_overflow_message(),
        r matches Ok(outcome) ==> {
            let samples = concat_chunks(chunks->0@);
            &&& summarizes(outcome.simulation, samples, threads)
            &&& outcome.theory_mode == spec_resolve_theory_mode(
                request.theory_mode,
                request.enable_pity,
            )
            &&& outcome.show_no_pity == (outcome.theory_mode == TargetCostTheoryMode::NoPity
                || outcome.theory_mode == TargetCostTheoryMode::All)
            &&& outcome.show_pity_dp == (outcome.theory_mode == TargetCostTheoryMode::PityDp
                || outcome.theory_mode == TargetCostTheoryMode::All)
            &&& outcome.error_reference == spec_error_reference(
                request.theory_mode,
                request.enable_pity,
            )
        },
{
    match chunks {
        None => Err(String::from_str("一级蛋消耗超出可计数范围")),
        Some(c) => {
            let samples = concat(&c);
            Ok(outcome_with_theory(request, summarize_target_cost_samples(samples, threads)))
        },
    }
}

/// Runs with a fixed seed are reproducible: two successful target-cost runs
/// with the same target, pity setting, seed and trial count that ran on the
/// same number of workers hold the same samples and the same summary,
/// whatever thread count was asked for.
pub proof fn lemma_target_cost_reproducible(
    request1: TargetCostRequest,
    available1: usize,
    outcome1: TargetCostOutcome,
    request2: TargetCostRequest,
    available2: usize,
    outcome2: TargetCostOutcome,
)
    requires
        target_cost_run(request1, available1, outcome1),
        target_cost_run(request2, available2, outcome2),
        request1.seed is Some,
        request2.seed == request1.seed,
        request2.target == request1.target,
        request2.enable_pity == request1.enable_pity,
        request2.trials == request1.trials,
        outcome2.simulation.threads == outcome1.simulation.threads,
    ensures
        outcome1.simulation.samples@ == outcome2.simulation.samples@,
        outcome1.simulation.trials == outcome2.simulation.trials,
        outcome1.simulation.min == outcome2.simulation.min,
        outcome1.simulation.max == outcome2.simulation.max,
        outcome1.simulation.p50 == outcome2.simulation.p50,
        outcome1.simulation.p90 == outcome2.simulation.p90,
        outcome1.simulation.p95 == outcome2.simulation.p95,
{
    let seed = request1.seed->0;
    let target = request1.target as int;
    let pity = request1.enable_pity;
    let a = outcome1.simulation.samples@;
    let b = outcome2.simulation.samples@;
    if request1.trials == 1 {
        let n1 = choose|next: nat| #[trigger] cost_outcome_on(target, pity, seed_key(seed), 0, a[0], next);
        let n2 = choose|next: nat| #[trigger] cost_outcome_on(target, pity, seed_key(seed), 0, b[0], next);
        lemma_cost_outcome_deterministic(target, pity, seed_key(seed), 0, a[0], n1, b[0], n2);
        assert(a =~= b);
    } else {
        lemma_cost_streams_deterministic(target, pity);
        lemma_workers_unique(
            cost_on_stream(target, pity),
            seed,
            request1.trials as int,
            outcome1.simulation.threads as int,
            outcome1.simulation.threads as nat,
            a,
            b,
        );
    }
}

/// The outputs of workers `0..w` of a target-cost batch, chunk after chunk,
/// are what its first `w` workers give.
proof fn lemma_concat_cost_workers(
    request: TargetCostRequest,
    threads: int,
    chunks: Seq<Vec<usize>>,
    w: nat,
)
    requires
        1 <= threads,
        w <= chunks.len(),
        forall|i: int|
            0 <= i < chunks.len() ==> #[trigger] cost_worker_output(
                request.target as int,
                request.enable_pity,
                request.seed,
                request.trials as int,
                threads,
                i,
                Some(chunks[i]@),
            ),
    ensures
        all_cost_outcomes(request.target as int, request.enable_pity, concat_chunks(chunks.take(w as int))),
        concat_chunks(chunks.take(w as int)).len() == w * (request.trials as int / threads) + if w
            < request.trials as int % threads {
            w as int
        } else {
            request.trials as int % threads
        },
        request.seed matches Some(sd) ==> workers_output(
            cost_on_stream(request.target as int, request.enable_pity),
            sd,
            request.trials as int,
            threads,
            w,
            concat_chunks(chunks.take(w as int)),
        ),
    decreases w,
{
    if w == 0 {
        assert(chunks.take(0) =~= Seq::<Vec<usize>>::empty());
    } else {
        let v = (w - 1) as nat;
        lemma_concat_cost_workers(request, threads, chunks, v);
        assert(chunks.take(w as int).drop_last() =~= chunks.take(v as int));
        let prefix = concat_chunks(chunks.take(v as int));
        let part = chunks[v as int]@;
        assert(cost_worker_output(
            request.target as int,
            request.enable_pity,
            request.seed,
            request.trials as int,
            threads,
            v as int,
            Some(part),
        ));
        assert(concat_chunks(chunks.take(w as int)) == prefix + part);
        assert forall|i: int| 0 <= i < (prefix + part).len() implies is_cost_outcome(
            request.target as int,
            request.enable_pity,
            #[trigger] (prefix + part)[i],
        ) by {
            if i >= prefix.len() {
                assert((prefix + part)[i] == part[i - prefix.len()]);
            } else {
                assert((prefix + part)[i] == prefix[i]);
            }
        }
        assert((v + 1) * (request.trials as int / threads) == v * (request.trials as int / threads)
            + request.trials as int / threads) by (nonlinear_arith);
        if let Some(sd) = request.seed {
            let outcome = cost_on_stream(request.target as int, request.enable_pity);
            let end = choose|end: nat|
                #[trigger] chain_to(on_stream(outcome, worker_seed(sd, v as int)), 0, part, end);
            lemma_workers_push(outcome, sd, request.trials as int, threads, v, prefix, part, end);
        }
    }
}

/// Running the workers of a target-cost batch of several trials separately,
/// on threads, and finishing with their outputs (`finish_target_cost`) gives a
/// run as `run_target_cost` describes it.
pub proof fn lemma_assembled_target_cost(
    request: TargetCostRequest,
    available_parallelism: usize,
    threads: usize,
    chunks: Seq<Vec<usize>>,
    outcome: TargetCostOutcome,
)
    requires
        2 <= request.target <= 7,
        request.trials >= 2,
        threads == spec_effective_threads(
            request.trials,
            request.requested_threads,
            available_parallelism,
        ),
        1 <= threads <= request.trials,
        chunks.len() == threads,
        forall|i: int|
            0 <= i < chunks.len() ==> #[trigger] cost_worker_output(
                request.target as int,
                request.enable_pity,
                request.seed,
                request.trials as int,
                threads as int,
                i,
                Some(chunks[i]@),
            ),
        summarizes(outcome.simulation, concat_chunks(chunks), threads),
        outcome.theory_mode == spec_resolve_theory_mode(request.theory_mode, request.enable_pity),
        outcome.show_no_pity == (outcome.theory_mode == TargetCostTheoryMode::NoPity
            || outcome.theory_mode == TargetCostTheoryMode::All),
        outcome.show_pity_dp == (outcome.theory_mode == TargetCostTheoryMode::PityDp
            || outcome.theory_mode == TargetCostTheoryMode::All),
        outcome.error_reference == spec_error_reference(request.theory_mode, request.enable_pity),
    ensures
        target_cost_run(request, available_parallelism, outcome),
{
    lemma_concat_cost_workers(request, threads as int, chunks, chunks.len());
    assert(chunks.take(chunks.len() as int) =~= chunks);
    lemma_fundamental_div_mod(request.trials as int, threads as int);
    assert(threads * (request.trials as int / threads as int) == (request.trials as int
        / threads as int) * threads) by (nonlinear_arith);
}

/// Resolving a theory mode changes only `Auto`: every other mode is reported
/// as asked, whatever the pity setting, and `Auto` becomes the estimate that
/// matches the pity setting.
pub proof fn lemma_resolve_keeps_explicit_modes(mode: TargetCostTheoryMode, enable_pity: bool)
    ensures
        mode != TargetCostTheoryMode::Auto ==> spec_resolve_theory_mode(mode, enable_pity) == mode,
        mode == TargetCostTheoryMode::Auto && enable_pity ==> spec_resolve_theory_mode(
            mode,
            enable_pity,
        ) == TargetCostTheoryMode::PityDp,
        mode == TargetCostTheoryMode::Auto && !enable_pity ==> spec_resolve_theory_mode(
            mode,
            enable_pity,
        ) == TargetCostTheoryMode::NoPity,
        mode == TargetCostTheoryMode::NoPity ==> spec_error_reference(mode, enable_pity) == (
        if enable_pity {
            None::<TheoryEstimate>
        } else {
            Some(TheoryEstimate::NoPityExact)
        }),
        mode == TargetCostTheoryMode::PityDp ==> spec_error_reference(mode, enable_pity) == (
        if enable_pity {
            Some(TheoryEstimate::PityDpApprox)
        } else {
            None::<TheoryEstimate>
        }),
{
}

} // verus!
