//! Stock drain: starting from a stock of level 1-6 pets, merge level by level
//! for as long as any level holds two pets.
use crate::game::{
    check_pity, lemma_merge_total, lemma_redeem_total, lemma_slot_le_total,
    lemma_two_slots_le_total, merge_model, pity_below_thresholds, redeem_model, redeemable,
    redeemed_model, spec_pity_threshold, total8, try_merge, merge_draw, GameModel, GameState,
};
use crate::parallel::{
    chain_to, chunk_size, concat, concat_chunks, deterministic, effective_threads, lemma_chain_push, lemma_workers_push,
    lemma_workers_unique, on_stream, spec_effective_threads, worker_rng, worker_seed,
    workers_output,
};
use crate::rng::{seed_key, SimRng};
use vstd::arithmetic::div_mod::lemma_fundamental_div_mod;
use vstd::string::StringExecFns;
use vstd::prelude::*;

verus! {

/// A batch of stock-drain trials.
#[derive(Clone, Copy, Debug)]
pub struct StockDrainRequest {
    pub stock: [usize; 6],
    pub trials: usize,
    pub requested_threads: Option<usize>,
    pub seed: Option<u64>,
    pub enable_pity: bool,
}

/// A single stock-drain trial.
#[derive(Clone, Copy, Debug)]
pub struct StockDrainTrialRequest {
    pub stock: [usize; 6],
    pub seed: Option<u64>,
    pub enable_pity: bool,
}

/// The terminal state of one trial: pets of levels 1-7, pity progress of
/// levels 2-7 and the number of pity redemptions of levels 2-7.
#[derive(Clone, Copy, Debug, PartialEq, Eq)]
pub struct StockDrainTrialResult {
    pub pets: [usize; 7],
    pub pity: [usize; 6],
    pub pity_used: [usize; 6],
}

/// The terminal states of a batch, in trial order.
#[derive(Debug, PartialEq, Eq)]
pub struct StockDrainSimulationResult {
    pub trials: usize,
    pub threads: usize,
    pub samples: Vec<StockDrainTrialResult>,
}

/// Sum of a stock of level 1-6 pets.
pub open spec fn stock_total(stock: [usize; 6]) -> int {
    stock[0] + stock[1] + stock[2] + stock[3] + stock[4] + stock[5]
}

/// The pets of the first `k` levels of `stock`.
pub open spec fn partial_total(stock: [usize; 6], k: int) -> int
    decreases k,
{
    if k <= 0 {
        0
    } else {
        partial_total(stock, k - 1) + stock[k - 1]
    }
}

/// The first `k` levels hold no more pets than the whole stock, which is the
/// sum over all six levels.
proof fn lemma_partial_total(stock: [usize; 6], k: int)
    requires
        0 <= k <= 6,
    ensures
        partial_total(stock, k) <= partial_total(stock, 6),
        partial_total(stock, 6) == stock_total(stock),
    decreases 6 - k,
{
    reveal_with_fuel(partial_total, 7);
    if k < 6 {
        lemma_partial_total(stock, k + 1);
    }
}

/// The number of pets in `stock`, or `None` when it does not fit in `usize`
/// (a trial counts every pet of its stock in `usize` arithmetic).
pub fn checked_stock_total(stock: [usize; 6]) -> (r: Option<usize>)
    ensures
        r is Some <==> stock_total(stock) <= usize::MAX,
        r matches Some(total) ==> total == stock_total(stock),
{
    let mut total: usize = 0;
    let mut i: usize = 0;
    while i < 6
        invariant
            i <= 6,
            total == partial_total(stock, i as int),
        decreases 6 - i,
    {
        match total.checked_add(stock[i]) {
            Some(next) => total = next,
            None => {
                proof {
                    lemma_partial_total(stock, i + 1);
                }
                return None;
            },
        }
        i = i + 1;
    }
    proof {
        lemma_partial_total(stock, 6);
    }
    Some(total)
}

/// Eight zero counters.
pub open spec fn zero_counts() -> Seq<usize> {
    Seq::new(8, |l: int| 0usize)
}

/// Per-level sum of two counter tables.
pub open spec fn add_counts(a: Seq<usize>, b: Seq<usize>) -> Seq<usize> {
    Seq::new(8, |l: int| (a[l] + b[l]) as usize)
}

/// The state a trial starts from: the stock as pets of levels 1-6, nothing else.
pub open spec fn stock_model(stock: [usize; 6]) -> GameModel {
    GameModel {
        pets: Seq::new(
            8,
            |l: int|
                if 1 <= l <= 6 {
                    stock[l - 1]
                } else {
                    0usize
                },
        ),
        pity: zero_counts(),
        eggs: 0,
    }
}

/// The rules of a stock-drain trial, driven by the merge outcomes `rolls`.
///
/// Levels are drained from `level` up to 6: while the current level holds two
/// pets they are merged with the next outcome (and, with pity enabled, every
/// reached pity threshold is redeemed right after), then the next level is
/// drained. `used` counts the redemptions per level. The result is the terminal
/// state and the counts, or `None` when `rolls` does not hold exactly one
/// outcome per merge.
pub open spec fn drain_model(
    g: GameModel,
    used: Seq<usize>,
    level: int,
    enable_pity: bool,
    rolls: Seq<bool>,
) -> Option<(GameModel, Seq<usize>)>
    decreases rolls.len(), 7 - level,
{
    if level > 6 || level < 1 {
        if rolls.len() == 0 {
            Some((g, used))
        } else {
            None
        }
    } else if g.pets[level] < 2 {
        drain_model(g, used, level + 1, enable_pity, rolls)
    } else if rolls.len() == 0 {
        None
    } else {
        let next = step_model(g, used, level, enable_pity, rolls[0]);
        drain_model(next.0, next.1, level, enable_pity, rolls.drop_first())
    }
}

/// One merge at `level` with outcome `roll`, followed (with pity enabled) by
/// the redemption of every pity threshold reached; `used` counts redemptions.
pub open spec fn step_model(
    g: GameModel,
    used: Seq<usize>,
    level: int,
    enable_pity: bool,
    roll: bool,
) -> (GameModel, Seq<usize>) {
    let m = merge_model(g, level, roll);
    if enable_pity {
        (redeem_model(m), add_counts(used, redeemed_model(m)))
    } else {
        (m, used)
    }
}

/// The trial result read off a terminal state and its redemption counts.
pub open spec fn result_matches(
    outcome: Option<(GameModel, Seq<usize>)>,
    r: StockDrainTrialResult,
) -> bool {
    &&& outcome is Some
    &&& r.pets@ == outcome.unwrap().0.pets.subrange(1, 8)
    &&& r.pity@ == outcome.unwrap().0.pity.subrange(2, 8)
    &&& r.pity_used@ == outcome.unwrap().1.subrange(2, 8)
}

/// `r` is the terminal state of a trial from `stock` under the game rules, for
/// some sequence of merge outcomes.
pub open spec fn is_drain_outcome(stock: [usize; 6], enable_pity: bool, r: StockDrainTrialResult) -> bool {
    exists|rolls: Seq<bool>|
        result_matches(#[trigger] drain_model(stock_model(stock), zero_counts(), 1, enable_pity, rolls), r)
}

/// The rolls taken so far lead from `start` to `(g, used)` at `level`, whatever
/// comes next.
pub open spec fn follows(
    start: GameModel,
    rolls: Seq<bool>,
    g: GameModel,
    used: Seq<usize>,
    level: int,
    enable_pity: bool,
) -> bool {
    forall|fut: Seq<bool>|
        #[trigger] drain_model(start, zero_counts(), 1, enable_pity, rolls + fut) == drain_model(
            g,
            used,
            level,
            enable_pity,
            fut,
        )
}



/// The merge outcomes `rolls` are the rolls of `key`'s stream from word `pos`
/// on: each merge of the drain takes the next word, at its own level.
pub open spec fn drain_rolls_drawn(
    g: GameModel,
    used: Seq<usize>,
    level: int,
    enable_pity: bool,
    rolls: Seq<bool>,
    key: Seq<u8>,
    pos: nat,
) -> bool
    decreases rolls.len(), 7 - level,
{
    if level > 6 || level < 1 {
        true
    } else if g.pets[level] < 2 {
        drain_rolls_drawn(g, used, level + 1, enable_pity, rolls, key, pos)
    } else if rolls.len() == 0 {
        true
    } else {
        let next = step_model(g, used, level, enable_pity, rolls[0]);
        &&& rolls[0] == merge_draw(key, pos, level)
        &&& drain_rolls_drawn(next.0, next.1, level, enable_pity, rolls.drop_first(), key, pos + 1)
    }
}

/// The rolls taken so far, from word `pos` of `key`'s stream, lead from
/// `start` to `(g, used)` at `level`, and the rest must follow the stream.
pub open spec fn drawn_follows(
    start: GameModel,
    rolls: Seq<bool>,
    g: GameModel,
    used: Seq<usize>,
    level: int,
    enable_pity: bool,
    key: Seq<u8>,
    pos: nat,
) -> bool {
    forall|fut: Seq<bool>|
        #[trigger] drain_rolls_drawn(start, zero_counts(), 1, enable_pity, rolls + fut, key, pos)
            == drain_rolls_drawn(g, used, level, enable_pity, fut, key, pos + rolls.len())
}

/// `r` is the terminal state of a trial from `stock` whose merges take the
/// words of `key`'s stream from `pos` on, and `next` is the word after the
/// trial's last merge.
pub open spec fn drain_outcome_on(
    stock: [usize; 6],
    enable_pity: bool,
    key: Seq<u8>,
    pos: nat,
    r: StockDrainTrialResult,
    next: nat,
) -> bool {
    exists|rolls: Seq<bool>|
        #![trigger drain_model(stock_model(stock), zero_counts(), 1, enable_pity, rolls)]
        {
            &&& result_matches(drain_model(stock_model(stock), zero_counts(), 1, enable_pity, rolls), r)
            &&& drain_rolls_drawn(stock_model(stock), zero_counts(), 1, enable_pity, rolls, key, pos)
            &&& next == pos + rolls.len()
        }
}

/// Stock-drain trials on the stream of seed `s` (its key `seed_key(s)`), from word `p` to
/// word `q`.
pub open spec fn drain_on_stream(stock: [usize; 6], enable_pity: bool) -> spec_fn(
    u64,
    nat,
    StockDrainTrialResult,
    nat,
) -> bool {
    |s: u64, p: nat, r: StockDrainTrialResult, q: nat| drain_outcome_on(stock, enable_pity, seed_key(s), p, r, q)
}

/// Two complete runs of the drain rules whose rolls both follow the same
/// stream from the same word took the same rolls.
proof fn lemma_drawn_rolls_unique(
    g: GameModel,
    used: Seq<usize>,
    level: int,
    enable_pity: bool,
    a: Seq<bool>,
    b: Seq<bool>,
    key: Seq<u8>,
    pos: nat,
)
    requires
        drain_model(g, used, level, enable_pity, a) is Some,
        drain_model(g, used, level, enable_pity, b) is Some,
        drain_rolls_drawn(g, used, level, enable_pity, a, key, pos),
        drain_rolls_drawn(g, used, level, enable_pity, b, key, pos),
    ensures
        a == b,
    decreases a.len(), 7 - level,
{
    if level > 6 || level < 1 {
        assert(a =~= b);
    } else if g.pets[level] < 2 {
        lemma_drawn_rolls_unique(g, used, level + 1, enable_pity, a, b, key, pos);
    } else {
        let next = step_model(g, used, level, enable_pity, a[0]);
        lemma_drawn_rolls_unique(
            next.0,
            next.1,
            level,
            enable_pity,
            a.drop_first(),
            b.drop_first(),
            key,
            pos + 1,
        );
        assert(a =~= seq![a[0]] + a.drop_first());
        assert(b =~= seq![b[0]] + b.drop_first());
    }
}

/// A trial is reproducible: its result, and the word of the stream it
/// stops at, are fixed by the stock, the pity setting, the key and the word it
/// starts at.
pub proof fn lemma_drain_outcome_deterministic(
    stock: [usize; 6],
    enable_pity: bool,
    key: Seq<u8>,
    pos: nat,
    r1: StockDrainTrialResult,
    next1: nat,
    r2: StockDrainTrialResult,
    next2: nat,
)
    requires
        drain_outcome_on(stock, enable_pity, key, pos, r1, next1),
        drain_outcome_on(stock, enable_pity, key, pos, r2, next2),
    ensures
        r1 == r2,
        next1 == next2,
{
    let start = stock_model(stock);
    let a = choose|rolls: Seq<bool>|
        #![trigger drain_model(start, zero_counts(), 1, enable_pity, rolls)]
        {
            &&& result_matches(drain_model(start, zero_counts(), 1, enable_pity, rolls), r1)
            &&& drain_rolls_drawn(start, zero_counts(), 1, enable_pity, rolls, key, pos)
            &&& next1 == pos + rolls.len()
        };
    let b = choose|rolls: Seq<bool>|
        #![trigger drain_model(start, zero_counts(), 1, enable_pity, rolls)]
        {
            &&& result_matches(drain_model(start, zero_counts(), 1, enable_pity, rolls), r2)
            &&& drain_rolls_drawn(start, zero_counts(), 1, enable_pity, rolls, key, pos)
            &&& next2 == pos + rolls.len()
        };
    lemma_drawn_rolls_unique(start, zero_counts(), 1, enable_pity, a, b, key, pos);
    assert(r1.pets =~= r2.pets);
    assert(r1.pity =~= r2.pity);
    assert(r1.pity_used =~= r2.pity_used);
}

/// Seeded stock-drain trials are deterministic on every stream.
proof fn lemma_drain_streams_deterministic(stock: [usize; 6], enable_pity: bool)
    ensures
        forall|s: u64| #[trigger] deterministic(on_stream(drain_on_stream(stock, enable_pity), s)),
{
    assert forall|s: u64| #[trigger] deterministic(on_stream(drain_on_stream(stock, enable_pity), s)) by {
        let f = on_stream(drain_on_stream(stock, enable_pity), s);
        assert forall|p: nat, x1: StockDrainTrialResult, q1: nat, x2: StockDrainTrialResult, q2: nat|
            #![trigger f(p, x1, q1), f(p, x2, q2)]
            f(p, x1, q1) && f(p, x2, q2) implies x1 == x2 && q1 == q2 by {
            lemma_drain_outcome_deterministic(stock, enable_pity, seed_key(s), p, x1, q1, x2, q2);
        }
    }
}

/// One step of a trial: merges two pets of `level` and, with pity enabled,
/// redeems every reached threshold and counts the redemptions in `pity_used`.
/// Returns the merge outcome.
#[verifier::rlimit(60)]
fn merge_and_redeem(
    state: &mut GameState,
    pity_used: &mut [usize; 8],
    level: usize,
    enable_pity: bool,
    rng: &mut SimRng,
    Ghost(bound): Ghost<int>,
) -> (success: bool)
    requires
        1 <= level <= 6,
        old(state).pets[level as int] >= 2,
        bound <= usize::MAX,
        total8(old(state).pets@) + total8(old(state).pity@) + total8(old(pity_used)@) <= bound,
        enable_pity ==> pity_below_thresholds(old(state)@),
    ensures
        (final(state)@, final(pity_used)@) == step_model(
            old(state)@,
            old(pity_used)@,
            level as int,
            enable_pity,
            success,
        ),
        total8(final(state).pets@) + total8(final(state).pity@) + total8(final(pity_used)@) <= bound,
        enable_pity ==> pity_below_thresholds(final(state)@),
        final(state).pets[level as int] < old(state).pets[level as int],
        final(rng).key() == old(rng).key(),
        final(rng).drawn() == old(rng).drawn() + 1,
        success == merge_draw(old(rng).key(), old(rng).drawn(), level as int),
{
    let ghost pre = state@;
    let ghost pre_used = pity_used@;
    proof {
        lemma_slot_le_total(state.pets@, level as int);
        lemma_two_slots_le_total(state.pets@, level as int, level + 1);
        lemma_slot_le_total(state.pity@, level + 1);
    }
    let success = try_merge(state, level, rng);
    let ghost merged = state@;
    proof {
        lemma_merge_total(pre, level as int, success);
    }
    if enable_pity {
        proof {
            assert forall|l: int| redeemable(state@, l) implies state.pets[l] < usize::MAX by {
                lemma_slot_le_total(state.pets@, l);
                lemma_slot_le_total(state.pity@, l);
            }
            lemma_redeem_total(state@);
        }
        let redeemed = check_pity(state);
        let mut pl: usize = 2;
        while pl <= 7
            invariant
                2 <= pl <= 8,
                redeemed@ == redeemed_model(merged),
                bound <= usize::MAX,
                total8(state.pets@) + total8(state.pity@) + total8(pre_used) + 4 * total8(redeemed@)
                    <= bound,
                forall|l: int| 0 <= l < 8 ==> redeemed@[l] <= 1,
                forall|l: int|
                    0 <= l < 8 ==> #[trigger] pity_used@[l] == (if l < pl {
                        (pre_used[l] + redeemed@[l]) as usize
                    } else {
                        pre_used[l]
                    }),
            decreases 8 - pl,
        {
            proof {
                lemma_slot_le_total(pre_used, pl as int);
            }
            pity_used[pl] = pity_used[pl] + redeemed[pl];
            pl = pl + 1;
        }
        assert(pity_used@ =~= add_counts(pre_used, redeemed_model(merged)));
        proof {
            assert(total8(pity_used@) == total8(pre_used) + total8(redeemed@));
            assert forall|l: int| 2 <= l <= 7 implies state.pity[l] < spec_pity_threshold(l) by {
                if l != level + 1 {
                    assert(merged.pity[l] == pre.pity[l]);
                }
            }
        }
    }
    success
}

/// One trial: drains every level of `stock` with merge outcomes drawn from `rng`.
pub fn simulate_stock_drain_once(stock: [usize; 6], enable_pity: bool, rng: &mut SimRng) -> (r:
    StockDrainTrialResult)
    requires
        stock_total(stock) <= usize::MAX,
    ensures
        is_drain_outcome(stock, enable_pity, r),
        final(rng).key() == old(rng).key(),
        drain_outcome_on(stock, enable_pity, old(rng).key(), old(rng).drawn(), r, final(rng).drawn()),
{
    let ghost key0 = rng.key();
    let ghost pos0 = rng.drawn();
    let mut state = GameState {
        pets: [0, stock[0], stock[1], stock[2], stock[3], stock[4], stock[5], 0],
        pity: [0; 8],
        c1: 0,
    };
    let mut pity_used = [0usize; 8];
    let ghost start = state@;
    let ghost mut rolls: Seq<bool> = Seq::empty();
    proof {
        assert(state.pets@ =~= stock_model(stock).pets);
        assert(state.pity@ =~= zero_counts());
        assert(pity_used@ =~= zero_counts());
        assert forall|fut: Seq<bool>|
            #[trigger] drain_model(start, zero_counts(), 1, enable_pity, rolls + fut) == drain_model(
                state@,
                pity_used@,
                1,
                enable_pity,
                fut,
            ) by {
            assert(rolls + fut =~= fut);
        }
        {
            assert forall|fut: Seq<bool>|
                #[trigger] drain_rolls_drawn(start, zero_counts(), 1, enable_pity, rolls + fut, key0, pos0)
                    == drain_rolls_drawn(state@, pity_used@, 1, enable_pity, fut, key0, pos0 + rolls.len()) by {
                assert(rolls + fut =~= fut);
            }
        }
    }
    let mut level: usize = 1;
    while level <= 6
        invariant
            1 <= level <= 7,
            start == stock_model(stock),
            stock_total(stock) <= usize::MAX,
            follows(start, rolls, state@, pity_used@, level as int, enable_pity),
            total8(state.pets@) + total8(state.pity@) + total8(pity_used@) <= stock_total(stock),
            enable_pity ==> pity_below_thresholds(state@),
            rng.key() == key0,
            rng.drawn() == pos0 + rolls.len(),
            drawn_follows(
                start,
                rolls,
                state@,
                pity_used@,
                level as int,
                enable_pity,
                key0,
                pos0,
            ),
        decreases 7 - level,
    {
        while state.pets[level] >= 2
            invariant
                1 <= level <= 6,
                start == stock_model(stock),
                stock_total(stock) <= usize::MAX,
            stock_total(stock) <= usize::MAX,
                follows(start, rolls, state@, pity_used@, level as int, enable_pity),
                total8(state.pets@) + total8(state.pity@) + total8(pity_used@) <= stock_total(
                    stock,
                ),
                enable_pity ==> pity_below_thresholds(state@),
                rng.key() == key0,
                rng.drawn() == pos0 + rolls.len(),
                drawn_follows(
                    start,
                    rolls,
                    state@,
                    pity_used@,
                    level as int,
                    enable_pity,
                    key0,
                    pos0,
                ),
            decreases state.pets[level as int],
        {
            let ghost pre = state@;
            let ghost pre_used = pity_used@;
            let ghost pre_rolls = rolls;
            let success = merge_and_redeem(
                &mut state,
                &mut pity_used,
                level,
                enable_pity,
                rng,
                Ghost(stock_total(stock)),
            );
            proof {
                rolls = pre_rolls.push(success);
                assert forall|fut: Seq<bool>|
                    #[trigger] drain_model(start, zero_counts(), 1, enable_pity, rolls + fut)
                        == drain_model(state@, pity_used@, level as int, enable_pity, fut) by {
                    let longer = seq![success] + fut;
                    assert(rolls + fut =~= pre_rolls + longer);
                    assert(longer.drop_first() =~= fut);
                    assert(longer[0] == success);
                    assert(drain_model(start, zero_counts(), 1, enable_pity, pre_rolls + longer)
                        == drain_model(pre, pre_used, level as int, enable_pity, longer));
                }
                {
                    assert forall|fut: Seq<bool>|
                        #[trigger] drain_rolls_drawn(start, zero_counts(), 1, enable_pity, rolls + fut, key0, pos0)
                            == drain_rolls_drawn(
                            state@,
                            pity_used@,
                            level as int,
                            enable_pity,
                            fut,
                            key0,
                            pos0 + rolls.len(),
                        ) by {
                        let longer = seq![success] + fut;
                        assert(rolls + fut =~= pre_rolls + longer);
                        assert(longer.drop_first() =~= fut);
                        assert(longer[0] == success);
                        assert(drain_rolls_drawn(start, zero_counts(), 1, enable_pity, pre_rolls + longer, key0, pos0)
                            == drain_rolls_drawn(
                            pre,
                            pre_used,
                            level as int,
                            enable_pity,
                            longer,
                            key0,
                            pos0 + pre_rolls.len(),
                        ));
                    }
                }
            }
        }
        proof {
            assert forall|fut: Seq<bool>|
                #[trigger] drain_model(start, zero_counts(), 1, enable_pity, rolls + fut)
                    == drain_model(state@, pity_used@, level + 1, enable_pity, fut) by {
                assert(drain_model(start, zero_counts(), 1, enable_pity, rolls + fut)
                    == drain_model(state@, pity_used@, level as int, enable_pity, fut));
            }
            {
                assert forall|fut: Seq<bool>|
                    #[trigger] drain_rolls_drawn(start, zero_counts(), 1, enable_pity, rolls + fut, key0, pos0)
                        == drain_rolls_drawn(
                        state@,
                        pity_used@,
                        level + 1,
                        enable_pity,
                        fut,
                        key0,
                        pos0 + rolls.len(),
                    ) by {
                    assert(drain_rolls_drawn(start, zero_counts(), 1, enable_pity, rolls + fut, key0, pos0)
                        == drain_rolls_drawn(
                        state@,
                        pity_used@,
                        level as int,
                        enable_pity,
                        fut,
                        key0,
                        pos0 + rolls.len(),
                    ));
                }
            }
        }
        level = level + 1;
    }
    let r = StockDrainTrialResult {
        pets: [
            state.pets[1],
            state.pets[2],
            state.pets[3],
            state.pets[4],
            state.pets[5],
            state.pets[6],
            state.pets[7],
        ],
        pity: [state.pity[2], state.pity[3], state.pity[4], state.pity[5], state.pity[6], state.pity[7]],
        pity_used: [
            pity_used[2],
            pity_used[3],
            pity_used[4],
            pity_used[5],
            pity_used[6],
            pity_used[7],
        ],
    };
    proof {
        let empty: Seq<bool> = Seq::empty();
        assert(rolls + empty =~= rolls);
        assert(drain_model(start, zero_counts(), 1, enable_pity, rolls + empty) == drain_model(
            state@,
            pity_used@,
            7,
            enable_pity,
            empty,
        ));
        assert(r.pets@ =~= state.pets@.subrange(1, 8));
        assert(r.pity@ =~= state.pity@.subrange(2, 8));
        assert(r.pity_used@ =~= pity_used@.subrange(2, 8));
        assert(result_matches(drain_model(stock_model(stock), zero_counts(), 1, enable_pity, rolls), r));
        {
            assert(drain_rolls_drawn(start, zero_counts(), 1, enable_pity, rolls + empty, key0, pos0)
                == drain_rolls_drawn(state@, pity_used@, 7, enable_pity, empty, key0, pos0 + rolls.len()));
            assert(drain_rolls_drawn(start, zero_counts(), 1, enable_pity, rolls, key0, pos0));
        }
    }
    r
}

/// Runs one trial with a generator seeded from `request.seed`, or from the
/// operating system when there is no seed.
pub fn run_stock_drain_trial(request: StockDrainTrialRequest) -> (r: StockDrainTrialResult)
    requires
        stock_total(request.stock) <= usize::MAX,
    ensures
        is_drain_outcome(request.stock, request.enable_pity, r),
        request.seed matches Some(seed) ==> seeded_trial(request.stock, request.enable_pity, seed, r),
{
    let mut rng = SimRng::new(request.seed);
    simulate_stock_drain_once(request.stock, request.enable_pity, &mut rng)
}

} // verus!

verus! {

/// `r` is the result of a trial from `stock` on a generator freshly seeded with `seed`.
pub open spec fn seeded_trial(stock: [usize; 6], enable_pity: bool, seed: u64, r: StockDrainTrialResult) -> bool {
    exists|next: nat| #[trigger] drain_outcome_on(stock, enable_pity, seed_key(seed), 0, r, next)
}

/// A single trial with a fixed seed is reproducible: two trials from the same
/// stock, with the same pity setting and seed, end in the same state.
pub proof fn lemma_trial_reproducible(
    stock: [usize; 6],
    enable_pity: bool,
    seed: u64,
    r1: StockDrainTrialResult,
    r2: StockDrainTrialResult,
)
    requires
        seeded_trial(stock, enable_pity, seed, r1),
        seeded_trial(stock, enable_pity, seed, r2),
    ensures
        r1 == r2,
{
    let n1 = choose|next: nat| #[trigger] drain_outcome_on(stock, enable_pity, seed_key(seed), 0, r1, next);
    let n2 = choose|next: nat| #[trigger] drain_outcome_on(stock, enable_pity, seed_key(seed), 0, r2, next);
    lemma_drain_outcome_deterministic(stock, enable_pity, seed_key(seed), 0, r1, n1, r2, n2);
}

/// A batch of one trial: the trial run with the run's own seed (not a
/// worker's), on one worker.
pub fn single_stock_drain_result(request: StockDrainTrialRequest) -> (r: StockDrainSimulationResult)
    requires
        stock_total(request.stock) <= usize::MAX,
    ensures
        r.trials == 1,
        r.threads == 1,
        r.samples.len() == 1,
        is_drain_outcome(request.stock, request.enable_pity, r.samples@[0]),
        request.seed matches Some(seed) ==> seeded_trial(
            request.stock,
            request.enable_pity,
            seed,
            r.samples@[0],
        ),
{
    let sample = run_stock_drain_trial(request);
    let samples = vec![sample];
    assert(samples@[0] == sample);
    StockDrainSimulationResult { trials: 1, threads: 1, samples }
}

/// Every sample is the terminal state of a trial from `stock` under the rules.
pub open spec fn all_drain_outcomes(
    stock: [usize; 6],
    enable_pity: bool,
    samples: Seq<StockDrainTrialResult>,
) -> bool {
    forall|i: int| 0 <= i < samples.len() ==> is_drain_outcome(stock, enable_pity, #[trigger] samples[i])
}

/// `samples` are what worker `worker` of a batch split between `threads`
/// workers gives: its share of trials, each a terminal state under the rules,
/// and with a seed a chain of trials on the stream of `worker_seed(seed, worker)`.
pub open spec fn stock_drain_worker_output(
    request: StockDrainRequest,
    threads: int,
    worker: int,
    samples: Seq<StockDrainTrialResult>,
) -> bool {
    &&& samples.len() == chunk_size(request.trials as int, threads, worker)
    &&& all_drain_outcomes(request.stock, request.enable_pity, samples)
    &&& request.seed matches Some(sd) ==> exists|end: nat|
        #[trigger] chain_to(
            on_stream(drain_on_stream(request.stock, request.enable_pity), worker_seed(sd, worker)),
            0,
            samples,
            end,
        )
}

/// The trials of worker `worker` when a batch is split between `threads`
/// workers: its share (`chunk_size`), run one after another on its own
/// generator, seeded from `worker_seed(seed, worker)` when there is a seed.
pub fn run_stock_drain_worker(request: StockDrainRequest, threads: usize, worker: usize) -> (r: Vec<
    StockDrainTrialResult,
>)
    requires
        1 <= threads <= request.trials,
        worker < threads,
        stock_total(request.stock) <= usize::MAX,
    ensures
        stock_drain_worker_output(request, threads as int, worker as int, r@),
{
    let ghost outcome = drain_on_stream(request.stock, request.enable_pity);
    let base = request.trials / threads;
    let remainder = request.trials % threads;
    proof {
        lemma_fundamental_div_mod(request.trials as int, threads as int);
        assert(base <= threads * base) by (nonlinear_arith)
            requires
                1 <= threads,
                0 <= base,
        ;
    }
    let count = if worker < remainder {
        base + 1
    } else {
        base
    };
    let mut rng = worker_rng(request.seed, worker);
    let ghost stream = on_stream(outcome, worker_seed(request.seed->0, worker as int));
    let mut samples: Vec<StockDrainTrialResult> = Vec::new();
    while samples.len() < count
        invariant
            count == chunk_size(request.trials as int, threads as int, worker as int),
            samples.len() <= count,
            stock_total(request.stock) <= usize::MAX,
            all_drain_outcomes(request.stock, request.enable_pity, samples@),
            request.seed is Some ==> rng.key() == seed_key(worker_seed(request.seed->0, worker as int)),
            request.seed is Some ==> chain_to(stream, 0, samples@, rng.drawn()),
            stream == on_stream(outcome, worker_seed(request.seed->0, worker as int)),
            outcome == drain_on_stream(request.stock, request.enable_pity),
        decreases count - samples.len(),
    {
        let ghost mid = rng.drawn();
        let ghost before = samples@;
        let sample = simulate_stock_drain_once(request.stock, request.enable_pity, &mut rng);
        samples.push(sample);
        proof {
            if request.seed is Some {
                lemma_chain_push(stream, 0, before, mid, sample, rng.drawn());
            }
        }
    }
    samples
}

/// Runs a batch of trials. The trials are split between
/// `effective_threads(..)` workers as `chunk_size` says; each worker draws from
/// its own generator (`run_stock_drain_worker`), and the samples come out
/// worker by worker, in order.
pub fn simulate_stock_drain_trials(request: StockDrainRequest, available_parallelism: usize) -> (r:
    StockDrainSimulationResult)
    requires
        request.trials >= 1,
        available_parallelism >= 1,
        stock_total(request.stock) <= usize::MAX,
    ensures
        r.trials == request.trials,
        r.threads == spec_effective_threads(
            request.trials,
            request.requested_threads,
            available_parallelism,
        ),
        r.samples.len() == request.trials,
        all_drain_outcomes(request.stock, request.enable_pity, r.samples@),
        request.seed matches Some(seed) ==> workers_output(
            drain_on_stream(request.stock, request.enable_pity),
            seed,
            request.trials as int,
            r.threads as int,
            r.threads as nat,
            r.samples@,
        ),
{
    let ghost outcome = drain_on_stream(request.stock, request.enable_pity);
    let trials = request.trials;
    let threads = effective_threads(trials, request.requested_threads, available_parallelism);
    let base = trials / threads;
    let remainder = trials % threads;
    proof {
        lemma_fundamental_div_mod(trials as int, threads as int);
    }
    let mut samples: Vec<StockDrainTrialResult> = Vec::new();
    let mut worker: usize = 0;
    while worker < threads
        invariant
            1 <= threads <= trials,
            trials == request.trials,
            base == trials / threads,
            remainder == trials % threads,
            trials == threads * base + remainder,
            worker <= threads,
            samples.len() == worker * base + if worker < remainder {
                worker as int
            } else {
                remainder as int
            },
            stock_total(request.stock) <= usize::MAX,
            all_drain_outcomes(request.stock, request.enable_pity, samples@),
            outcome == drain_on_stream(request.stock, request.enable_pity),
            request.seed matches Some(sd) ==> workers_output(
                outcome,
                sd,
                trials as int,
                threads as int,
                worker as nat,
                samples@,
            ),
        decreases threads - worker,
    {
        proof {
            assert(base <= threads * base) by (nonlinear_arith)
                requires
                    1 <= threads,
                    0 <= base,
            ;
            assert((worker + 1) * base == worker * base + base) by (nonlinear_arith);
            assert(worker * base + base <= threads * base) by (nonlinear_arith)
                requires
                    worker < threads,
                    0 <= base,
            ;
        }
        let mut chunk = run_stock_drain_worker(request, threads, worker);
        let ghost prefix = samples@;
        let ghost part = chunk@;
        samples.append(&mut chunk);
        assert(samples@ =~= prefix + part);
        proof {
            if let Some(sd) = request.seed {
                let stream = on_stream(outcome, worker_seed(sd, worker as int));
                let end = choose|end: nat| #[trigger] chain_to(stream, 0, part, end);
                lemma_workers_push(outcome, sd, trials as int, threads as int, worker as nat, prefix, part, end);
            }
        }
        worker = worker + 1;
    }
    StockDrainSimulationResult { trials, threads, samples }
}

/// What a batch run returns for `request`: one sample per trial, each a
/// terminal state under the rules, split between the effective number of
/// workers; with a seed, worker `w` draws from the stream of
/// `worker_seed(seed, w)`.
pub open spec fn stock_drain_batch(
    request: StockDrainRequest,
    available_parallelism: usize,
    result: StockDrainSimulationResult,
) -> bool {
    &&& result.trials == request.trials
    &&& result.threads == spec_effective_threads(
        request.trials,
        request.requested_threads,
        available_parallelism,
    )
    &&& result.samples.len() == request.trials
    &&& all_drain_outcomes(request.stock, request.enable_pity, result.samples@)
    &&& request.seed matches Some(seed) ==> workers_output(
        drain_on_stream(request.stock, request.enable_pity),
        seed,
        request.trials as int,
        result.threads as int,
        result.threads as nat,
        result.samples@,
    )
}

/// The number of workers a batch of `request` runs on, or the error for a
/// batch without trials.
pub fn stock_drain_threads(request: StockDrainRequest, available_parallelism: usize) -> (r: Result<
    usize,
    String,
>)
    requires
        available_parallelism >= 1,
    ensures
        r is Err <==> request.trials == 0,
        r matches Err(message) ==> message@ == "trials 必须 >= 1"@,
        r matches Ok(threads) ==> threads == spec_effective_threads(
            request.trials,
            request.requested_threads,
            available_parallelism,
        ) && 1 <= threads <= request.trials,
{
    if request.trials == 0 {
        return Err(String::from_str("trials 必须 >= 1"));
    }
    Ok(effective_threads(request.trials, request.requested_threads, available_parallelism))
}

/// A batch made of its workers' samples, worker after worker.
pub fn assemble_stock_drain(request: StockDrainRequest, threads: usize, chunks: Vec<
    Vec<StockDrainTrialResult>,
>) -> (r: StockDrainSimulationResult)
    ensures
        r.trials == request.trials,
        r.threads == threads,
        r.samples@ == concat_chunks(chunks@),
{
    let samples = concat(&chunks);
    StockDrainSimulationResult { trials: request.trials, threads, samples }
}

/// Runs a batch of stock-drain trials; a batch needs at least one trial.
pub fn run_stock_drain(request: StockDrainRequest, available_parallelism: usize) -> (r: Result<
    StockDrainSimulationResult,
    String,
>)
    requires
        available_parallelism >= 1,
        stock_total(request.stock) <= usize::MAX,
    ensures
        r is Err <==> request.trials == 0,
        r matches Err(message) ==> message@ == "trials 必须 >= 1"@,
        r matches Ok(result) ==> stock_drain_batch(request, available_parallelism, result),
{
    match stock_drain_threads(request, available_parallelism) {
        Err(message) => Err(message),
        Ok(_) => Ok(simulate_stock_drain_trials(request, available_parallelism)),
    }
}

} // verus!

verus! {

/// The outputs of workers `0..w`, chunk after chunk, are what the first `w`
/// workers of a batch give.
proof fn lemma_concat_workers(
    request: StockDrainRequest,
    threads: int,
    chunks: Seq<Vec<StockDrainTrialResult>>,
    w: nat,
)
    requires
        1 <= threads,
        w <= chunks.len(),
        forall|i: int|
            0 <= i < chunks.len() ==> #[trigger] stock_drain_worker_output(
                request,
                threads,
                i,
                chunks[i]@,
            ),
    ensures
        all_drain_outcomes(request.stock, request.enable_pity, concat_chunks(chunks.take(w as int))),
        concat_chunks(chunks.take(w as int)).len() == w * ((request.trials as int / threads)) + if w < (request.trials as int % threads) {
            w as int
        } else {
            (request.trials as int % threads)
        },
        request.seed matches Some(sd) ==> workers_output(
            drain_on_stream(request.stock, request.enable_pity),
            sd,
            request.trials as int,
            threads,
            w,
            concat_chunks(chunks.take(w as int)),
        ),
    decreases w,
{
    if w == 0 {
        assert(chunks.take(0) =~= Seq::<Vec<StockDrainTrialResult>>::empty());
    } else {
        let v = (w - 1) as nat;
        lemma_concat_workers(request, threads, chunks, v);
        assert(chunks.take(w as int).drop_last() =~= chunks.take(v as int));
        let prefix = concat_chunks(chunks.take(v as int));
        let part = chunks[v as int]@;
        assert(stock_drain_worker_output(request, threads, v as int, part));
        assert(concat_chunks(chunks.take(w as int)) == prefix + part);
        assert forall|i: int| 0 <= i < (prefix + part).len() implies is_drain_outcome(
            request.stock,
            request.enable_pity,
            #[trigger] (prefix + part)[i],
        ) by {
            if i >= prefix.len() {
                assert((prefix + part)[i] == part[i - prefix.len()]);
            }
        }
        assert((v + 1) * ((request.trials as int / threads)) == v * ((request.trials as int / threads)) + (request.trials as int / threads)) by (nonlinear_arith);
        if let Some(sd) = request.seed {
            let outcome = drain_on_stream(request.stock, request.enable_pity);
            let end = choose|end: nat|
                #[trigger] chain_to(on_stream(outcome, worker_seed(sd, v as int)), 0, part, end);
            lemma_workers_push(outcome, sd, request.trials as int, threads, v, prefix, part, end);
        }
    }
}

/// Running the workers of a batch separately, on threads, and putting their
/// outputs together worker after worker gives a batch as `run_stock_drain`
/// describes it.
pub proof fn lemma_assembled_stock_drain(
    request: StockDrainRequest,
    available_parallelism: usize,
    chunks: Seq<Vec<StockDrainTrialResult>>,
    result: StockDrainSimulationResult,
)
    requires
        request.trials >= 1,
        result.threads == spec_effective_threads(
            request.trials,
            request.requested_threads,
            available_parallelism,
        ),
        1 <= result.threads <= request.trials,
        chunks.len() == result.threads,
        forall|i: int|
            0 <= i < chunks.len() ==> #[trigger] stock_drain_worker_output(
                request,
                result.threads as int,
                i,
                chunks[i]@,
            ),
        result.trials == request.trials,
        result.samples@ == concat_chunks(chunks),
    ensures
        stock_drain_batch(request, available_parallelism, result),
{
    let threads = result.threads as int;
    lemma_concat_workers(request, threads, chunks, chunks.len());
    assert(chunks.take(chunks.len() as int) =~= chunks);
    lemma_fundamental_div_mod(request.trials as int, threads);
    assert(threads * ((request.trials as int / threads)) == ((request.trials as int / threads)) * threads) by (nonlinear_arith);
}

/// Runs with a fixed seed are reproducible: two batches from the same stock,
/// pity setting, seed and trial count that ran on the same number of workers
/// hold the same samples, whatever thread count was asked for.
pub proof fn lemma_stock_drain_reproducible(
    request1: StockDrainRequest,
    available1: usize,
    result1: StockDrainSimulationResult,
    request2: StockDrainRequest,
    available2: usize,
    result2: StockDrainSimulationResult,
)
    requires
        stock_drain_batch(request1, available1, result1),
        stock_drain_batch(request2, available2, result2),
        request1.seed is Some,
        request2.seed == request1.seed,
        request2.stock == request1.stock,
        request2.enable_pity == request1.enable_pity,
        request2.trials == request1.trials,
        result2.threads == result1.threads,
    ensures
        result1.trials == result2.trials,
        result1.samples@ == result2.samples@,
{
    lemma_drain_streams_deterministic(request1.stock, request1.enable_pity);
    lemma_workers_unique(
        drain_on_stream(request1.stock, request1.enable_pity),
        request1.seed->0,
        request1.trials as int,
        result1.threads as int,
        result1.threads as nat,
        result1.samples@,
        result2.samples@,
    );
}

/// Induction over the drain rules: levels below the current one stay below two
/// pets, pity progress stays below its thresholds when pity is enabled, and no
/// redemption is counted when it is disabled.
proof fn lemma_drain_terminal(
    g: GameModel,
    used: Seq<usize>,
    level: int,
    enable_pity: bool,
    rolls: Seq<bool>,
)
    requires
        g.pets.len() == 8,
        g.pity.len() == 8,
        used.len() == 8,
        1 <= level <= 7,
        forall|l: int| 1 <= l < level ==> g.pets[l] < 2,
        enable_pity ==> pity_below_thresholds(g),
        drain_model(g, used, level, enable_pity, rolls) is Some,
    ensures
        ({
            let (h, u) = drain_model(g, used, level, enable_pity, rolls).unwrap();
            &&& h.pets.len() == 8
            &&& h.pity.len() == 8
            &&& forall|l: int| 1 <= l <= 6 ==> h.pets[l] < 2
            &&& enable_pity ==> pity_below_thresholds(h)
            &&& !enable_pity ==> u == used
        }),
    decreases rolls.len(), 7 - level,
{
    if level > 6 {
    } else if g.pets[level] < 2 {
        lemma_drain_terminal(g, used, level + 1, enable_pity, rolls);
    } else {
        let m = merge_model(g, level, rolls[0]);
        let next = step_model(g, used, level, enable_pity, rolls[0]);
        assert forall|l: int| 0 <= l < 8 && l != level + 1 implies m.pity[l] == g.pity[l] by {}
        if enable_pity {
            assert forall|l: int| 2 <= l <= 7 && l != level + 1 implies !redeemable(m, l) by {}
            assert forall|l: int| 1 <= l < level implies next.0.pets[l] < 2 by {
                assert(!redeemable(m, l));
            }
            assert forall|l: int| 2 <= l <= 7 implies next.0.pity[l] < spec_pity_threshold(l) by {
                if l != level + 1 {
                    assert(!redeemable(m, l));
                }
            }
        }
        lemma_drain_terminal(next.0, next.1, level, enable_pity, rolls.drop_first());
    }
}

/// Every trial ends with fewer than two pets at each of levels 1-6 (nothing is
/// left to merge); with pity enabled every pity progress of levels 2-7 ends
/// below its threshold, and with pity disabled no redemption is counted.
pub proof fn lemma_drain_outcome_is_terminal(
    stock: [usize; 6],
    enable_pity: bool,
    r: StockDrainTrialResult,
)
    requires
        is_drain_outcome(stock, enable_pity, r),
    ensures
        forall|i: int| 0 <= i < 6 ==> r.pets[i] < 2,
        enable_pity ==> forall|i: int| 0 <= i < 6 ==> r.pity[i] < spec_pity_threshold(i + 2),
        !enable_pity ==> forall|i: int| 0 <= i < 6 ==> r.pity_used[i] == 0,
{
    let rolls = choose|rolls: Seq<bool>|
        result_matches(
            #[trigger] drain_model(stock_model(stock), zero_counts(), 1, enable_pity, rolls),
            r,
        );
    lemma_drain_terminal(stock_model(stock), zero_counts(), 1, enable_pity, rolls);
    let (h, u) = drain_model(stock_model(stock), zero_counts(), 1, enable_pity, rolls).unwrap();
    assert forall|i: int| 0 <= i < 6 implies r.pets[i] < 2 by {
        assert(r.pets@[i] == h.pets[i + 1]);
    }
    if enable_pity {
        assert forall|i: int| 0 <= i < 6 implies r.pity[i] < spec_pity_threshold(i + 2) by {
            assert(r.pity@[i] == h.pity[i + 2]);
        }
    } else {
        assert forall|i: int| 0 <= i < 6 implies r.pity_used[i] == 0 by {
            assert(r.pity_used@[i] == u[i + 2]);
        }
    }
}

/// Every redemption of a step is counted at its level: with pity enabled, the
/// redemptions counted at each level grow by exactly the pets that level
/// gains after the merge (one per redemption, none consumed); with pity
/// disabled nothing is counted.
pub proof fn lemma_step_counts_redemptions(
    g: GameModel,
    used: Seq<usize>,
    level: int,
    roll: bool,
)
    requires
        g.pets.len() == 8,
        g.pity.len() == 8,
        used.len() == 8,
        1 <= level <= 6,
        g.pets[level] >= 2,
        forall|l: int| 0 <= l < 8 ==> #[trigger] g.pets[l] + 2 <= usize::MAX,
        forall|l: int| 0 <= l < 8 ==> #[trigger] used[l] < usize::MAX,
    ensures
        forall|l: int|
            0 <= l < 8 ==> #[trigger] step_model(g, used, level, true, roll).1[l] - used[l]
                == step_model(g, used, level, true, roll).0.pets[l] - merge_model(
                g,
                level,
                roll,
            ).pets[l],
        forall|l: int|
            0 <= l < 8 ==> (#[trigger] step_model(g, used, level, true, roll).1[l] - used[l]
                == 1 <==> redeemable(merge_model(g, level, roll), l)),
        step_model(g, used, level, false, roll).1 == used,
{
    let m = merge_model(g, level, roll);
    assert forall|l: int| 0 <= l < 8 implies m.pets[l] + 1 <= usize::MAX by {
        assert(g.pets[l] + 2 <= usize::MAX);
        assert(g.pets[level + 1] + 2 <= usize::MAX);
    }
}

} // verus!
