//! The game rules: pets of levels 1 to 7, merges with a chance of success,
//! and pity progress that turns repeated failures into a guaranteed pet.
use crate::rng::{random_ratio, ratio_draw, SimRng};
use vstd::prelude::*;

verus! {

/// Highest pet level.
pub const MAX_LEVEL: usize = 7;

/// The state of one simulated player.
///
/// `pets[n]` is the number of level-`n` pets (index 0 is unused), `pity[n]` the
/// pity progress towards level `n` (indices 0 and 1 are unused), and `c1` the
/// number of level-1 eggs opened so far.
#[derive(Clone, Copy, Debug, PartialEq, Eq)]
pub struct GameState {
    pub pets: [usize; 8],
    pub pity: [usize; 8],
    pub c1: usize,
}

/// The mathematical value of a [`GameState`].
pub struct GameModel {
    pub pets: Seq<usize>,
    pub pity: Seq<usize>,
    pub eggs: usize,
}

impl View for GameState {
    type V = GameModel;

    open spec fn view(&self) -> GameModel {
        GameModel { pets: self.pets@, pity: self.pity@, eggs: self.c1 }
    }
}

/// Pity progress needed to redeem a pet of `level`: `r(n) = 5 * (n - 1)`.
pub open spec fn spec_pity_threshold(level: int) -> int {
    5 * (level - 1)
}

/// Chance of success of a merge of two level-`level` pets, in twentieths:
/// p1 = 0.95, p2 = 0.80, p3 = 0.65, p4 = 0.45, p5 = 0.20, p6 = 0.05.
pub open spec fn spec_success_per_twenty(level: int) -> int {
    if level == 1 {
        19
    } else if level == 2 {
        16
    } else if level == 3 {
        13
    } else if level == 4 {
        9
    } else if level == 5 {
        4
    } else if level == 6 {
        1
    } else {
        0
    }
}

/// A model with eight slots for pets and for pity progress.
pub open spec fn well_sized(g: GameModel) -> bool {
    g.pets.len() == 8 && g.pity.len() == 8
}

/// The empty state: no pets, no progress, no eggs.
pub open spec fn empty_model() -> GameModel {
    GameModel { pets: Seq::new(8, |i: int| 0usize), pity: Seq::new(8, |i: int| 0usize), eggs: 0 }
}

/// Opening an egg: one more level-1 pet and one more egg counted.
pub open spec fn egg_model(g: GameModel) -> GameModel {
    GameModel { pets: g.pets.update(1, (g.pets[1] + 1) as usize), pity: g.pity, eggs: (g.eggs + 1) as usize }
}

/// Merging two level-`level` pets: on success they become one pet of the next
/// level; on failure one of them is returned and the pity progress of the next
/// level grows by one.
pub open spec fn merge_model(g: GameModel, level: int, success: bool) -> GameModel {
    if success {
        GameModel {
            pets: g.pets.update(level, (g.pets[level] - 2) as usize).update(
                level + 1,
                (g.pets[level + 1] + 1) as usize,
            ),
            pity: g.pity,
            eggs: g.eggs,
        }
    } else {
        GameModel {
            pets: g.pets.update(level, (g.pets[level] - 1) as usize),
            pity: g.pity.update(level + 1, (g.pity[level + 1] + 1) as usize),
            eggs: g.eggs,
        }
    }
}

/// Whether the pity progress of `level` has reached its threshold.
pub open spec fn redeemable(g: GameModel, level: int) -> bool {
    2 <= level <= 7 && g.pity[level] == spec_pity_threshold(level)
}

/// Redeeming every level whose pity progress reached its threshold: the progress
/// goes back to zero and one pet of that level is granted, no pet consumed.
pub open spec fn redeem_model(g: GameModel) -> GameModel {
    GameModel {
        pets: Seq::new(
            8,
            |l: int|
                if redeemable(g, l) {
                    (g.pets[l] + 1) as usize
                } else {
                    g.pets[l]
                },
        ),
        pity: Seq::new(
            8,
            |l: int|
                if redeemable(g, l) {
                    0usize
                } else {
                    g.pity[l]
                },
        ),
        eggs: g.eggs,
    }
}

/// How many pets each level redeems: one where the threshold is reached, else zero.
pub open spec fn redeemed_model(g: GameModel) -> Seq<usize> {
    Seq::new(
        8,
        |l: int|
            if redeemable(g, l) {
                1usize
            } else {
                0usize
            },
    )
}

/// The lowest level below `target` (starting at level 1) that holds at least two pets.
pub open spec fn lowest_mergeable(pets: Seq<usize>, target: int) -> Option<int> {
    if exists|l: int| 1 <= l < target && pets[l] >= 2 {
        Some(choose|l: int| 1 <= l < target && pets[l] >= 2 && forall|k: int| 1 <= k < l ==> pets[k] < 2)
    } else {
        None
    }
}

/// Sum of the eight slots of a per-level table.
pub open spec fn total8(s: Seq<usize>) -> int {
    s[0] + s[1] + s[2] + s[3] + s[4] + s[5] + s[6] + s[7]
}

/// A slot of a table is at most the table's total.
pub proof fn lemma_slot_le_total(s: Seq<usize>, i: int)
    requires
        0 <= i < 8,
    ensures
        s[i] <= total8(s),
{
    if i == 0 {
    } else if i == 1 {
    } else if i == 2 {
    } else if i == 3 {
    } else if i == 4 {
    } else if i == 5 {
    } else if i == 6 {
    } else {
    }
}

/// Two different slots of a table together are at most the table's total.
pub proof fn lemma_two_slots_le_total(s: Seq<usize>, i: int, j: int)
    requires
        0 <= i < 8,
        0 <= j < 8,
        i != j,
    ensures
        s[i] + s[j] <= total8(s),
{
    if i == 0 {
    } else if i == 1 {
    } else if i == 2 {
    } else if i == 3 {
    } else if i == 4 {
    } else if i == 5 {
    } else if i == 6 {
    } else {
    }
}

/// A merge never adds to the pets and pity progress taken together: a success
/// removes one pet, a failure turns one pet into one unit of progress.
pub proof fn lemma_merge_total(g: GameModel, level: int, success: bool)
    requires
        g.pets.len() == 8,
        g.pity.len() == 8,
        1 <= level <= 6,
        g.pets[level] >= 2,
        success ==> g.pets[level + 1] < usize::MAX,
        !success ==> g.pity[level + 1] < usize::MAX,
    ensures
        total8(merge_model(g, level, success).pets) == total8(g.pets) - 1,
        total8(merge_model(g, level, success).pity) == total8(g.pity) + if success {
            0int
        } else {
            1int
        },
{
}

/// A redemption trades a threshold's worth of progress (at least five units)
/// for one pet.
pub proof fn lemma_redeem_total(g: GameModel)
    requires
        g.pets.len() == 8,
        g.pity.len() == 8,
        forall|l: int| redeemable(g, l) ==> g.pets[l] < usize::MAX,
    ensures
        total8(redeem_model(g).pets) == total8(g.pets) + total8(redeemed_model(g)),
        total8(redeem_model(g).pity) + 5 * total8(redeemed_model(g)) <= total8(g.pity),
        forall|l: int| 0 <= l < 8 ==> #[trigger] redeemed_model(g)[l] <= 1,
{
    let r = redeem_model(g);
    let c = redeemed_model(g);
    assert forall|l: int| 0 <= l < 8 implies r.pity[l] + 5 * c[l] <= g.pity[l] && r.pets[l] == g.pets[l]
        + c[l] by {
        if redeemable(g, l) {
        }
    }
}

/// Every pity progress of levels 2-7 is below its threshold.
pub open spec fn pity_below_thresholds(g: GameModel) -> bool {
    forall|l: int| #![trigger g.pity[l]] 2 <= l <= 7 ==> g.pity[l] < spec_pity_threshold(l)
}



/// A merge at `level` with outcome `roll`, followed, when pity is enabled, by
/// the redemption of every pity threshold reached.
pub open spec fn after_merge_model(g: GameModel, level: int, enable_pity: bool, roll: bool) -> GameModel {
    if enable_pity {
        redeem_model(merge_model(g, level, roll))
    } else {
        merge_model(g, level, roll)
    }
}

impl GameState {
    /// The empty state.
    pub fn new() -> (s: GameState)
        ensures
            s@ == empty_model(),
    {
        let s = GameState { pets: [0; 8], pity: [0; 8], c1: 0 };
        assert(s.pets@ =~= empty_model().pets);
        assert(s.pity@ =~= empty_model().pity);
        s
    }
}

/// The pity threshold of `level`, `5 * (level - 1)`.
pub fn pity_threshold(level: usize) -> (r: usize)
    requires
        1 <= level,
        spec_pity_threshold(level as int) <= usize::MAX,
    ensures
        r == spec_pity_threshold(level as int),
{
    5 * (level - 1)
}

/// The chance of success of a merge at `level`, in twentieths.
pub fn success_per_twenty(level: usize) -> (r: u32)
    requires
        1 <= level <= 6,
    ensures
        r == spec_success_per_twenty(level as int),
{
    if level == 1 {
        19
    } else if level == 2 {
        16
    } else if level == 3 {
        13
    } else if level == 4 {
        9
    } else if level == 5 {
        4
    } else {
        1
    }
}

/// Opens one level-1 egg.
pub fn open_egg(state: &mut GameState)
    requires
        old(state).c1 < usize::MAX,
        old(state).pets[1] < usize::MAX,
    ensures
        final(state)@ == egg_model(old(state)@),
{
    state.c1 = state.c1 + 1;
    state.pets[1] = state.pets[1] + 1;
}

/// The lowest level in `1..target` that holds at least two pets, if any.
pub fn find_merge_level(state: &GameState, target: usize) -> (r: Option<usize>)
    requires
        target <= 8,
    ensures
        r matches Some(l) ==> 1 <= l < target && state.pets[l as int] >= 2 && forall|k: int|
            1 <= k < l ==> state.pets[k] < 2,
        r is None ==> forall|k: int| 1 <= k < target ==> state.pets[k] < 2,
        (match r {
            Some(l) => lowest_mergeable(state.pets@, target as int) == Some(l as int),
            None => lowest_mergeable(state.pets@, target as int) is None,
        }),
{
    let mut level: usize = 1;
    while level < target
        invariant
            1 <= level,
            target <= 8,
            level <= target || target < 1,
            forall|k: int| 1 <= k < level ==> state.pets[k] < 2,
        decreases target - level,
    {
        if state.pets[level] >= 2 {
            proof {
                let l = level as int;
                assert(1 <= l < target && state.pets[l] >= 2);
                let c = choose|m: int|
                    1 <= m < target && state.pets@[m] >= 2 && forall|k: int|
                        1 <= k < m ==> state.pets@[k] < 2;
                assert(1 <= c < target && state.pets@[c] >= 2 && forall|k: int|
                    1 <= k < l ==> state.pets@[k] < 2);
                if c < l {
                    assert(state.pets@[c] < 2);
                }
                if l < c {
                    assert(state.pets@[l] < 2);
                }
            }
            return Some(level);
        }
        level = level + 1;
    }
    None
}

/// Applies one merge at `level` whose outcome is `success`.
pub fn apply_merge(state: &mut GameState, level: usize, success: bool)
    requires
        1 <= level <= 6,
        old(state).pets[level as int] >= 2,
        success ==> old(state).pets[level + 1] < usize::MAX,
        !success ==> old(state).pity[level + 1] < usize::MAX,
    ensures
        final(state)@ == merge_model(old(state)@, level as int, success),
{
    let ghost g = state@;
    state.pets[level] = state.pets[level] - 2;
    if success {
        state.pets[level + 1] = state.pets[level + 1] + 1;
    } else {
        state.pets[level] = state.pets[level] + 1;
        state.pity[level + 1] = state.pity[level + 1] + 1;
    }
    assert(state.pets@ =~= merge_model(g, level as int, success).pets);
    assert(state.pity@ =~= merge_model(g, level as int, success).pity);
}

/// The outcome of a merge at `level` that takes the word at `index` of the
/// stream of `key`.
pub open spec fn merge_draw(key: Seq<u8>, index: nat, level: int) -> bool {
    ratio_draw(key, index, spec_success_per_twenty(level) as u32, 20)
}

/// Merges two level-`level` pets: rolls the outcome with the level's chance of
/// success and applies it. Returns whether the merge succeeded. The roll takes
/// one word of the generator's stream.
pub fn try_merge(state: &mut GameState, level: usize, rng: &mut SimRng) -> (success: bool)
    requires
        1 <= level <= 6,
        old(state).pets[level as int] >= 2,
        old(state).pets[level + 1] < usize::MAX,
        old(state).pity[level + 1] < usize::MAX,
    ensures
        final(state)@ == merge_model(old(state)@, level as int, success),
        final(rng).key() == old(rng).key(),
        final(rng).drawn() == old(rng).drawn() + 1,
        success == merge_draw(old(rng).key(), old(rng).drawn(), level as int),
{
    let success = random_ratio(rng, success_per_twenty(level), 20);
    apply_merge(state, level, success);
    success
}

/// Redeems every level from 2 to 7 whose pity progress reached its threshold.
/// Returns how many pets each level redeemed.
pub fn check_pity(state: &mut GameState) -> (redeemed: [usize; 8])
    requires
        forall|l: int| redeemable(old(state)@, l) ==> old(state).pets[l] < usize::MAX,
    ensures
        final(state)@ == redeem_model(old(state)@),
        redeemed@ == redeemed_model(old(state)@),
{
    let ghost g = state@;
    let mut redeemed = [0usize; 8];
    let mut level: usize = 2;
    while level <= 7
        invariant
            2 <= level <= 8,
            forall|l: int| redeemable(g, l) ==> g.pets[l] < usize::MAX,
            state.c1 == g.eggs,
            forall|l: int|
                0 <= l < 8 ==> #[trigger] state.pets[l] == (if l < level && redeemable(g, l) {
                    (g.pets[l] + 1) as usize
                } else {
                    g.pets[l]
                }),
            forall|l: int|
                0 <= l < 8 ==> #[trigger] state.pity[l] == (if l < level && redeemable(g, l) {
                    0usize
                } else {
                    g.pity[l]
                }),
            forall|l: int|
                0 <= l < 8 ==> #[trigger] redeemed[l] == (if l < level && redeemable(g, l) {
                    1usize
                } else {
                    0usize
                }),
        decreases 8 - level,
    {
        let ghost before = *state;
        let ghost before_redeemed = redeemed;
        assert(state.pity[level as int] == g.pity[level as int]);
        assert(state.pets[level as int] == g.pets[level as int]);
        assert(redeemed[level as int] == 0);
        if state.pity[level] == pity_threshold(level) {
            assert(redeemable(g, level as int));
            state.pity[level] = 0;
            state.pets[level] = state.pets[level] + 1;
            redeemed[level] = redeemed[level] + 1;
        }
        level = level + 1;
    }
    assert(state.pets@ =~= redeem_model(g).pets);
    assert(state.pity@ =~= redeem_model(g).pity);
    assert(redeemed@ =~= redeemed_model(g));
    redeemed
}

/// The merge chances are the documented ones: a merge of two level-`level`
/// pets succeeds with p1 = 0.95, p2 = 0.80, p3 = 0.65, p4 = 0.45, p5 = 0.20,
/// p6 = 0.05 (in percent, five times the chance in twentieths), and the roll
/// of a merge is the generator's draw at that ratio.
pub proof fn lemma_merge_chances(key: Seq<u8>, index: nat, level: int)
    requires
        1 <= level <= 6,
    ensures
        5 * spec_success_per_twenty(level) == seq![95int, 80, 65, 45, 20, 5][level - 1],
        0 < spec_success_per_twenty(level) < 20,
        merge_draw(key, index, level) == ratio_draw(
            key,
            index,
            seq![19u32, 16, 13, 9, 4, 1][level - 1],
            20,
        ),
{
}

} // verus!
