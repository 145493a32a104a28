//! Reverb: how a team's lineup and rotation are shuffled.
//!
//! A slot is a place on the team: the lineup's places come first, from 0,
//! and the rotation's places follow.  Players with gravity stay where they
//! are.  A shuffle is rolled first, as a list of changes, and applied to the
//! team later.

use vstd::prelude::*;
use crate::entities::{Team, TeamView};
use crate::mods::lemma_filter_take_step;
use crate::rng::{draw, draw_index, pick_index, Rng, RngState, skip, step_state};

verus! {

/// One place of a shuffle: whether it is fixed, and the change that is
/// written for it if it is fixed.
#[derive(Debug, Clone, Copy, PartialEq, Eq, Structural)]
pub struct Slot {
    pub fixed: bool,
    pub stay: usize,
}

/// The numbers from 0 below `n`, in order.
pub open spec fn indices(n: nat) -> Seq<usize> {
    Seq::new(n, |i: int| i as usize)
}

/// The numbers `i` below `n`, in order, for which `i + offset` is not among
/// `gravity`.
pub open spec fn free_indices(n: nat, gravity: Seq<usize>, offset: int) -> Seq<usize> {
    indices(n).filter(is_free(gravity, offset))
}

/// The test that `i + offset` is not among `gravity`.
pub open spec fn is_free(gravity: Seq<usize>, offset: int) -> spec_fn(usize) -> bool {
    |i: usize| !gravity.contains((i + offset) as usize)
}

/// The test that a number is not `v`.
pub open spec fn is_not(v: usize) -> spec_fn(usize) -> bool {
    |j: usize| j != v
}

/// `s` without the entries equal to `v`.
pub open spec fn without_value(s: Seq<usize>, v: usize) -> Seq<usize> {
    s.filter(is_not(v))
}

/// The changes that a shuffle writes for the places `slots`, and the state
/// in which it leaves the generator.  A fixed place gets its own change.
/// Every other place takes one draw, which selects one of the numbers that
/// are left in `rem`; that number is the change, and it leaves `rem`.  A
/// place for which nothing is left is treated as fixed.
pub open spec fn shuffle(slots: Seq<Slot>, rem: Seq<usize>, s: RngState) -> (Seq<usize>, RngState)
    decreases slots.len(),
{
    if slots.len() == 0 {
        (Seq::empty(), s)
    } else if slots[0].fixed || rem.len() == 0 {
        let rest = shuffle(slots.drop_first(), rem, s);
        (seq![slots[0].stay] + rest.0, rest.1)
    } else {
        let idx = rem[draw_index(draw(s, 0), rem.len()) as int];
        let rest = shuffle(slots.drop_first(), without_value(rem, idx), step_state(s));
        (seq![idx] + rest.0, rest.1)
    }
}

/// A shuffle writes one change for each place, and each change is either
/// the place's own or one of `rem`.
pub proof fn lemma_shuffle_range(slots: Seq<Slot>, rem: Seq<usize>, s: RngState, bound: int)
    requires
        forall|i: int| 0 <= i < slots.len() ==> (#[trigger] slots[i]).stay < bound,
        forall|i: int| 0 <= i < rem.len() ==> rem[i] < bound,
    ensures
        shuffle(slots, rem, s).0.len() == slots.len(),
        forall|i: int| 0 <= i < slots.len() ==> shuffle(slots, rem, s).0[i] < bound,
    decreases slots.len(),
{
    if slots.len() > 0 {
        let tail = slots.drop_first();
        assert forall|i: int| 0 <= i < tail.len() implies (#[trigger] tail[i]).stay < bound by {
            assert(tail[i] == slots[i + 1]);
        }
        if slots[0].fixed || rem.len() == 0 {
            lemma_shuffle_range(tail, rem, s, bound);
        } else {
            crate::rng::lemma_draw_in_span(skip(s, 1));
            crate::rng::lemma_draw_index_bound(draw(s, 0), rem.len());
            let idx = rem[draw_index(draw(s, 0), rem.len()) as int];
            let pred = is_not(idx);
            let rem2 = without_value(rem, idx);
            assert forall|i: int| 0 <= i < rem2.len() implies rem2[i] < bound by {
                assert(rem2.contains(rem2[i]));
                rem.lemma_filter_contains_rev(pred, rem2[i]);
            }
            lemma_shuffle_range(tail, rem2, step_state(s), bound);
        }
    }
}

/// The slot that a roll below the team's size selects when pairs are
/// swapped: rolls below the size of the rotation select the rotation's
/// slots, the others the lineup's.
pub open spec fn slot_of_roll(roll: int, lineup_len: int, rotation_len: int) -> int {
    if roll < rotation_len {
        lineup_len + roll
    } else {
        roll - rotation_len
    }
}

/// The changes that `rounds` rounds of pair swapping write.  Each round
/// takes two draws, each of which selects a slot; the pair is written
/// unless one of the two slots has gravity.
pub open spec fn rolled_pairs(
    lineup_len: int,
    rotation_len: int,
    gravity: Seq<usize>,
    s: RngState,
    rounds: nat,
) -> Seq<usize>
    decreases rounds,
{
    if rounds == 0 {
        Seq::empty()
    } else {
        let before = rolled_pairs(lineup_len, rotation_len, gravity, s, (rounds - 1) as nat);
        let length = (lineup_len + rotation_len) as nat;
        let first = slot_of_roll(
            draw_index(draw(s, (2 * (rounds - 1)) as nat), length) as int,
            lineup_len,
            rotation_len,
        ) as usize;
        let second = slot_of_roll(
            draw_index(draw(s, (2 * (rounds - 1) + 1) as nat), length) as int,
            lineup_len,
            rotation_len,
        ) as usize;
        if !gravity.contains(first) && !gravity.contains(second) {
            before.push(first).push(second)
        } else {
            before
        }
    }
}

/// The places of a shuffle of the kind `reverb_type`, for a team with
/// `lineup_len` batters and `rotation_len` pitchers.
///
/// Type 0 shuffles the whole team.  Its places are written rotation first:
/// place `i` stands for the slot `i + lineup_len` if `i` is below the size
/// of the rotation, else for the slot `i - rotation_len`; a fixed place
/// keeps the player of its slot.  Type 2 shuffles the lineup and type 3 the
/// rotation; their places are the slots of that list, counted from 0.
pub open spec fn reverb_slots(
    reverb_type: u8,
    lineup_len: int,
    rotation_len: int,
    gravity: Seq<usize>,
) -> Seq<Slot> {
    if reverb_type == 0 {
        Seq::new(
            (lineup_len + rotation_len) as nat,
            |i: int|
                Slot {
                    fixed: gravity.contains(
                        (if i < rotation_len {
                            i + lineup_len
                        } else {
                            i - rotation_len
                        }) as usize,
                    ),
                    stay: (if i < rotation_len {
                        i + lineup_len
                    } else {
                        i - rotation_len
                    }) as usize,
                },
        )
    } else if reverb_type == 2 {
        Seq::new(
            lineup_len as nat,
            |i: int| Slot { fixed: gravity.contains(i as usize), stay: i as usize },
        )
    } else {
        Seq::new(
            rotation_len as nat,
            |i: int| Slot { fixed: gravity.contains((i + lineup_len) as usize), stay: i as usize },
        )
    }
}

/// The numbers from which a shuffle of the kind `reverb_type` draws: the
/// slots without gravity, of the whole team for type 0, of the lineup for
/// type 2, and of the rotation, counted from 0, for type 3.
pub open spec fn reverb_pool(
    reverb_type: u8,
    lineup_len: int,
    rotation_len: int,
    gravity: Seq<usize>,
) -> Seq<usize> {
    if reverb_type == 0 {
        free_indices((lineup_len + rotation_len) as nat, gravity, 0)
    } else if reverb_type == 2 {
        free_indices(lineup_len as nat, gravity, 0)
    } else {
        free_indices(rotation_len as nat, gravity, lineup_len)
    }
}

/// The changes that a reverb of the kind `reverb_type` rolls, and the
/// state in which it leaves the generator.
pub open spec fn rolled_changes(
    reverb_type: u8,
    lineup_len: int,
    rotation_len: int,
    gravity: Seq<usize>,
    s: RngState,
) -> (Seq<usize>, RngState) {
    if reverb_type == 1 {
        (rolled_pairs(lineup_len, rotation_len, gravity, s, 3), skip(s, 6))
    } else {
        shuffle(
            reverb_slots(reverb_type, lineup_len, rotation_len, gravity),
            reverb_pool(reverb_type, lineup_len, rotation_len, gravity),
            s,
        )
    }
}

/// The player who stands on `slot`.
pub open spec fn player_on(lineup: Seq<u128>, rotation: Seq<u128>, slot: int) -> u128 {
    if slot < lineup.len() {
        lineup[slot]
    } else {
        rotation[slot - lineup.len()]
    }
}

/// `list` after the pairs of `changes` from position `k` on were applied,
/// each by letting the two entries that it names change places.
pub open spec fn with_swaps(list: Seq<u128>, changes: Seq<usize>, k: int) -> Seq<u128>
    decreases changes.len() - k,
{
    if k < 0 || k + 1 >= changes.len() {
        list
    } else {
        let a = changes[k] as int;
        let b = changes[k + 1] as int;
        with_swaps(list.update(a, list[b]).update(b, list[a]), changes, k + 2)
    }
}

/// Whether `changes` can be applied to a team of `lineup_len` batters and
/// `rotation_len` pitchers as a reverb of the kind `reverb_type`.
pub open spec fn valid_changes(
    reverb_type: u8,
    lineup_len: int,
    rotation_len: int,
    changes: Seq<usize>,
) -> bool {
    if reverb_type == 0 {
        &&& changes.len() >= lineup_len + rotation_len
        &&& forall|i: int| 0 <= i < lineup_len + rotation_len ==> changes[i] < lineup_len + rotation_len
    } else if reverb_type == 1 {
        &&& changes.len() % 2 == 0
        &&& forall|i: int| 0 <= i < changes.len() ==> changes[i] < lineup_len + rotation_len
    } else if reverb_type == 2 {
        &&& changes.len() >= lineup_len
        &&& forall|i: int| 0 <= i < lineup_len ==> changes[i] < lineup_len
    } else if reverb_type == 3 {
        &&& changes.len() >= rotation_len
        &&& forall|i: int| 0 <= i < rotation_len ==> changes[i] < rotation_len
    } else {
        false
    }
}

/// The team's players after the reverb, the lineup first and the rotation
/// behind it.
///
/// Type 0: the changes come rotation first, and each names the slot whose
/// player moves to the place.  Type 1: the two slots of each pair of the
/// changes, one pair after the other, let their players change places.
/// Type 2: each change names the slot of the lineup whose player moves to
/// the place.  Type 3: the same for the rotation.
pub open spec fn reverb_result(
    reverb_type: u8,
    lineup: Seq<u128>,
    rotation: Seq<u128>,
    changes: Seq<usize>,
) -> Seq<u128> {
    if reverb_type == 0 {
        Seq::new(
            lineup.len() + rotation.len(),
            |k: int|
                player_on(
                    lineup,
                    rotation,
                    changes[if k < lineup.len() {
                        rotation.len() + k
                    } else {
                        k - lineup.len()
                    }] as int,
                ),
        )
    } else if reverb_type == 1 {
        with_swaps(lineup + rotation, changes, 0)
    } else if reverb_type == 2 {
        Seq::new(lineup.len(), |k: int| lineup[changes[k] as int]) + rotation
    } else {
        lineup + Seq::new(rotation.len(), |k: int| rotation[changes[k] as int])
    }
}

/// Whether `x` is one of `v`.
pub fn index_among(v: &Vec<usize>, x: usize) -> (b: bool)
    ensures
        b == v@.contains(x),
{
    let mut j: usize = 0;
    while j < v.len()
        invariant
            j <= v.len(),
            forall|k: int| 0 <= k < j ==> v@[k] != x,
        decreases v.len() - j,
    {
        if v[j] == x {
            return true;
        }
        j += 1;
    }
    false
}

/// The numbers `i` below `n`, in order, for which `i + offset` is not among
/// `gravity`.
fn collect_free(n: usize, gravity: &Vec<usize>, offset: usize) -> (rem: Vec<usize>)
    requires
        n + offset <= usize::MAX,
    ensures
        rem@ == free_indices(n as nat, gravity@, offset as int),
{
    let ghost all = indices(n as nat);
    let ghost pred = is_free(gravity@, offset as int);
    let mut rem: Vec<usize> = Vec::new();
    let mut i: usize = 0;
    proof {
        reveal(Seq::filter);
        assert(all.take(0) =~= Seq::<usize>::empty());
    }
    while i < n
        invariant
            i <= n,
            n + offset <= usize::MAX,
            all == indices(n as nat),
            pred == is_free(gravity@, offset as int),
            rem@ == all.take(i as int).filter(pred),
        decreases n - i,
    {
        proof {
            lemma_filter_take_step(all, pred, i as int);
        }
        if !index_among(gravity, i + offset) {
            rem.push(i);
        }
        i += 1;
    }
    assert(all.take(n as int) =~= all);
    rem
}

/// Takes the entries equal to `v` out of `rem`.
fn remove_value(rem: &mut Vec<usize>, v: usize)
    ensures
        final(rem)@ == without_value(old(rem)@, v),
{
    let ghost pred = is_not(v);
    let mut kept: Vec<usize> = Vec::new();
    let mut i: usize = 0;
    proof {
        reveal(Seq::filter);
        assert(rem@.take(0) =~= Seq::<usize>::empty());
    }
    while i < rem.len()
        invariant
            i <= rem.len(),
            rem@ == old(rem)@,
            pred == is_not(v),
            kept@ == rem@.take(i as int).filter(pred),
        decreases rem.len() - i,
    {
        proof {
            lemma_filter_take_step(rem@, pred, i as int);
        }
        if rem[i] != v {
            kept.push(rem[i]);
        }
        i += 1;
    }
    assert(rem@.take(i as int) =~= rem@);
    assert(kept@ == without_value(old(rem)@, v));
    *rem = kept;
}

/// Rolls a shuffle for the places `slots`, drawing from `rem`.
fn roll_shuffle(rng: &mut Rng, slots: &Vec<Slot>, rem: Vec<usize>) -> (out: Vec<usize>)
    ensures
        (out@, final(rng)@) == shuffle(slots@, rem@, old(rng)@),
{
    let mut rem = rem;
    let ghost rem0 = rem@;
    let mut out: Vec<usize> = Vec::new();
    let mut i: usize = 0;
    assert(slots@.skip(0) =~= slots@);
    assert(out@ + shuffle(slots@, rem@, rng@).0 =~= shuffle(slots@, rem@, rng@).0);
    while i < slots.len()
        invariant
            i <= slots.len(),
            shuffle(slots@, rem0, old(rng)@).0 == out@ + shuffle(slots@.skip(i as int), rem@, rng@).0,
            shuffle(slots@, rem0, old(rng)@).1 == shuffle(slots@.skip(i as int), rem@, rng@).1,
        decreases slots.len() - i,
    {
        let slot = slots[i];
        let ghost pending = slots@.skip(i as int);
        let ghost before = out@;
        let ghost rest_before = shuffle(pending, rem@, rng@).0;
        assert(pending.drop_first() =~= slots@.skip(i + 1));
        assert(pending[0] == slot);
        if slot.fixed || rem.len() == 0 {
            out.push(slot.stay);
            assert(before + rest_before =~= out@ + shuffle(slots@.skip(i + 1), rem@, rng@).0);
        } else {
            let ghost s = rng@;
            let m = rng.next();
            let k = pick_index(m, rem.len());
            let idx = rem[k];
            remove_value(&mut rem, idx);
            out.push(idx);
            assert(before + rest_before =~= out@ + shuffle(slots@.skip(i + 1), rem@, rng@).0);
        }
        i += 1;
    }
    assert(out@ + Seq::<usize>::empty() =~= out@);
    out
}

impl Team {
    /// Rolls the changes of a reverb of the kind `reverb_type`.
    /// `gravity_players` are the slots whose players have gravity.
    pub fn roll_reverb_changes(
        &self,
        rng: &mut Rng,
        reverb_type: u8,
        gravity_players: &Vec<usize>,
    ) -> (changes: Vec<usize>)
        requires
            reverb_type <= 3,
            self@.lineup.len() + self@.rotation.len() <= usize::MAX,
        ensures
            (changes@, final(rng)@) == rolled_changes(
                reverb_type,
                self@.lineup.len() as int,
                self@.rotation.len() as int,
                gravity_players@,
                old(rng)@,
            ),
    {
        let lineup_length = self.lineup.len();
        let rotation_length = self.rotation.len();
        let length = lineup_length + rotation_length;
        if reverb_type == 1 {
            let mut changes: Vec<usize> = Vec::new();
            let mut round: usize = 0;
            while round < 3
                invariant
                    round <= 3,
                    length == lineup_length + rotation_length,
                    rng@ == skip(old(rng)@, (2 * round) as nat),
                    changes@ == rolled_pairs(
                        lineup_length as int,
                        rotation_length as int,
                        gravity_players@,
                        old(rng)@,
                        round as nat,
                    ),
                decreases 3 - round,
            {
                let roll1 = rng.index(length);
                let roll2 = rng.index(length);
                proof {
                    assert(skip(old(rng)@, (2 * round + 1) as nat) == step_state(
                        skip(old(rng)@, (2 * round) as nat),
                    ));
                    assert(skip(old(rng)@, (2 * round + 2) as nat) == step_state(
                        skip(old(rng)@, (2 * round + 1) as nat),
                    ));
                }
                let idx1 = if roll1 < rotation_length {
                    lineup_length + roll1
                } else {
                    roll1 - rotation_length
                };
                let idx2 = if roll2 < rotation_length {
                    lineup_length + roll2
                } else {
                    roll2 - rotation_length
                };
                if !index_among(gravity_players, idx1) && !index_among(gravity_players, idx2) {
                    changes.push(idx1);
                    changes.push(idx2);
                }
                round += 1;
            }
            return changes;
        }
        let mut slots: Vec<Slot> = Vec::new();
        let rem: Vec<usize>;
        if reverb_type == 0 {
            rem = collect_free(length, gravity_players, 0);
            let mut i: usize = 0;
            while i < length
                invariant
                    i <= length,
                    length == lineup_length + rotation_length,
                    slots@ == reverb_slots(
                        0,
                        lineup_length as int,
                        rotation_length as int,
                        gravity_players@,
                    ).take(i as int),
                decreases length - i,
            {
                let old_i = if i < rotation_length {
                    i + lineup_length
                } else {
                    i - rotation_length
                };
                slots.push(Slot { fixed: index_among(gravity_players, old_i), stay: old_i });
                assert(slots@ =~= reverb_slots(
                    0,
                    lineup_length as int,
                    rotation_length as int,
                    gravity_players@,
                ).take(i + 1));
                i += 1;
            }
            assert(slots@ =~= reverb_slots(
                0,
                lineup_length as int,
                rotation_length as int,
                gravity_players@,
            ));
        } else if reverb_type == 2 {
            rem = collect_free(lineup_length, gravity_players, 0);
            let mut i: usize = 0;
            while i < lineup_length
                invariant
                    i <= lineup_length,
                    slots@ == reverb_slots(
                        2,
                        lineup_length as int,
                        rotation_length as int,
                        gravity_players@,
                    ).take(i as int),
                decreases lineup_length - i,
            {
                slots.push(Slot { fixed: index_among(gravity_players, i), stay: i });
                assert(slots@ =~= reverb_slots(
                    2,
                    lineup_length as int,
                    rotation_length as int,
                    gravity_players@,
                ).take(i + 1));
                i += 1;
            }
            assert(slots@ =~= reverb_slots(
                2,
                lineup_length as int,
                rotation_length as int,
                gravity_players@,
            ));
        } else {
            rem = collect_free(rotation_length, gravity_players, lineup_length);
            let mut i: usize = 0;
            while i < rotation_length
                invariant
                    i <= rotation_length,
                    lineup_length + rotation_length <= usize::MAX,
                    slots@ == reverb_slots(
                        3,
                        lineup_length as int,
                        rotation_length as int,
                        gravity_players@,
                    ).take(i as int),
                decreases rotation_length - i,
            {
                slots.push(
                    Slot { fixed: index_among(gravity_players, i + lineup_length), stay: i },
                );
                assert(slots@ =~= reverb_slots(
                    3,
                    lineup_length as int,
                    rotation_length as int,
                    gravity_players@,
                ).take(i + 1));
                i += 1;
            }
            assert(slots@ =~= reverb_slots(
                3,
                lineup_length as int,
                rotation_length as int,
                gravity_players@,
            ));
        }
        roll_shuffle(rng, &slots, rem)
    }

    /// Applies the changes of a reverb of the kind `reverb_type` to the
    /// lineup and the rotation.
    pub fn apply_reverb_changes(&mut self, reverb_type: u8, changes: &Vec<usize>)
        requires
            old(self)@.lineup.len() + old(self)@.rotation.len() <= usize::MAX,
            valid_changes(
                reverb_type,
                old(self)@.lineup.len() as int,
                old(self)@.rotation.len() as int,
                changes@,
            ),
        ensures
            final(self)@ == (TeamView {
                lineup: reverb_result(
                    reverb_type,
                    old(self)@.lineup,
                    old(self)@.rotation,
                    changes@,
                ).take(old(self)@.lineup.len() as int),
                rotation: reverb_result(
                    reverb_type,
                    old(self)@.lineup,
                    old(self)@.rotation,
                    changes@,
                ).skip(old(self)@.lineup.len() as int),
                ..old(self)@
            }),
            final(self)@.lineup.len() == old(self)@.lineup.len(),
            final(self)@.rotation.len() == old(self)@.rotation.len(),
    {
        let mut result: Vec<u128> = Vec::new();
        let lineup_length = self.lineup.len();
        let rotation_length = self.rotation.len();
        let length = lineup_length + rotation_length;
        let ghost target = reverb_result(reverb_type, self@.lineup, self@.rotation, changes@);
        if reverb_type == 0 {
            let mut k: usize = 0;
            while k < length
                invariant
                    k <= length,
                    length == lineup_length + rotation_length,
                    lineup_length == self.lineup@.len(),
                    rotation_length == self.rotation@.len(),
                    valid_changes(0, lineup_length as int, rotation_length as int, changes@),
                    target == reverb_result(0, self.lineup@, self.rotation@, changes@),
                    result@ == target.take(k as int),
                decreases length - k,
            {
                let i = if k < lineup_length {
                    rotation_length + k
                } else {
                    k - lineup_length
                };
                let player_slot = changes[i];
                if player_slot < lineup_length {
                    result.push(self.lineup[player_slot]);
                } else {
                    result.push(self.rotation[player_slot - lineup_length]);
                }
                assert(result@ =~= target.take(k + 1));
                k += 1;
            }
            assert(target.take(length as int) =~= target);
        } else if reverb_type == 1 {
            let mut i: usize = 0;
            while i < lineup_length
                invariant
                    i <= lineup_length,
                    lineup_length == self.lineup@.len(),
                    result@ == self.lineup@.take(i as int),
                decreases lineup_length - i,
            {
                result.push(self.lineup[i]);
                assert(result@ =~= self.lineup@.take(i + 1));
                i += 1;
            }
            let mut j: usize = 0;
            assert(self.lineup@.take(lineup_length as int) =~= self.lineup@);
            assert(result@ =~= self.lineup@ + self.rotation@.take(0));
            while j < rotation_length
                invariant
                    j <= rotation_length,
                    rotation_length == self.rotation@.len(),
                    result@ == self.lineup@ + self.rotation@.take(j as int),
                decreases rotation_length - j,
            {
                result.push(self.rotation[j]);
                assert(result@ =~= self.lineup@ + self.rotation@.take(j + 1));
                j += 1;
            }
            assert(self.rotation@.take(rotation_length as int) =~= self.rotation@);
            let mut change_idx: usize = 0;
            while change_idx < changes.len()
                invariant
                    change_idx <= changes.len(),
                    change_idx % 2 == 0,
                    length == lineup_length + rotation_length,
                    result@.len() == length,
                    valid_changes(1, lineup_length as int, rotation_length as int, changes@),
                    target == with_swaps(result@, changes@, change_idx as int),
                decreases changes.len() - change_idx,
            {
                let slot1 = changes[change_idx];
                let slot2 = changes[change_idx + 1];
                let a = result[slot1];
                let b = result[slot2];
                result.set(slot1, b);
                result.set(slot2, a);
                change_idx += 2;
            }
        } else if reverb_type == 2 {
            let mut i: usize = 0;
            while i < lineup_length
                invariant
                    i <= lineup_length,
                    lineup_length == self.lineup@.len(),
                    valid_changes(2, lineup_length as int, rotation_length as int, changes@),
                    target == reverb_result(2, self.lineup@, self.rotation@, changes@),
                    result@ == target.take(i as int),
                decreases lineup_length - i,
            {
                result.push(self.lineup[changes[i]]);
                assert(result@ =~= target.take(i + 1));
                i += 1;
            }
            let mut j: usize = 0;
            while j < rotation_length
                invariant
                    j <= rotation_length,
                    lineup_length == self.lineup@.len(),
                    rotation_length == self.rotation@.len(),
                    target == reverb_result(2, self.lineup@, self.rotation@, changes@),
                    result@ == target.take(lineup_length + j),
                decreases rotation_length - j,
            {
                result.push(self.rotation[j]);
                assert(result@ =~= target.take(lineup_length + j + 1));
                j += 1;
            }
            assert(target.take(length as int) =~= target);
        } else {
            let mut i: usize = 0;
            while i < lineup_length
                invariant
                    i <= lineup_length,
                    lineup_length == self.lineup@.len(),
                    target == reverb_result(3, self.lineup@, self.rotation@, changes@),
                    result@ == target.take(i as int),
                decreases lineup_length - i,
            {
                result.push(self.lineup[i]);
                assert(result@ =~= target.take(i + 1));
                i += 1;
            }
            let mut j: usize = 0;
            while j < rotation_length
                invariant
                    j <= rotation_length,
                    lineup_length == self.lineup@.len(),
                    rotation_length == self.rotation@.len(),
                    valid_changes(3, lineup_length as int, rotation_length as int, changes@),
                    target == reverb_result(3, self.lineup@, self.rotation@, changes@),
                    result@ == target.take(lineup_length + j),
                decreases rotation_length - j,
            {
                result.push(self.rotation[changes[j]]);
                assert(result@ =~= target.take(lineup_length + j + 1));
                j += 1;
            }
            assert(target.take(length as int) =~= target);
        }
        assert(result@ == target);
        assert(result@.len() == length);
        let mut i: usize = 0;
        while i < length
            invariant
                i <= length,
                length == lineup_length + rotation_length,
                result@.len() == length,
                self.lineup@.len() == lineup_length,
                self.rotation@.len() == rotation_length,
                self@ == (TeamView { lineup: self@.lineup, rotation: self@.rotation, ..old(self)@ }),
                forall|k: int| 0 <= k < i && k < lineup_length ==> self.lineup@[k] == result@[k],
                forall|k: int|
                    lineup_length <= k < i ==> self.rotation@[k - lineup_length] == result@[k],
            decreases length - i,
        {
            if i < lineup_length {
                self.lineup.set(i, result[i]);
            } else {
                self.rotation.set(i - lineup_length, result[i]);
            }
            i += 1;
        }
        assert(self@.lineup =~= target.take(lineup_length as int));
        assert(self@.rotation =~= target.skip(lineup_length as int));
    }
}

/// The free numbers below `n` are below `n`.
pub proof fn lemma_free_indices_range(n: nat, gravity: Seq<usize>, offset: int)
    requires
        n <= usize::MAX,
    ensures
        forall|i: int|
            0 <= i < free_indices(n, gravity, offset).len() ==> free_indices(
                n,
                gravity,
                offset,
            )[i] < n,
{
    let f = free_indices(n, gravity, offset);
    assert forall|i: int| 0 <= i < f.len() implies f[i] < n by {
        assert(f.contains(f[i]));
        indices(n).lemma_filter_contains_rev(is_free(gravity, offset), f[i]);
        let j = choose|j: int| 0 <= j < indices(n).len() && indices(n)[j] == f[i];
        assert(indices(n)[j] == j);
    }
}

/// The pairs that are rolled come in twos, and name slots of the team.
pub proof fn lemma_rolled_pairs_range(
    lineup_len: int,
    rotation_len: int,
    gravity: Seq<usize>,
    s: RngState,
    rounds: nat,
)
    requires
        0 <= lineup_len,
        0 <= rotation_len,
        0 < lineup_len + rotation_len <= usize::MAX,
    ensures
        rolled_pairs(lineup_len, rotation_len, gravity, s, rounds).len() % 2 == 0,
        forall|i: int|
            0 <= i < rolled_pairs(lineup_len, rotation_len, gravity, s, rounds).len() ==> {
                &&& rolled_pairs(lineup_len, rotation_len, gravity, s, rounds)[i] < lineup_len
                    + rotation_len
                &&& !gravity.contains(rolled_pairs(lineup_len, rotation_len, gravity, s, rounds)[i])
            },
    decreases rounds,
{
    if rounds > 0 {
        lemma_rolled_pairs_range(lineup_len, rotation_len, gravity, s, (rounds - 1) as nat);
        let length = (lineup_len + rotation_len) as nat;
        crate::rng::lemma_draw_in_span(skip(s, (2 * (rounds - 1) + 1) as nat));
        crate::rng::lemma_draw_in_span(skip(s, (2 * (rounds - 1) + 2) as nat));
        crate::rng::lemma_draw_index_bound(draw(s, (2 * (rounds - 1)) as nat), length);
        crate::rng::lemma_draw_index_bound(draw(s, (2 * (rounds - 1) + 1) as nat), length);
    }
}

/// The changes that a reverb rolls can be applied to the team for which
/// they were rolled.
pub proof fn lemma_rolled_changes_are_valid(
    reverb_type: u8,
    lineup_len: int,
    rotation_len: int,
    gravity: Seq<usize>,
    s: RngState,
)
    requires
        reverb_type <= 3,
        0 <= lineup_len,
        0 <= rotation_len,
        lineup_len + rotation_len <= usize::MAX,
        reverb_type == 1 ==> lineup_len + rotation_len > 0,
    ensures
        valid_changes(
            reverb_type,
            lineup_len,
            rotation_len,
            rolled_changes(reverb_type, lineup_len, rotation_len, gravity, s).0,
        ),
{
    if reverb_type == 1 {
        lemma_rolled_pairs_range(lineup_len, rotation_len, gravity, s, 3);
    } else {
        let slots = reverb_slots(reverb_type, lineup_len, rotation_len, gravity);
        let pool = reverb_pool(reverb_type, lineup_len, rotation_len, gravity);
        let bound = if reverb_type == 0 {
            lineup_len + rotation_len
        } else if reverb_type == 2 {
            lineup_len
        } else {
            rotation_len
        };
        lemma_free_indices_range(
            bound as nat,
            gravity,
            if reverb_type == 3 {
                lineup_len
            } else {
                0
            },
        );
        lemma_shuffle_range(slots, pool, s, bound);
    }
}

/// A shuffle writes for each fixed place the place's own change.
pub proof fn lemma_shuffle_keeps_fixed(slots: Seq<Slot>, rem: Seq<usize>, s: RngState, i: int)
    requires
        0 <= i < slots.len(),
        slots[i].fixed,
    ensures
        shuffle(slots, rem, s).0.len() == slots.len(),
        shuffle(slots, rem, s).0[i] == slots[i].stay,
    decreases slots.len(),
{
    lemma_shuffle_len(slots, rem, s);
    let tail = slots.drop_first();
    if i > 0 {
        assert(tail[i - 1] == slots[i]);
        if slots[0].fixed || rem.len() == 0 {
            lemma_shuffle_keeps_fixed(tail, rem, s, i - 1);
            lemma_shuffle_len(tail, rem, s);
        } else {
            let idx = rem[draw_index(draw(s, 0), rem.len()) as int];
            lemma_shuffle_keeps_fixed(tail, without_value(rem, idx), step_state(s), i - 1);
            lemma_shuffle_len(tail, without_value(rem, idx), step_state(s));
        }
    }
}

/// A shuffle writes one change for each place.
pub proof fn lemma_shuffle_len(slots: Seq<Slot>, rem: Seq<usize>, s: RngState)
    ensures
        shuffle(slots, rem, s).0.len() == slots.len(),
    decreases slots.len(),
{
    if slots.len() > 0 {
        let tail = slots.drop_first();
        if slots[0].fixed || rem.len() == 0 {
            lemma_shuffle_len(tail, rem, s);
        } else {
            let idx = rem[draw_index(draw(s, 0), rem.len()) as int];
            lemma_shuffle_len(tail, without_value(rem, idx), step_state(s));
        }
    }
}

/// Pairs that do not name a slot leave its player where the player is.
pub proof fn lemma_swaps_keep_others(list: Seq<u128>, changes: Seq<usize>, k: int, slot: int)
    requires
        0 <= k,
        0 <= slot < list.len(),
        forall|i: int| k <= i < changes.len() ==> changes[i] != slot,
        forall|i: int| k <= i < changes.len() ==> changes[i] < list.len(),
    ensures
        with_swaps(list, changes, k).len() == list.len(),
        with_swaps(list, changes, k)[slot] == list[slot],
    decreases changes.len() - k,
{
    if k + 1 < changes.len() {
        let a = changes[k] as int;
        let b = changes[k + 1] as int;
        lemma_swaps_keep_others(list.update(a, list[b]).update(b, list[a]), changes, k + 2, slot);
    }
}

/// Gravity holds: a reverb whose changes were rolled for the team leaves
/// the player of every slot with gravity on that slot.
pub proof fn lemma_gravity_holds(
    reverb_type: u8,
    lineup: Seq<u128>,
    rotation: Seq<u128>,
    gravity: Seq<usize>,
    s: RngState,
    slot: int,
)
    requires
        reverb_type <= 3,
        lineup.len() + rotation.len() <= usize::MAX,
        0 <= slot < lineup.len() + rotation.len(),
        gravity.contains(slot as usize),
    ensures
        player_on(
            reverb_result(
                reverb_type,
                lineup,
                rotation,
                rolled_changes(reverb_type, lineup.len() as int, rotation.len() as int, gravity, s).0,
            ).take(lineup.len() as int),
            reverb_result(
                reverb_type,
                lineup,
                rotation,
                rolled_changes(reverb_type, lineup.len() as int, rotation.len() as int, gravity, s).0,
            ).skip(lineup.len() as int),
            slot,
        ) == player_on(lineup, rotation, slot),
{
    let l = lineup.len() as int;
    let r = rotation.len() as int;
    let changes = rolled_changes(reverb_type, l, r, gravity, s).0;
    let result = reverb_result(reverb_type, lineup, rotation, changes);
    let slots = reverb_slots(reverb_type, l, r, gravity);
    let pool = reverb_pool(reverb_type, l, r, gravity);
    if reverb_type == 0 {
        let place = if slot < l {
            r + slot
        } else {
            slot - l
        };
        lemma_shuffle_keeps_fixed(slots, pool, s, place);
        assert(changes[place] == slot);
        assert(result[slot] == player_on(lineup, rotation, slot));
    } else if reverb_type == 1 {
        lemma_rolled_pairs_range(l, r, gravity, s, 3);
        lemma_swaps_keep_others(lineup + rotation, changes, 0, slot);
        assert(result[slot] == (lineup + rotation)[slot]);
    } else if reverb_type == 2 {
        if slot < l {
            lemma_shuffle_keeps_fixed(slots, pool, s, slot);
            assert(changes[slot] == slot);
        }
        lemma_shuffle_len(slots, pool, s);
        assert(result[slot] == player_on(lineup, rotation, slot));
    } else {
        if slot >= l {
            lemma_shuffle_keeps_fixed(slots, pool, s, slot - l);
            assert(changes[slot - l] == slot - l);
        }
        lemma_shuffle_len(slots, pool, s);
        assert(result[slot] == player_on(lineup, rotation, slot));
    }
}

/// The number of places of `slots` that are not fixed.
pub open spec fn free_places(slots: Seq<Slot>) -> nat
    decreases slots.len(),
{
    if slots.len() == 0 {
        0
    } else if slots[0].fixed {
        free_places(slots.drop_first())
    } else {
        1 + free_places(slots.drop_first())
    }
}

/// The number of places among the first `n` of `slots` that are not
/// fixed.
pub open spec fn free_among(slots: Seq<Slot>, n: int) -> nat
    decreases n,
{
    if n <= 0 || n > slots.len() {
        0
    } else if slots[n - 1].fixed {
        free_among(slots, n - 1)
    } else {
        1 + free_among(slots, n - 1)
    }
}

/// Counting the free places from the front gives what counting them from
/// the back gives.
pub proof fn lemma_free_places_from_back(slots: Seq<Slot>)
    ensures
        free_places(slots) == free_among(slots, slots.len() as int),
    decreases slots.len(),
{
    if slots.len() > 0 {
        let tail = slots.drop_first();
        lemma_free_places_from_back(tail);
        lemma_free_among_tail(slots, slots.len() as int);
    }
}

/// The free places among the first `n` are the first place, if it is
/// free, and the free places among the first `n - 1` of the rest.
pub proof fn lemma_free_among_tail(slots: Seq<Slot>, n: int)
    requires
        1 <= n <= slots.len(),
    ensures
        free_among(slots, n) == (if slots[0].fixed {
            0nat
        } else {
            1nat
        }) + free_among(slots.drop_first(), n - 1),
    decreases n,
{
    let tail = slots.drop_first();
    if n > 1 {
        lemma_free_among_tail(slots, n - 1);
        assert(tail[n - 2] == slots[n - 1]);
        assert(free_among(tail, n - 1) == (if tail[n - 2].fixed {
            0nat
        } else {
            1nat
        }) + free_among(tail, n - 2));
    } else {
        assert(free_among(slots, 0) == 0);
        assert(free_among(tail, 0) == 0);
    }
}

/// Taking one value out of a list that holds it once makes the list one
/// shorter, and leaves the other values, each once.
pub proof fn lemma_without_value(rem: Seq<usize>, v: usize)
    requires
        rem.no_duplicates(),
    ensures
        without_value(rem, v).no_duplicates(),
        forall|x: usize| without_value(rem, v).contains(x) <==> rem.contains(x) && x != v,
        rem.contains(v) ==> without_value(rem, v).len() == rem.len() - 1,
        !rem.contains(v) ==> without_value(rem, v) == rem,
    decreases rem.len(),
{
    reveal(Seq::filter);
    let pred = is_not(v);
    crate::mods::lemma_filter_no_duplicates(rem, pred);
    let out = without_value(rem, v);
    assert forall|x: usize| out.contains(x) <==> rem.contains(x) && x != v by {
        if out.contains(x) {
            rem.lemma_filter_contains_rev(pred, x);
            let j = choose|j: int| 0 <= j < out.len() && out[j] == x;
            rem.lemma_filter_pred(pred, j);
        }
        if rem.contains(x) && x != v {
            let i = choose|i: int| 0 <= i < rem.len() && rem[i] == x;
            rem.lemma_filter_contains(pred, i);
        }
    }
    if rem.len() > 0 {
        let front = rem.drop_last();
        assert(front.no_duplicates()) by {
            assert forall|i: int, j: int|
                0 <= i < front.len() && 0 <= j < front.len() && i != j implies front[i]
                != front[j] by {
                assert(front[i] == rem[i] && front[j] == rem[j]);
            }
        }
        lemma_without_value(front, v);
        if rem.last() == v {
            assert(!front.contains(v)) by {
                if front.contains(v) {
                    let i = choose|i: int| 0 <= i < front.len() && front[i] == v;
                    assert(rem[i] == rem[rem.len() - 1]);
                }
            }
        } else if rem.contains(v) {
            let i = choose|i: int| 0 <= i < rem.len() && rem[i] == v;
            assert(front[i] == v);
            assert(front.contains(v));
        } else {
            assert(!front.contains(v)) by {
                if front.contains(v) {
                    let i = choose|i: int| 0 <= i < front.len() && front[i] == v;
                    assert(rem[i] == v);
                }
            }
        }
    }
}

/// Whether a shuffle has what it needs to name every number once: the
/// numbers to draw from are all different and as many as the free places,
/// and the changes of the fixed places are all different and none of them
/// is among the numbers to draw from.
pub open spec fn can_permute(slots: Seq<Slot>, rem: Seq<usize>) -> bool {
    &&& rem.no_duplicates()
    &&& free_places(slots) == rem.len()
    &&& forall|i: int, j: int|
        0 <= i < slots.len() && 0 <= j < slots.len() && i != j && (#[trigger] slots[i]).fixed && (
        #[trigger] slots[j]).fixed ==> slots[i].stay != slots[j].stay
    &&& forall|i: int|
        0 <= i < slots.len() && (#[trigger] slots[i]).fixed ==> !rem.contains(slots[i].stay)
}

/// A shuffle that has what it needs names no number twice: each change is
/// the own change of a fixed place or one of the numbers to draw from, and
/// each of those numbers is the change of some place.
pub proof fn lemma_shuffle_permutes(slots: Seq<Slot>, rem: Seq<usize>, s: RngState)
    requires
        can_permute(slots, rem),
    ensures
        shuffle(slots, rem, s).0.len() == slots.len(),
        shuffle(slots, rem, s).0.no_duplicates(),
        forall|k: int|
            0 <= k < slots.len() ==> if slots[k].fixed {
                (#[trigger] shuffle(slots, rem, s).0[k]) == slots[k].stay
            } else {
                rem.contains(shuffle(slots, rem, s).0[k])
            },
        forall|x: usize| rem.contains(x) ==> shuffle(slots, rem, s).0.contains(x),
    decreases slots.len(),
{
    if slots.len() > 0 {
        let tail = slots.drop_first();
        let out = shuffle(slots, rem, s).0;
        assert forall|i: int| 0 <= i < tail.len() implies tail[i] == slots[i + 1] by {
        }
        if slots[0].fixed {
            assert(can_permute(tail, rem)) by {
                assert forall|i: int, j: int|
                    0 <= i < tail.len() && 0 <= j < tail.len() && i != j && (
                    #[trigger] tail[i]).fixed && (#[trigger] tail[j]).fixed implies tail[i].stay
                    != tail[j].stay by {
                    assert(slots[i + 1].fixed && slots[j + 1].fixed);
                }
                assert forall|i: int| 0 <= i < tail.len() && (#[trigger] tail[i]).fixed implies
                    !rem.contains(tail[i].stay) by {
                    assert(slots[i + 1].fixed);
                }
            }
            lemma_shuffle_permutes(tail, rem, s);
            let rest = shuffle(tail, rem, s).0;
            assert(out =~= seq![slots[0].stay] + rest);
            assert forall|k: int| 0 <= k < rest.len() implies rest[k] != slots[0].stay by {
                if tail[k].fixed {
                    assert(slots[k + 1].fixed);
                    assert(slots[k + 1].stay != slots[0].stay);
                } else {
                    assert(rem.contains(rest[k]));
                }
            }
            assert(out.no_duplicates()) by {
                assert forall|i: int, j: int|
                    0 <= i < out.len() && 0 <= j < out.len() && i != j implies out[i]
                    != out[j] by {
                    if i > 0 && j > 0 {
                        assert(rest[i - 1] != rest[j - 1]);
                    } else if i == 0 {
                        assert(rest[j - 1] != slots[0].stay);
                    } else {
                        assert(rest[i - 1] != slots[0].stay);
                    }
                }
            }
            assert forall|k: int| 0 <= k < slots.len() implies if slots[k].fixed {
                (#[trigger] out[k]) == slots[k].stay
            } else {
                rem.contains(out[k])
            } by {
                if k > 0 {
                    assert(out[k] == rest[k - 1]);
                    assert(tail[k - 1] == slots[k]);
                }
            }
            assert forall|x: usize| rem.contains(x) implies out.contains(x) by {
                assert(rest.contains(x));
                let k = choose|k: int| 0 <= k < rest.len() && rest[k] == x;
                assert(out[k + 1] == x);
            }
        } else {
            assert(rem.len() > 0);
            crate::rng::lemma_draw_in_span(skip(s, 1));
            crate::rng::lemma_draw_index_bound(draw(s, 0), rem.len());
            let idx = rem[draw_index(draw(s, 0), rem.len()) as int];
            let rem2 = without_value(rem, idx);
            lemma_without_value(rem, idx);
            assert(rem.contains(idx));
            assert(can_permute(tail, rem2)) by {
                assert forall|i: int, j: int|
                    0 <= i < tail.len() && 0 <= j < tail.len() && i != j && (
                    #[trigger] tail[i]).fixed && (#[trigger] tail[j]).fixed implies tail[i].stay
                    != tail[j].stay by {
                    assert(slots[i + 1].fixed && slots[j + 1].fixed);
                }
                assert forall|i: int| 0 <= i < tail.len() && (#[trigger] tail[i]).fixed implies
                    !rem2.contains(tail[i].stay) by {
                    assert(slots[i + 1].fixed);
                }
            }
            lemma_shuffle_permutes(tail, rem2, step_state(s));
            let rest = shuffle(tail, rem2, step_state(s)).0;
            assert(out =~= seq![idx] + rest);
            assert forall|k: int| 0 <= k < rest.len() implies rest[k] != idx by {
                if tail[k].fixed {
                    assert(slots[k + 1].fixed);
                    assert(!rem.contains(slots[k + 1].stay));
                } else {
                    assert(rem2.contains(rest[k]));
                }
            }
            assert(out.no_duplicates()) by {
                assert forall|i: int, j: int|
                    0 <= i < out.len() && 0 <= j < out.len() && i != j implies out[i]
                    != out[j] by {
                    if i > 0 && j > 0 {
                        assert(rest[i - 1] != rest[j - 1]);
                    } else if i == 0 {
                        assert(rest[j - 1] != idx);
                    } else {
                        assert(rest[i - 1] != idx);
                    }
                }
            }
            assert forall|k: int| 0 <= k < slots.len() implies if slots[k].fixed {
                (#[trigger] out[k]) == slots[k].stay
            } else {
                rem.contains(out[k])
            } by {
                if k > 0 {
                    assert(out[k] == rest[k - 1]);
                    assert(tail[k - 1] == slots[k]);
                    if !slots[k].fixed {
                        assert(rem2.contains(rest[k - 1]));
                    }
                }
            }
            assert forall|x: usize| rem.contains(x) implies out.contains(x) by {
                if x == idx {
                    assert(out[0] == idx);
                } else {
                    assert(rem2.contains(x));
                    assert(rest.contains(x));
                    let k = choose|k: int| 0 <= k < rest.len() && rest[k] == x;
                    assert(out[k + 1] == x);
                }
            }
        }
    }
}

/// If the first `k` places are free exactly where the test holds of the
/// first `k` values, the free places among them are as many as the values
/// that pass the test.
pub proof fn lemma_free_among_is_filtered(
    slots: Seq<Slot>,
    vals: Seq<usize>,
    pred: spec_fn(usize) -> bool,
    k: int,
)
    requires
        0 <= k <= slots.len(),
        vals.len() == slots.len(),
        forall|i: int| 0 <= i < slots.len() ==> (#[trigger] slots[i]).fixed == !pred(vals[i]),
    ensures
        free_among(slots, k) == vals.take(k).filter(pred).len(),
    decreases k,
{
    reveal(Seq::filter);
    if k > 0 {
        lemma_free_among_is_filtered(slots, vals, pred, k - 1);
        lemma_filter_take_step(vals, pred, k - 1);
    } else {
        assert(vals.take(0) =~= Seq::<usize>::empty());
    }
}

/// Filtering the numbers below `n` from `at` on and then the numbers
/// below `at` keeps as many as filtering them all.
pub proof fn lemma_filter_rotated(n: nat, at: int, pred: spec_fn(usize) -> bool)
    requires
        0 <= at <= n,
    ensures
        (indices(n).skip(at) + indices(n).take(at)).filter(pred).len() == indices(n).filter(
            pred,
        ).len(),
{
    let all = indices(n);
    Seq::filter_distributes_over_add(all.skip(at), all.take(at), pred);
    Seq::filter_distributes_over_add(all.take(at), all.skip(at), pred);
    assert(all.take(at) + all.skip(at) =~= all);
}

/// The numbers below `n`, in order, are all different.
pub proof fn lemma_indices_distinct(n: nat)
    requires
        n <= usize::MAX,
    ensures
        indices(n).no_duplicates(),
{
    assert forall|i: int, j: int|
        0 <= i < indices(n).len() && 0 <= j < indices(n).len() && i != j implies indices(n)[i]
        != indices(n)[j] by {
        assert(indices(n)[i] == i && indices(n)[j] == j);
    }
}

/// The places and the pool of a shuffle of the lineup, of the rotation or
/// of the whole team have what the shuffle needs to name every slot once.
pub proof fn lemma_reverb_can_permute(
    reverb_type: u8,
    lineup_len: int,
    rotation_len: int,
    gravity: Seq<usize>,
)
    requires
        reverb_type == 0 || reverb_type == 2 || reverb_type == 3,
        0 <= lineup_len,
        0 <= rotation_len,
        lineup_len + rotation_len <= usize::MAX,
    ensures
        can_permute(
            reverb_slots(reverb_type, lineup_len, rotation_len, gravity),
            reverb_pool(reverb_type, lineup_len, rotation_len, gravity),
        ),
{
    let slots = reverb_slots(reverb_type, lineup_len, rotation_len, gravity);
    let pool = reverb_pool(reverb_type, lineup_len, rotation_len, gravity);
    let n: nat = if reverb_type == 0 {
        (lineup_len + rotation_len) as nat
    } else if reverb_type == 2 {
        lineup_len as nat
    } else {
        rotation_len as nat
    };
    let offset = if reverb_type == 3 {
        lineup_len
    } else {
        0
    };
    let pred = is_free(gravity, offset);
    assert(pool == indices(n).filter(pred));
    lemma_indices_distinct(n);
    crate::mods::lemma_filter_no_duplicates(indices(n), pred);
    lemma_free_places_from_back(slots);
    let vals = if reverb_type == 0 {
        indices(n).skip(lineup_len) + indices(n).take(lineup_len)
    } else {
        indices(n)
    };
    assert(vals.len() == n);
    assert forall|i: int| 0 <= i < slots.len() implies (#[trigger] slots[i]).fixed == !pred(
        vals[i],
    ) by {
        if reverb_type == 0 {
            if i < rotation_len {
                assert(vals[i] == indices(n).skip(lineup_len)[i]);
                assert(vals[i] == i + lineup_len);
            } else {
                assert(vals[i] == indices(n).take(lineup_len)[i - rotation_len]);
                assert(vals[i] == i - rotation_len);
            }
        } else {
            assert(vals[i] == i);
        }
    }
    lemma_free_among_is_filtered(slots, vals, pred, n as int);
    assert(vals.take(n as int) =~= vals);
    if reverb_type == 0 {
        lemma_filter_rotated(n, lineup_len, pred);
    }
    assert(free_places(slots) == pool.len());
    assert forall|i: int| 0 <= i < slots.len() && (#[trigger] slots[i]).fixed implies
        !pool.contains(slots[i].stay) by {
        if pool.contains(slots[i].stay) {
            let j = choose|j: int| 0 <= j < pool.len() && pool[j] == slots[i].stay;
            indices(n).lemma_filter_pred(pred, j);
        }
    }
}

/// A reverb of the whole team, of the lineup or of the rotation rearranges
/// the slots: the changes that it rolls name each slot exactly once.  So
/// the players after the reverb are the players before it, each once.
pub proof fn lemma_rolled_changes_rearrange(
    reverb_type: u8,
    lineup_len: int,
    rotation_len: int,
    gravity: Seq<usize>,
    s: RngState,
    slot: int,
)
    requires
        reverb_type == 0 || reverb_type == 2 || reverb_type == 3,
        0 <= lineup_len,
        0 <= rotation_len,
        lineup_len + rotation_len <= usize::MAX,
        0 <= slot < (if reverb_type == 0 {
            lineup_len + rotation_len
        } else if reverb_type == 2 {
            lineup_len
        } else {
            rotation_len
        }),
    ensures
        rolled_changes(reverb_type, lineup_len, rotation_len, gravity, s).0.no_duplicates(),
        rolled_changes(reverb_type, lineup_len, rotation_len, gravity, s).0.len() == (
        if reverb_type == 0 {
            lineup_len + rotation_len
        } else if reverb_type == 2 {
            lineup_len
        } else {
            rotation_len
        }),
        rolled_changes(reverb_type, lineup_len, rotation_len, gravity, s).0.contains(
            slot as usize,
        ),
{
    let slots = reverb_slots(reverb_type, lineup_len, rotation_len, gravity);
    let pool = reverb_pool(reverb_type, lineup_len, rotation_len, gravity);
    let changes = rolled_changes(reverb_type, lineup_len, rotation_len, gravity, s).0;
    lemma_reverb_can_permute(reverb_type, lineup_len, rotation_len, gravity);
    lemma_shuffle_permutes(slots, pool, s);
    let offset = if reverb_type == 3 {
        lineup_len
    } else {
        0
    };
    let pred = is_free(gravity, offset);
    if pred(slot as usize) {
        indices(slots.len()).lemma_filter_contains(pred, slot);
        assert(indices(slots.len())[slot] == slot as usize);
        assert(pool.contains(slot as usize));
    } else {
        let place = if reverb_type == 0 {
            if slot >= lineup_len {
                slot - lineup_len
            } else {
                slot + rotation_len
            }
        } else {
            slot
        };
        assert(slots[place].fixed);
        assert(slots[place].stay == slot);
        assert(changes[place] == slot as usize);
    }
}

} // verus!
