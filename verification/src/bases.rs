//! Baserunners: who stands on which base, and the ways in which they move.
//!
//! Bases are counted from 0 (first base).  With `base_number` bases in play
//! the last index `base_number - 1` is home plate: a runner who reaches it
//! has scored and leaves the bases at the next sweep.

use vstd::prelude::*;
use crate::rng::{draw_index, DRAW_SPAN, pick_index};

verus! {

/// One runner and the base on which the runner stands.
#[derive(Debug, Clone, Copy, PartialEq, Eq, Structural)]
pub struct Baserunner {
    pub id: u128,
    pub base: u8,
}

/// The runners on base, in the order in which they reached base.
#[derive(Debug)]
pub struct Baserunners {
    pub runners: Vec<Baserunner>,
    pub base_number: u8,
}

/// Whether some runner of `s` stands on `base`.
pub open spec fn occupied_in(s: Seq<Baserunner>, base: int) -> bool {
    exists|i: int| 0 <= i < s.len() && (#[trigger] s[i]).base == base
}

/// Whether the runner `id` is among `s`.
pub open spec fn contains_runner(s: Seq<Baserunner>, id: u128) -> bool {
    exists|i: int| 0 <= i < s.len() && (#[trigger] s[i]).id == id
}

/// The position in `s` of the first runner on `base`, or the length of `s`
/// if there is none.
pub open spec fn first_on(s: Seq<Baserunner>, base: int) -> int
    decreases s.len(),
{
    if s.len() == 0 {
        0
    } else if s[0].base == base {
        0
    } else {
        1 + first_on(s.drop_first(), base)
    }
}

/// `first_on` finds a runner on `base` exactly when there is one, and no
/// runner before it is on `base`.
pub proof fn lemma_first_on(s: Seq<Baserunner>, base: int)
    ensures
        0 <= first_on(s, base) <= s.len(),
        first_on(s, base) < s.len() ==> s[first_on(s, base)].base == base,
        forall|j: int| 0 <= j < first_on(s, base) ==> (#[trigger] s[j]).base != base,
        occupied_in(s, base) <==> first_on(s, base) < s.len(),
    decreases s.len(),
{
    if s.len() > 0 && s[0].base != base {
        let t = s.drop_first();
        lemma_first_on(t, base);
        assert forall|j: int| 0 <= j < first_on(s, base) implies (#[trigger] s[j]).base
            != base by {
            if j > 0 {
                assert(s[j] == t[j - 1]);
            }
        }
        if first_on(t, base) < t.len() {
            assert(s[first_on(s, base)] == t[first_on(t, base)]);
        }
        if occupied_in(s, base) {
            let i = choose|i: int| 0 <= i < s.len() && (#[trigger] s[i]).base == base;
            assert(t[i - 1] == s[i]);
        }
    }
}

/// `s` with the runner at position `i` moved by `amount` bases.
pub open spec fn moved(s: Seq<Baserunner>, i: int, amount: int) -> Seq<Baserunner> {
    s.update(i, Baserunner { id: s[i].id, base: (s[i].base + amount) as u8 })
}

/// `s` after the first runner on `base`, if any, has moved up one base.
pub open spec fn advance_first(s: Seq<Baserunner>, base: int) -> Seq<Baserunner> {
    if first_on(s, base) < s.len() {
        moved(s, first_on(s, base), 1)
    } else {
        s
    }
}

/// `s` after every runner has moved up `amount` bases.
pub open spec fn advance_each(s: Seq<Baserunner>, amount: int) -> Seq<Baserunner> {
    Seq::new(s.len(), |i: int| Baserunner { id: s[i].id, base: (s[i].base + amount) as u8 })
}

/// The number of occupied bases in a row, counted from base 0, up to `max`:
/// the runners whom a new runner on base 0 forces ahead.
pub open spec fn chain_len(s: Seq<Baserunner>, max: nat) -> nat
    decreases max,
{
    if max == 0 {
        0
    } else {
        let shorter = chain_len(s, (max - 1) as nat);
        if shorter == max - 1 && occupied_in(s, max - 1) {
            max
        } else {
            shorter
        }
    }
}

/// `s` after the runners on the bases below `k` were pushed ahead one base
/// each, the one on the highest base first.
pub open spec fn push_chain(s: Seq<Baserunner>, k: nat) -> Seq<Baserunner>
    decreases k,
{
    if k == 0 {
        s
    } else {
        push_chain(advance_first(s, k - 1), (k - 1) as nat)
    }
}

/// `s` after a walk: the chain of runners that starts on base 0 is pushed
/// ahead, so that base 0 is free.
pub open spec fn walk_of(s: Seq<Baserunner>) -> Seq<Baserunner> {
    push_chain(s, chain_len(s, 5))
}

/// `s` after the runners from position `i` on, one after the other, have
/// each moved up one base if the base ahead was free at that moment and the
/// runner is among `advancing`.
pub open spec fn advance_if_from(s: Seq<Baserunner>, advancing: Seq<u128>, i: int) -> Seq<
    Baserunner,
>
    decreases s.len() - i,
{
    if i < 0 || i >= s.len() {
        s
    } else if !occupied_in(s, s[i].base + 1) && advancing.contains(s[i].id) {
        advance_if_from(moved(s, i, 1), advancing, i + 1)
    } else {
        advance_if_from(s, advancing, i + 1)
    }
}

/// No two runners of `s` stand on the same base.
pub open spec fn distinct_bases(s: Seq<Baserunner>) -> bool {
    forall|i: int, j: int|
        0 <= i < s.len() && 0 <= j < s.len() && i != j ==> (#[trigger] s[i]).base != (
        #[trigger] s[j]).base
}

/// Every runner of `s` stands on a base below `bound`.
pub open spec fn bases_below(s: Seq<Baserunner>, bound: int) -> bool {
    forall|i: int| 0 <= i < s.len() ==> (#[trigger] s[i]).base < bound
}

/// The victim of a fielder's choice: the runner on base 2 if there is one,
/// else the one on base 1 if there is one, else the one on base 0.
pub open spec fn fielders_choice_base(s: Seq<Baserunner>) -> u8 {
    if occupied_in(s, 2) {
        2
    } else if occupied_in(s, 1) {
        1
    } else {
        0
    }
}

impl View for Baserunners {
    type V = Seq<Baserunner>;

    open spec fn view(&self) -> Seq<Baserunner> {
        self.runners@
    }
}

impl Clone for Baserunners {
    fn clone(&self) -> (r: Baserunners)
        ensures
            r@ == self@,
            r.base_number == self.base_number,
    {
        let mut copy: Vec<Baserunner> = Vec::new();
        let mut i: usize = 0;
        while i < self.runners.len()
            invariant
                i <= self.runners.len(),
                copy@ == self.runners@.take(i as int),
            decreases self.runners.len() - i,
        {
            copy.push(self.runners[i]);
            assert(self.runners@.take(i + 1) =~= self.runners@.take(i as int).push(
                self.runners@[i as int],
            ));
            i += 1;
        }
        assert(self.runners@.take(i as int) =~= self.runners@);
        Baserunners { runners: copy, base_number: self.base_number }
    }
}

impl Baserunners {
    /// The bases hold at most one runner each, and every runner stands
    /// short of home plate.
    pub open spec fn wf(&self) -> bool {
        &&& self.base_number == 4 || self.base_number == 5
        &&& distinct_bases(self@)
        &&& bases_below(self@, self.base_number - 1)
    }

    /// Empty bases, with `base_number` bases in play.
    pub fn new(base_number: u8) -> (r: Baserunners)
        ensures
            r@ == Seq::<Baserunner>::empty(),
            r.base_number == base_number,
    {
        Baserunners { runners: Vec::new(), base_number }
    }

    /// The position of the first runner on `base`, or the number of runners
    /// if there is none.
    fn find(&self, base: u8) -> (i: usize)
        ensures
            i == first_on(self@, base as int),
            i <= self@.len(),
            i < self@.len() ==> self@[i as int].base == base,
            occupied_in(self@, base as int) <==> i < self@.len(),
    {
        let mut i: usize = 0;
        proof {
            lemma_first_on(self@, base as int);
        }
        while i < self.runners.len()
            invariant
                i <= self.runners.len(),
                forall|j: int| 0 <= j < i ==> (#[trigger] self.runners@[j]).base != base,
                0 <= first_on(self@, base as int) <= self@.len(),
                first_on(self@, base as int) < self@.len() ==> self@[first_on(
                    self@,
                    base as int,
                )].base == base,
                forall|j: int|
                    0 <= j < first_on(self@, base as int) ==> (#[trigger] self@[j]).base != base,
                occupied_in(self@, base as int) <==> first_on(self@, base as int) < self@.len(),
            decreases self.runners.len() - i,
        {
            if self.runners[i].base == base {
                return i;
            }
            i += 1;
        }
        i
    }

    /// Whether a runner stands on `base`.
    pub fn occupied(&self, base: u8) -> (b: bool)
        ensures
            b == occupied_in(self@, base as int),
    {
        self.find(base) < self.runners.len()
    }

    /// Whether the base after `base` is free.
    pub fn can_advance(&self, base: u8) -> (b: bool)
        ensures
            b == !occupied_in(self@, base + 1),
    {
        if base == u8::MAX {
            true
        } else {
            !self.occupied(base + 1)
        }
    }

    /// The runner on `base`: the first one in order, if there are several.
    pub fn at(&self, base: u8) -> (r: Option<u128>)
        ensures
            r.is_some() == occupied_in(self@, base as int),
            r.is_some() ==> r == Some(self@[first_on(self@, base as int)].id),
    {
        let i = self.find(base);
        if i < self.runners.len() {
            Some(self.runners[i].id)
        } else {
            None
        }
    }

    /// Whether the runner `id` is on base.
    pub fn contains(&self, id: u128) -> (b: bool)
        ensures
            b == contains_runner(self@, id),
    {
        let mut i: usize = 0;
        while i < self.runners.len()
            invariant
                i <= self.runners.len(),
                forall|j: int| 0 <= j < i ==> (#[trigger] self.runners@[j]).id != id,
            decreases self.runners.len() - i,
        {
            if self.runners[i].id == id {
                return true;
            }
            i += 1;
        }
        false
    }

    /// Moves the runner on `base` up one base: the first one in order, if
    /// there are several.
    pub fn advance(&mut self, base: u8)
        requires
            base < u8::MAX,
        ensures
            final(self)@ == advance_first(old(self)@, base as int),
            final(self).base_number == old(self).base_number,
    {
        let i = self.find(base);
        if i < self.runners.len() {
            let r = self.runners[i];
            self.runners.set(i, Baserunner { id: r.id, base: r.base + 1 });
        }
    }

    /// Takes the runner on `base` off the bases: the first one in order, if
    /// there are several.  Returns who it was.
    pub fn remove(&mut self, base: u8) -> (r: Option<u128>)
        ensures
            r.is_some() == occupied_in(old(self)@, base as int),
            r.is_some() ==> r == Some(old(self)@[first_on(old(self)@, base as int)].id),
            r.is_some() ==> final(self)@ == old(self)@.remove(first_on(old(self)@, base as int)),
            r.is_none() ==> final(self)@ == old(self)@,
            final(self).base_number == old(self).base_number,
    {
        let i = self.find(base);
        if i < self.runners.len() {
            let runner = self.runners.remove(i);
            Some(runner.id)
        } else {
            None
        }
    }

    /// Moves every runner up `amount` bases.
    pub fn advance_all(&mut self, amount: u8)
        requires
            bases_below(old(self)@, 256 - amount),
        ensures
            final(self)@ == advance_each(old(self)@, amount as int),
            final(self).base_number == old(self).base_number,
    {
        let mut i: usize = 0;
        while i < self.runners.len()
            invariant
                i <= self.runners.len(),
                self.runners@.len() == old(self)@.len(),
                self.base_number == old(self).base_number,
                bases_below(old(self)@, 256 - amount),
                forall|j: int|
                    0 <= j < i ==> self.runners@[j] == advance_each(old(self)@, amount as int)[j],
                forall|j: int| i <= j < self.runners@.len() ==> self.runners@[j] == old(self)@[j],
            decreases self.runners.len() - i,
        {
            let r = self.runners[i];
            assert(old(self)@[i as int].base < 256 - amount);
            self.runners.set(i, Baserunner { id: r.id, base: r.base + amount });
            i += 1;
        }
        assert(self@ =~= advance_each(old(self)@, amount as int));
    }

    /// Makes room on base 0 for a batter who walks: the runners on the
    /// occupied bases in a row from base 0 move up one base each.
    pub fn walk(&mut self)
        ensures
            final(self)@ == walk_of(old(self)@),
            final(self).base_number == old(self).base_number,
    {
        let mut num_occupied: u8 = 0;
        while num_occupied < 5 && self.occupied(num_occupied)
            invariant
                num_occupied <= 5,
                num_occupied == chain_len(self@, num_occupied as nat),
            decreases 5 - num_occupied,
        {
            num_occupied += 1;
        }
        proof {
            lemma_chain_len_stops(self@, num_occupied as nat, 5);
        }
        let mut k: u8 = num_occupied;
        while k > 0
            invariant
                k <= 5,
                self.base_number == old(self).base_number,
                walk_of(old(self)@) == push_chain(self@, k as nat),
            decreases k,
        {
            k -= 1;
            self.advance(k);
        }
    }

    /// Moves the runners as a walk to a batter with base instincts does: all
    /// of them three bases if the batter goes to `third`; else two bases if
    /// base 0 is occupied, or one base if only base 1 is.
    pub fn walk_instincts(&mut self, third: bool)
        requires
            bases_below(old(self)@, 253),
        ensures
            final(self)@ == advance_each(
                old(self)@,
                if third {
                    3
                } else if occupied_in(old(self)@, 0) {
                    2
                } else if occupied_in(old(self)@, 1) {
                    1
                } else {
                    0
                },
            ),
            final(self).base_number == old(self).base_number,
    {
        if third {
            self.advance_all(3);
        } else if self.occupied(0) {
            self.advance_all(2);
        } else if self.occupied(1) {
            self.advance_all(1);
        } else {
            assert(self@ =~= advance_each(self@, 0));
        }
    }

    /// Lets the runners advance one after the other, in order: each moves up
    /// one base if the base ahead is free at that moment and the runner is
    /// among `advancing`.
    pub fn advance_if(&mut self, advancing: &Vec<u128>)
        requires
            bases_below(old(self)@, 255),
        ensures
            final(self)@ == advance_if_from(old(self)@, advancing@, 0),
            final(self).base_number == old(self).base_number,
    {
        let mut i: usize = 0;
        while i < self.runners.len()
            invariant
                i <= self.runners.len(),
                self.base_number == old(self).base_number,
                forall|j: int| i <= j < self@.len() ==> (#[trigger] self@[j]).base < 255,
                advance_if_from(old(self)@, advancing@, 0) == advance_if_from(
                    self@,
                    advancing@,
                    i as int,
                ),
            decreases self.runners.len() - i,
        {
            let r = self.runners[i];
            if self.can_advance(r.base) && id_among(advancing, r.id) {
                self.runners.set(i, Baserunner { id: r.id, base: r.base + 1 });
            }
            i += 1;
        }
    }

    /// Lets the runners advance where a batter forces them to.  With
    /// runners on bases 0 and 1 everybody moves up one base.  Else the
    /// runners are looked at one after the other, in order: a runner whose
    /// next base is free moves up if the runner is among `advancing`, and
    /// a runner on base 0 who is not makes room as for a walk.
    pub fn forced_advance_if(&mut self, advancing: &Vec<u128>)
        requires
            bases_below(old(self)@, 200),
            old(self)@.len() <= 50,
        ensures
            final(self)@ == forced_advance_of(old(self)@, advancing@),
            final(self).base_number == old(self).base_number,
    {
        if self.occupied(0) && self.occupied(1) {
            self.advance_all(1);
        } else {
            let mut i: usize = 0;
            while i < self.runners.len()
                invariant
                    i <= self.runners.len(),
                    self.base_number == old(self).base_number,
                    self@.len() == old(self)@.len(),
                    bases_below(self@, 200 + i),
                    self@.len() <= 50,
                    forced_advance_from(old(self)@, advancing@, 0) == forced_advance_from(
                        self@,
                        advancing@,
                        i as int,
                    ),
                decreases self.runners.len() - i,
            {
                let r = self.runners[i];
                if self.can_advance(r.base) {
                    if id_among(advancing, r.id) {
                        self.runners.set(i, Baserunner { id: r.id, base: r.base + 1 });
                    } else if r.base == 0 {
                        proof {
                            lemma_walk_shape(self@, 200 + i);
                        }
                        self.walk();
                    }
                }
                i += 1;
            }
        }
    }

    /// Puts the runner `id` on `base`.
    pub fn add(&mut self, base: u8, id: u128)
        ensures
            final(self)@ == old(self)@.push(Baserunner { id, base }),
            final(self).base_number == old(self).base_number,
    {
        self.runners.push(Baserunner { id, base });
    }

    /// Whether the bases are empty.
    pub fn empty(&self) -> (b: bool)
        ensures
            b == (self@.len() == 0),
    {
        self.runners.len() == 0
    }

    /// Takes every runner off the bases.
    pub fn clear(&mut self)
        ensures
            final(self)@ == Seq::<Baserunner>::empty(),
            final(self).base_number == old(self).base_number,
    {
        self.runners = Vec::new();
    }

    /// The base of the runner whom the draw `roll` selects.
    pub fn pick_runner(&self, roll: u64) -> (base: u8)
        requires
            self@.len() > 0,
            roll < DRAW_SPAN,
        ensures
            base == self@[draw_index(roll, self@.len()) as int].base,
    {
        let idx = pick_index(roll, self.runners.len());
        self.runners[idx].base
    }

    /// The base of the runner who is put out on a fielder's choice.
    pub fn pick_runner_fc(&self) -> (base: u8)
        ensures
            base == fielders_choice_base(self@),
    {
        if self.occupied(2) {
            2
        } else if self.occupied(1) {
            1
        } else {
            0
        }
    }

    /// The runners, in order.
    pub fn iter(&self) -> (r: &Vec<Baserunner>)
        ensures
            r@ == self@,
    {
        &self.runners
    }

    /// The runners, in order, to be changed in place.
    pub fn iter_mut(&mut self) -> (r: &mut Vec<Baserunner>)
        ensures
            r@ == old(self)@,
            final(self)@ == final(r)@,
            final(self).base_number == old(self).base_number,
    {
        &mut self.runners
    }
}

/// `s` after the runners from position `i` on were looked at for a forced
/// advance, one after the other.
pub open spec fn forced_advance_from(s: Seq<Baserunner>, advancing: Seq<u128>, i: int) -> Seq<
    Baserunner,
>
    decreases s.len() - i,
{
    if i < 0 || i >= s.len() {
        s
    } else if occupied_in(s, s[i].base + 1) {
        forced_advance_from(s, advancing, i + 1)
    } else if advancing.contains(s[i].id) {
        forced_advance_from(moved(s, i, 1), advancing, i + 1)
    } else if s[i].base == 0 {
        proof {
            lemma_walk_shape(s, 256);
        }
        forced_advance_from(walk_of(s), advancing, i + 1)
    } else {
        forced_advance_from(s, advancing, i + 1)
    }
}

/// `s` after a forced advance.
pub open spec fn forced_advance_of(s: Seq<Baserunner>, advancing: Seq<u128>) -> Seq<Baserunner> {
    if occupied_in(s, 0) && occupied_in(s, 1) {
        advance_each(s, 1)
    } else {
        forced_advance_from(s, advancing, 0)
    }
}

/// A walk keeps the number of runners and moves nobody further than one
/// base.
pub proof fn lemma_walk_shape(s: Seq<Baserunner>, bound: int)
    requires
        bases_below(s, bound),
    ensures
        walk_of(s).len() == s.len(),
        bases_below(walk_of(s), bound + 1),
        forall|i: int| 0 <= i < s.len() ==> (#[trigger] walk_of(s)[i]).id == s[i].id,
{
    lemma_chain_len_bound(s, 5);
    lemma_push_chain_shape(s, chain_len(s, 5), bound);
}

/// The chain is no longer than the bound.
pub proof fn lemma_chain_len_bound(s: Seq<Baserunner>, max: nat)
    ensures
        chain_len(s, max) <= max,
    decreases max,
{
    if max > 0 {
        lemma_chain_len_bound(s, (max - 1) as nat);
    }
}

/// Pushing a chain ahead keeps the number of runners and moves nobody
/// further than one base.
pub proof fn lemma_push_chain_shape(s: Seq<Baserunner>, k: nat, bound: int)
    requires
        bases_below(s, bound),
        k <= 5,
    ensures
        push_chain(s, k).len() == s.len(),
        forall|i: int|
            0 <= i < s.len() ==> s[i].base <= (#[trigger] push_chain(s, k)[i]).base <= s[i].base + 1,
        forall|i: int|
            0 <= i < s.len() && s[i].base >= k ==> (#[trigger] push_chain(s, k)[i]) == s[i],
        forall|i: int| 0 <= i < s.len() ==> (#[trigger] push_chain(s, k)[i]).id == s[i].id,
        bases_below(push_chain(s, k), bound + 1),
    decreases k,
{
    if k > 0 {
        lemma_first_on(s, k - 1);
        let t = advance_first(s, k - 1);
        assert forall|i: int| 0 <= i < s.len() implies (#[trigger] push_chain(s, k)[i]).id
            == s[i].id by {
            lemma_push_chain_shape(t, (k - 1) as nat, bound + 1);
            assert(push_chain(t, (k - 1) as nat)[i].id == t[i].id);
        }
        assert(bases_below(t, bound + 1)) by {
            assert forall|i: int| 0 <= i < t.len() implies (#[trigger] t[i]).base < bound + 1 by {
                assert(s[i].base < bound);
            }
        }
        lemma_push_chain_shape(t, (k - 1) as nat, bound + 1);
        assert forall|i: int| 0 <= i < s.len() && s[i].base >= k implies (#[trigger] push_chain(
            s,
            k,
        )[i]) == s[i] by {
            assert(t[i] == s[i]);
        }
        assert forall|i: int| 0 <= i < s.len() implies s[i].base <= (#[trigger] push_chain(
            s,
            k,
        )[i]).base <= s[i].base + 1 by {
            if t[i] != s[i] {
                assert(t[i].base == k);
                assert(push_chain(t, (k - 1) as nat)[i] == t[i]);
            }
        }
        assert forall|i: int| 0 <= i < push_chain(s, k).len() implies (#[trigger] push_chain(
            s,
            k,
        )[i]).base < bound + 1 by {
            assert(s[i].base < bound);
        }
    }
}

/// Whether `id` is one of `ids`.
pub fn id_among(ids: &Vec<u128>, id: u128) -> (b: bool)
    ensures
        b == ids@.contains(id),
{
    let mut j: usize = 0;
    while j < ids.len()
        invariant
            j <= ids.len(),
            forall|k: int| 0 <= k < j ==> ids@[k] != id,
        decreases ids.len() - j,
    {
        if ids[j] == id {
            return true;
        }
        j += 1;
    }
    false
}

/// Once a base of the chain is free, the chain is no longer, whatever the
/// bound.
pub proof fn lemma_chain_len_stops(s: Seq<Baserunner>, k: nat, max: nat)
    requires
        k <= max,
        k == chain_len(s, k),
        k < max ==> !occupied_in(s, k as int),
    ensures
        chain_len(s, max) == k,
    decreases max,
{
    if k < max {
        lemma_chain_len_stops(s, k, (max - 1) as nat);
    }
}

} // verus!
