//! Modifier badges and the set of badges that a player or a team carries.

use vstd::prelude::*;

verus! {

/// A modifier badge.
#[derive(Debug, Clone, Copy, PartialEq, Eq, Structural)]
pub enum Mod {
    TargetedShame,
    Flinch,
    Mild,
    Reverberating,
    Fireproof,
    Soundproof,
    Shelled,
    Gravity,
    NightVision,
    FourthStrike,
    DebtU,
    Unstable,
    Superallergic,
    Spicy,
    HeatingUp,
    RedHot,
    Minimized,
    Electric,
    RefinancedDebt,
    Flickering,
    Stable,
    HomeFieldAdvantage,
    BaseInstincts,
    AffinityForCrows,
    Growth,
    ConsolidatedDebt,
    Repeating,
    FifthBase,
    Charm,
    SuperFlickering,
    Siphon,
    FireEater,
    Magmatic,
    Traveling,
    Haunted,
    Sealant,
    Blaserunning,
    BirdSeed,
    Superyummy,
    Overperforming,
    Underperforming,
    WalkInThePark,
    ONo,
    Wired,
    Tired,
    FreeRefill,
    TripleThreat,
    Perk,
}

/// How long an attached badge lasts.
#[derive(Debug, Clone, Copy, PartialEq, Eq, Structural)]
pub enum ModLifetime {
    Game,
    Week,
    Season,
    LegendaryItem,
    Permanent,
}

/// A badge together with its lifetime.
#[derive(Debug, Clone, Copy, PartialEq, Eq, Structural)]
pub struct ModWithLifetime {
    pub lifetime: ModLifetime,
    pub the_mod: Mod,
}

/// The badges attached to one player or team, in the order in which they
/// were attached.  No badge occurs twice with the same lifetime.
#[derive(Debug)]
pub struct Mods {
    mods: Vec<ModWithLifetime>,
}

impl View for Mods {
    type V = Seq<ModWithLifetime>;

    closed spec fn view(&self) -> Seq<ModWithLifetime> {
        self.mods@
    }
}

/// Whether some entry of `s` carries the badge `m`.
pub open spec fn seq_has_mod(s: Seq<ModWithLifetime>, m: Mod) -> bool {
    exists|i: int| 0 <= i < s.len() && (#[trigger] s[i]).the_mod == m
}

/// `s` without the entries that carry the badge `m`.
pub open spec fn without_mod(s: Seq<ModWithLifetime>, m: Mod) -> Seq<ModWithLifetime> {
    s.filter(is_other_mod(m))
}

/// The test that an entry carries another badge than `m`.
pub open spec fn is_other_mod(m: Mod) -> spec_fn(ModWithLifetime) -> bool {
    |e: ModWithLifetime| e.the_mod != m
}

/// The test that an entry has another lifetime than `lifetime`.
pub open spec fn is_other_lifetime(lifetime: ModLifetime) -> spec_fn(ModWithLifetime) -> bool {
    |e: ModWithLifetime| e.lifetime != lifetime
}

/// `s` without the entries whose lifetime is `lifetime`.
pub open spec fn without_lifetime(s: Seq<ModWithLifetime>, lifetime: ModLifetime) -> Seq<
    ModWithLifetime,
> {
    s.filter(is_other_lifetime(lifetime))
}

/// `s` with the entry `e` attached at the end, unless `s` holds it already.
pub open spec fn with_entry(s: Seq<ModWithLifetime>, e: ModWithLifetime) -> Seq<ModWithLifetime> {
    if s.contains(e) {
        s
    } else {
        s.push(e)
    }
}

/// Filtering a prefix that is one longer keeps or drops the new last entry.
pub proof fn lemma_filter_take_step<A>(s: Seq<A>, pred: spec_fn(A) -> bool, i: int)
    requires
        0 <= i < s.len(),
    ensures
        s.take(i + 1).filter(pred) == if pred(s[i]) {
            s.take(i).filter(pred).push(s[i])
        } else {
            s.take(i).filter(pred)
        },
{
    reveal(Seq::filter);
    assert(s.take(i + 1).drop_last() =~= s.take(i));
    assert(s.take(i + 1).last() == s[i]);
}

/// Filtering keeps a sequence free of duplicates.
pub proof fn lemma_filter_no_duplicates<A>(s: Seq<A>, pred: spec_fn(A) -> bool)
    requires
        s.no_duplicates(),
    ensures
        s.filter(pred).no_duplicates(),
    decreases s.len(),
{
    reveal(Seq::filter);
    if s.len() > 0 {
        let sub = s.drop_last();
        lemma_filter_no_duplicates(sub, pred);
        if pred(s.last()) {
            let f = sub.filter(pred);
            assert forall|i: int| 0 <= i < f.len() implies f[i] != s.last() by {
                assert(f.contains(f[i]));
                sub.lemma_filter_contains_rev(pred, f[i]);
                let j = choose|j: int| 0 <= j < sub.len() && sub[j] == f[i];
                assert(s[j] == f[i]);
            }
        }
    }
}

impl Mods {
    /// No entry occurs twice.
    pub open spec fn wf(&self) -> bool {
        self@.no_duplicates()
    }

    /// Whether the set carries the badge `m`, with whatever lifetime.
    pub open spec fn spec_has(&self, m: Mod) -> bool {
        seq_has_mod(self@, m)
    }

    /// The empty set.
    pub fn new() -> (r: Mods)
        ensures
            r@ == Seq::<ModWithLifetime>::empty(),
            r.wf(),
    {
        Mods { mods: Vec::new() }
    }

    /// The number of attached badges, each counted once for each of its
    /// lifetimes.
    pub fn len(&self) -> (n: usize)
        ensures
            n == self@.len(),
    {
        self.mods.len()
    }

    /// Whether the set carries the badge `m`, with whatever lifetime.
    pub fn has(&self, m: Mod) -> (b: bool)
        ensures
            b == self.spec_has(m),
    {
        let mut i: usize = 0;
        while i < self.mods.len()
            invariant
                i <= self.mods.len(),
                forall|j: int| 0 <= j < i ==> (#[trigger] self.mods@[j]).the_mod != m,
            decreases self.mods.len() - i,
        {
            if self.mods[i].the_mod == m {
                return true;
            }
            i += 1;
        }
        false
    }

    /// Attaches the badge with the lifetime, unless the set holds that very
    /// pair already.
    pub fn add(&mut self, m: Mod, lifetime: ModLifetime)
        ensures
            final(self)@ == with_entry(old(self)@, ModWithLifetime { lifetime, the_mod: m }),
            final(self).spec_has(m),
            old(self).wf() ==> final(self).wf(),
    {
        let ml = ModWithLifetime { the_mod: m, lifetime };
        let mut i: usize = 0;
        while i < self.mods.len()
            invariant
                i <= self.mods.len(),
                self.mods@ == old(self).mods@,
                ml == (ModWithLifetime { lifetime, the_mod: m }),
                forall|j: int| 0 <= j < i ==> self.mods@[j] != ml,
            decreases self.mods.len() - i,
        {
            if self.mods[i] == ml {
                assert(self.mods@.contains(ml));
                return ;
            }
            i += 1;
        }
        assert(!old(self)@.contains(ml));
        self.mods.push(ml);
        assert(self.mods@[old(self).mods@.len() as int].the_mod == m);
    }

    /// Detaches the badge `m`, whatever its lifetimes.
    pub fn remove(&mut self, m: Mod)
        ensures
            final(self)@ == without_mod(old(self)@, m),
            !final(self).spec_has(m),
            old(self).wf() ==> final(self).wf(),
    {
        let ghost pred = is_other_mod(m);
        let mut kept: Vec<ModWithLifetime> = Vec::new();
        let mut i: usize = 0;
        proof {
            reveal(Seq::filter);
            assert(self.mods@.take(0) =~= Seq::<ModWithLifetime>::empty());
        }
        while i < self.mods.len()
            invariant
                i <= self.mods.len(),
                self.mods@ == old(self).mods@,
                pred == is_other_mod(m),
                kept@ == self.mods@.take(i as int).filter(pred),
            decreases self.mods.len() - i,
        {
            proof {
                lemma_filter_take_step(self.mods@, pred, i as int);
            }
            if self.mods[i].the_mod != m {
                kept.push(self.mods[i]);
            }
            i += 1;
        }
        proof {
            assert(self.mods@.take(i as int) =~= self.mods@);
            if old(self).wf() {
                lemma_filter_no_duplicates(old(self)@, pred);
            }
            assert forall|j: int| 0 <= j < kept@.len() implies (#[trigger] kept@[j]).the_mod
                != m by {
                old(self)@.lemma_filter_pred(pred, j);
            }
        }
        self.mods = kept;
    }

    /// Detaches every badge whose lifetime is `lifetime`.
    pub fn clear_lifetime(&mut self, lifetime: ModLifetime)
        ensures
            final(self)@ == without_lifetime(old(self)@, lifetime),
            old(self).wf() ==> final(self).wf(),
    {
        let ghost pred = is_other_lifetime(lifetime);
        let mut kept: Vec<ModWithLifetime> = Vec::new();
        let mut i: usize = 0;
        proof {
            reveal(Seq::filter);
            assert(self.mods@.take(0) =~= Seq::<ModWithLifetime>::empty());
        }
        while i < self.mods.len()
            invariant
                i <= self.mods.len(),
                self.mods@ == old(self).mods@,
                pred == is_other_lifetime(lifetime),
                kept@ == self.mods@.take(i as int).filter(pred),
            decreases self.mods.len() - i,
        {
            proof {
                lemma_filter_take_step(self.mods@, pred, i as int);
            }
            if self.mods[i].lifetime != lifetime {
                kept.push(self.mods[i]);
            }
            i += 1;
        }
        proof {
            assert(self.mods@.take(i as int) =~= self.mods@);
            if old(self).wf() {
                lemma_filter_no_duplicates(old(self)@, pred);
            }
        }
        self.mods = kept;
    }

    /// Detaches the badges that last for one game.
    pub fn clear_game(&mut self)
        ensures
            final(self)@ == without_lifetime(old(self)@, ModLifetime::Game),
            old(self).wf() ==> final(self).wf(),
    {
        self.clear_lifetime(ModLifetime::Game);
    }

    /// Detaches the badges that last for one week.
    pub fn clear_weekly(&mut self)
        ensures
            final(self)@ == without_lifetime(old(self)@, ModLifetime::Week),
            old(self).wf() ==> final(self).wf(),
    {
        self.clear_lifetime(ModLifetime::Week);
    }

    /// Detaches the badges that last for one season.
    pub fn clear_season(&mut self)
        ensures
            final(self)@ == without_lifetime(old(self)@, ModLifetime::Season),
            old(self).wf() ==> final(self).wf(),
    {
        self.clear_lifetime(ModLifetime::Season);
    }

    /// Detaches the badges that a legendary item granted.
    pub fn clear_legendary_item(&mut self)
        ensures
            final(self)@ == without_lifetime(old(self)@, ModLifetime::LegendaryItem),
            old(self).wf() ==> final(self).wf(),
    {
        self.clear_lifetime(ModLifetime::LegendaryItem);
    }
}

impl Clone for Mods {
    fn clone(&self) -> (r: Mods)
        ensures
            r@ == self@,
    {
        let mut copy: Vec<ModWithLifetime> = Vec::new();
        let mut i: usize = 0;
        while i < self.mods.len()
            invariant
                i <= self.mods.len(),
                copy@ == self.mods@.take(i as int),
            decreases self.mods.len() - i,
        {
            copy.push(self.mods[i]);
            assert(self.mods@.take(i + 1) =~= self.mods@.take(i as int).push(self.mods@[i as int]));
            i += 1;
        }
        assert(self.mods@.take(i as int) =~= self.mods@);
        Mods { mods: copy }
    }
}

} // verus!
