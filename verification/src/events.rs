//! The event feed: an append-only log of short tags, one per event, with
//! queries over the most recent half-innings.

use vstd::prelude::*;
use vstd::string::StringExecFns;
use crate::bases::{
    advance_each, advance_first, Baserunner, Baserunners, bases_below, first_on, walk_of,
};
use crate::entities::{
    boosted, can_swap, clamped_sum, generated_name, Player, PlayerView, team_lists, TeamView,
    World, world_with_replaced, world_with_swapped, WorldView,
};
use crate::game::{
    after_pa, after_score, after_sweep, batter_known, Game, GameTeam, GameView, max_strikes,
    run_value, team_bases, Weather,
};
use crate::mods::{Mod, ModLifetime, ModWithLifetime, seq_has_mod, with_entry, without_mod};
use crate::reverb::{reverb_result, valid_changes};

verus! {

/// The tag that marks the boundary between two half-innings.
pub open spec fn inning_switch_tag() -> Seq<char> {
    "inningSwitch"@
}

/// Whether `tag` is met when `feed` is read from its end backwards.  The
/// reading compares each entry with `tag` first; unless `limit` is -1 it
/// then counts boundaries, and stops at the first one met after `limit` of
/// them were passed.  `seen` is the number of boundaries passed so far.
pub open spec fn feed_has(feed: Seq<Seq<char>>, tag: Seq<char>, limit: int, seen: int) -> bool
    decreases feed.len(),
{
    if feed.len() == 0 {
        false
    } else if feed.last() == tag {
        true
    } else if limit != -1 && feed.last() == inning_switch_tag() {
        seen < limit && feed_has(feed.drop_last(), tag, limit, seen + 1)
    } else {
        feed_has(feed.drop_last(), tag, limit, seen)
    }
}

/// The number of entries equal to `tag` that the same backward reading meets
/// before it stops.
pub open spec fn feed_count(feed: Seq<Seq<char>>, tag: Seq<char>, limit: int, seen: int) -> nat
    decreases feed.len(),
{
    if feed.len() == 0 {
        0
    } else if feed.last() == tag {
        1 + feed_count(feed.drop_last(), tag, limit, seen)
    } else if limit != -1 && feed.last() == inning_switch_tag() {
        if seen < limit {
            feed_count(feed.drop_last(), tag, limit, seen + 1)
        } else {
            0
        }
    } else {
        feed_count(feed.drop_last(), tag, limit, seen)
    }
}

/// The length of the run of entries among `tags` at the end of `feed`.
/// Unless `limit` is -1, boundaries neither count nor break the run, and the
/// reading stops at the first one met after `limit` of them were passed.  Any
/// other entry that is not among `tags` ends the run.
pub open spec fn feed_streak(
    feed: Seq<Seq<char>>,
    tags: Seq<Seq<char>>,
    limit: int,
    seen: int,
) -> nat
    decreases feed.len(),
{
    if feed.len() == 0 {
        0
    } else if limit != -1 && feed.last() == inning_switch_tag() {
        if seen < limit {
            feed_streak(feed.drop_last(), tags, limit, seen + 1)
        } else {
            0
        }
    } else if tags.contains(feed.last()) {
        1 + feed_streak(feed.drop_last(), tags, limit, seen)
    } else {
        0
    }
}

/// No reading meets more entries than the feed holds.
pub proof fn lemma_feed_count_bound(feed: Seq<Seq<char>>, tag: Seq<char>, limit: int, seen: int)
    ensures
        feed_count(feed, tag, limit, seen) <= feed.len(),
    decreases feed.len(),
{
    if feed.len() > 0 {
        lemma_feed_count_bound(feed.drop_last(), tag, limit, seen);
        lemma_feed_count_bound(feed.drop_last(), tag, limit, seen + 1);
    }
}

/// No run is longer than the feed.
pub proof fn lemma_feed_streak_bound(
    feed: Seq<Seq<char>>,
    tags: Seq<Seq<char>>,
    limit: int,
    seen: int,
)
    ensures
        feed_streak(feed, tags, limit, seen) <= feed.len(),
    decreases feed.len(),
{
    if feed.len() > 0 {
        lemma_feed_streak_bound(feed.drop_last(), tags, limit, seen);
        lemma_feed_streak_bound(feed.drop_last(), tags, limit, seen + 1);
    }
}

/// The views of a vector of strings.
pub open spec fn tags_of(v: Seq<String>) -> Seq<Seq<char>> {
    v.map_values(|s: String| s@)
}

/// Whether `tag` is one of `tags`.
pub fn tag_among(tags: &Vec<String>, tag: &String) -> (b: bool)
    ensures
        b == tags_of(tags@).contains(tag@),
{
    let mut j: usize = 0;
    while j < tags.len()
        invariant
            j <= tags.len(),
            forall|k: int| 0 <= k < j ==> tags_of(tags@)[k] != tag@,
        decreases tags.len() - j,
    {
        if tags[j] == *tag {
            assert(tags_of(tags@)[j as int] == tag@);
            return true;
        }
        j += 1;
    }
    false
}

/// A feed of event tags, oldest first.
#[derive(Debug)]
pub struct Events {
    events: Vec<String>,
}

impl View for Events {
    type V = Seq<Seq<char>>;

    closed spec fn view(&self) -> Seq<Seq<char>> {
        tags_of(self.events@)
    }
}

impl Clone for Events {
    fn clone(&self) -> (r: Events)
        ensures
            r@ == self@,
    {
        let mut copy: Vec<String> = Vec::new();
        let mut i: usize = 0;
        while i < self.events.len()
            invariant
                i <= self.events.len(),
                copy@ == self.events@.take(i as int),
            decreases self.events.len() - i,
        {
            copy.push(self.events[i].clone());
            assert(self.events@.take(i + 1) =~= self.events@.take(i as int).push(
                self.events@[i as int],
            ));
            i += 1;
        }
        assert(self.events@.take(i as int) =~= self.events@);
        Events { events: copy }
    }
}

impl Events {
    /// The empty feed.
    pub fn new() -> (r: Events)
        ensures
            r@ == Seq::<Seq<char>>::empty(),
    {
        let r = Events { events: Vec::new() };
        assert(r@ =~= Seq::<Seq<char>>::empty());
        r
    }

    /// Appends a tag.
    pub fn add(&mut self, repr: String)
        ensures
            final(self)@ == old(self)@.push(repr@),
    {
        self.events.push(repr);
        assert(self@ =~= old(self)@.push(repr@));
    }

    /// The number of tags.
    pub fn len(&self) -> (n: usize)
        ensures
            n == self@.len(),
    {
        self.events.len()
    }

    /// The newest tag.
    pub fn last(&self) -> (r: &String)
        requires
            self@.len() > 0,
        ensures
            r@ == self@.last(),
    {
        &self.events[self.events.len() - 1]
    }

    /// Whether `s` occurred within the most recent `limit` half-innings; with
    /// a `limit` of -1, whether it occurred at all.
    pub fn has(&self, s: String, limit: i16) -> (b: bool)
        ensures
            b == feed_has(self@, s@, limit as int, 0),
    {
        let switch = String::from_str("inningSwitch");
        let mut half_innings: i16 = 0;
        let mut i: usize = self.events.len();
        assert(self@.take(i as int) =~= self@);
        while i > 0
            invariant
                i <= self.events.len(),
                switch@ == inning_switch_tag(),
                0 <= half_innings,
                half_innings <= limit || half_innings == 0,
                feed_has(self@, s@, limit as int, 0) == feed_has(
                    self@.take(i as int),
                    s@,
                    limit as int,
                    half_innings as int,
                ),
            decreases i,
        {
            let ghost prefix = self@.take(i as int);
            assert(prefix.drop_last() =~= self@.take(i - 1));
            assert(prefix.last() == self.events@[i - 1]@);
            i -= 1;
            if self.events[i] == s {
                return true;
            } else if limit != -1 && self.events[i] == switch {
                if half_innings < limit {
                    half_innings += 1;
                } else {
                    return false;
                }
            }
        }
        false
    }

    /// How often `s` occurred within the most recent `limit` half-innings;
    /// with a `limit` of -1, how often it occurred at all.
    pub fn count(&self, s: String, limit: i16) -> (n: usize)
        ensures
            n == feed_count(self@, s@, limit as int, 0),
    {
        let switch = String::from_str("inningSwitch");
        let mut half_innings: i16 = 0;
        let mut counter: usize = 0;
        let mut i: usize = self.events.len();
        assert(self@.take(i as int) =~= self@);
        while i > 0
            invariant
                i <= self.events.len(),
                switch@ == inning_switch_tag(),
                0 <= half_innings,
                half_innings <= limit || half_innings == 0,
                counter + i <= self.events.len(),
                feed_count(self@, s@, limit as int, 0) == counter + feed_count(
                    self@.take(i as int),
                    s@,
                    limit as int,
                    half_innings as int,
                ),
            decreases i,
        {
            let ghost prefix = self@.take(i as int);
            assert(prefix.drop_last() =~= self@.take(i - 1));
            assert(prefix.last() == self.events@[i - 1]@);
            i -= 1;
            if self.events[i] == s {
                counter += 1;
            } else if self.events[i] == switch && limit != -1 {
                if half_innings < limit {
                    half_innings += 1;
                } else {
                    return counter;
                }
            }
        }
        counter
    }

    /// The length of the run of tags among `strvec` that ends the feed,
    /// within the most recent `limit` half-innings; with a `limit` of -1,
    /// within the whole feed.
    pub fn streak_multiple(&self, strvec: Vec<String>, limit: i16) -> (n: usize)
        ensures
            n == feed_streak(self@, tags_of(strvec@), limit as int, 0),
    {
        let switch = String::from_str("inningSwitch");
        let mut half_innings: i16 = 0;
        let mut counter: usize = 0;
        let mut i: usize = self.events.len();
        assert(self@.take(i as int) =~= self@);
        while i > 0
            invariant
                i <= self.events.len(),
                switch@ == inning_switch_tag(),
                0 <= half_innings,
                half_innings <= limit || half_innings == 0,
                counter + i <= self.events.len(),
                feed_streak(self@, tags_of(strvec@), limit as int, 0) == counter + feed_streak(
                    self@.take(i as int),
                    tags_of(strvec@),
                    limit as int,
                    half_innings as int,
                ),
            decreases i,
        {
            let ghost prefix = self@.take(i as int);
            assert(prefix.drop_last() =~= self@.take(i - 1));
            assert(prefix.last() == self.events@[i - 1]@);
            i -= 1;
            if self.events[i] == switch && limit != -1 {
                if half_innings < limit {
                    half_innings += 1;
                } else {
                    return counter;
                }
            } else if tag_among(&strvec, &self.events[i]) {
                counter += 1;
            } else {
                return counter;
            }
        }
        counter
    }
}

/// Something that happens in a game.
#[derive(Debug)]
#[allow(inconsistent_fields)]
pub enum Event {
    BatterUp { batter: u128, reverberating: bool },
    InningSwitch { inning: i16, top: bool },
    GameOver,
    Ball,
    Strike,
    Foul,
    Strikeout,
    Walk,
    HomeRun,
    BaseHit { bases: u8, runners_after: Baserunners },
    GroundOut { fielder: u128, runners_after: Baserunners },
    Flyout { fielder: u128, runners_after: Baserunners },
    DoublePlay { runners_after: Baserunners },
    FieldersChoice { runners_after: Baserunners },
    BaseSteal { runner: u128, base_from: u8, base_to: u8 },
    CaughtStealing { runner: u128, base_from: u8 },
    Incineration { target: u128, replacement: Player },
    Peanut { target: u128, yummy: bool },
    Birds,
    Feedback { target1: u128, target2: u128 },
    Reverb { reverb_type: u8, team: u128, changes: Vec<usize> },
    Blooddrain { drainer: u128, target: u128, stat: u8, siphon: bool, siphon_effect: i16 },
    Sun2 { home_team: bool },
    BlackHole { home_team: bool },
    Salmon { home_runs_lost: bool, away_runs_lost: bool },
    PolaritySwitch,
    /// The boosts are in attribute units.
    NightShift { batter: bool, replacement: u128, replacement_idx: usize, boosts: Vec<i64> },
    Fireproof { target: u128 },
    /// The reductions are in attribute units.
    Soundproof { resists: u128, tangled: u128, reductions: Vec<i64> },
    Shelled { batter: u128 },
    HitByPitch { target: u128, hbp_type: u8 },
    IncinerationWithChain { target: u128, replacement: Player, chain: Option<u128> },
    PeckedFree { player: u128 },
    Zap { batter: bool },
}

/// What an event is, as plain values.
#[allow(inconsistent_fields)]
pub enum EventView {
    BatterUp { batter: u128, reverberating: bool },
    InningSwitch { inning: i16, top: bool },
    GameOver,
    Ball,
    Strike,
    Foul,
    Strikeout,
    Walk,
    HomeRun,
    BaseHit { bases: u8, runners_after: Seq<Baserunner> },
    GroundOut { fielder: u128, runners_after: Seq<Baserunner> },
    Flyout { fielder: u128, runners_after: Seq<Baserunner> },
    DoublePlay { runners_after: Seq<Baserunner> },
    FieldersChoice { runners_after: Seq<Baserunner> },
    BaseSteal { runner: u128, base_from: u8, base_to: u8 },
    CaughtStealing { runner: u128, base_from: u8 },
    Incineration { target: u128, replacement: PlayerView },
    Peanut { target: u128, yummy: bool },
    Birds,
    Feedback { target1: u128, target2: u128 },
    Reverb { reverb_type: u8, team: u128, changes: Seq<usize> },
    Blooddrain { drainer: u128, target: u128, stat: u8, siphon: bool, siphon_effect: i16 },
    Sun2 { home_team: bool },
    BlackHole { home_team: bool },
    Salmon { home_runs_lost: bool, away_runs_lost: bool },
    PolaritySwitch,
    NightShift { batter: bool, replacement: u128, replacement_idx: usize, boosts: Seq<i64> },
    Fireproof { target: u128 },
    Soundproof { resists: u128, tangled: u128, reductions: Seq<i64> },
    Shelled { batter: u128 },
    HitByPitch { target: u128, hbp_type: u8 },
    IncinerationWithChain { target: u128, replacement: PlayerView, chain: Option<u128> },
    PeckedFree { player: u128 },
    Zap { batter: bool },
}

impl View for Event {
    type V = EventView;

    open spec fn view(&self) -> EventView {
        match *self {
            Event::BatterUp { batter, reverberating } => EventView::BatterUp {
                batter,
                reverberating,
            },
            Event::InningSwitch { inning, top } => EventView::InningSwitch { inning, top },
            Event::GameOver => EventView::GameOver,
            Event::Ball => EventView::Ball,
            Event::Strike => EventView::Strike,
            Event::Foul => EventView::Foul,
            Event::Strikeout => EventView::Strikeout,
            Event::Walk => EventView::Walk,
            Event::HomeRun => EventView::HomeRun,
            Event::BaseHit { bases, runners_after } => EventView::BaseHit {
                bases,
                runners_after: runners_after@,
            },
            Event::GroundOut { fielder, runners_after } => EventView::GroundOut {
                fielder,
                runners_after: runners_after@,
            },
            Event::Flyout { fielder, runners_after } => EventView::Flyout {
                fielder,
                runners_after: runners_after@,
            },
            Event::DoublePlay { runners_after } => EventView::DoublePlay {
                runners_after: runners_after@,
            },
            Event::FieldersChoice { runners_after } => EventView::FieldersChoice {
                runners_after: runners_after@,
            },
            Event::BaseSteal { runner, base_from, base_to } => EventView::BaseSteal {
                runner,
                base_from,
                base_to,
            },
            Event::CaughtStealing { runner, base_from } => EventView::CaughtStealing {
                runner,
                base_from,
            },
            Event::Incineration { target, replacement } => EventView::Incineration {
                target,
                replacement: replacement@,
            },
            Event::Peanut { target, yummy } => EventView::Peanut { target, yummy },
            Event::Birds => EventView::Birds,
            Event::Feedback { target1, target2 } => EventView::Feedback { target1, target2 },
            Event::Reverb { reverb_type, team, changes } => EventView::Reverb {
                reverb_type,
                team,
                changes: changes@,
            },
            Event::Blooddrain { drainer, target, stat, siphon, siphon_effect } => EventView::Blooddrain {
                drainer,
                target,
                stat,
                siphon,
                siphon_effect,
            },
            Event::Sun2 { home_team } => EventView::Sun2 { home_team },
            Event::BlackHole { home_team } => EventView::BlackHole { home_team },
            Event::Salmon { home_runs_lost, away_runs_lost } => EventView::Salmon {
                home_runs_lost,
                away_runs_lost,
            },
            Event::PolaritySwitch => EventView::PolaritySwitch,
            Event::NightShift { batter, replacement, replacement_idx, boosts } => EventView::NightShift {
                batter,
                replacement,
                replacement_idx,
                boosts: boosts@,
            },
            Event::Fireproof { target } => EventView::Fireproof { target },
            Event::Soundproof { resists, tangled, reductions } => EventView::Soundproof {
                resists,
                tangled,
                reductions: reductions@,
            },
            Event::Shelled { batter } => EventView::Shelled { batter },
            Event::HitByPitch { target, hbp_type } => EventView::HitByPitch { target, hbp_type },
            Event::IncinerationWithChain { target, replacement, chain } => EventView::IncinerationWithChain {
                target,
                replacement: replacement@,
                chain,
            },
            Event::PeckedFree { player } => EventView::PeckedFree { player },
            Event::Zap { batter } => EventView::Zap { batter },
        }
    }
}

impl Clone for Event {
    fn clone(&self) -> (r: Event)
        ensures
            r@ == self@,
    {
        match self {
            Event::BatterUp { batter, reverberating } => Event::BatterUp {
                batter: *batter,
                reverberating: *reverberating,
            },
            Event::InningSwitch { inning, top } => Event::InningSwitch {
                inning: *inning,
                top: *top,
            },
            Event::GameOver => Event::GameOver,
            Event::Ball => Event::Ball,
            Event::Strike => Event::Strike,
            Event::Foul => Event::Foul,
            Event::Strikeout => Event::Strikeout,
            Event::Walk => Event::Walk,
            Event::HomeRun => Event::HomeRun,
            Event::BaseHit { bases, runners_after } => Event::BaseHit {
                bases: *bases,
                runners_after: runners_after.clone(),
            },
            Event::GroundOut { fielder, runners_after } => Event::GroundOut {
                fielder: *fielder,
                runners_after: runners_after.clone(),
            },
            Event::Flyout { fielder, runners_after } => Event::Flyout {
                fielder: *fielder,
                runners_after: runners_after.clone(),
            },
            Event::DoublePlay { runners_after } => Event::DoublePlay {
                runners_after: runners_after.clone(),
            },
            Event::FieldersChoice { runners_after } => Event::FieldersChoice {
                runners_after: runners_after.clone(),
            },
            Event::BaseSteal { runner, base_from, base_to } => Event::BaseSteal {
                runner: *runner,
                base_from: *base_from,
                base_to: *base_to,
            },
            Event::CaughtStealing { runner, base_from } => Event::CaughtStealing {
                runner: *runner,
                base_from: *base_from,
            },
            Event::Incineration { target, replacement } => Event::Incineration {
                target: *target,
                replacement: replacement.clone(),
            },
            Event::Peanut { target, yummy } => Event::Peanut { target: *target, yummy: *yummy },
            Event::Birds => Event::Birds,
            Event::Feedback { target1, target2 } => Event::Feedback {
                target1: *target1,
                target2: *target2,
            },
            Event::Reverb { reverb_type, team, changes } => Event::Reverb {
                reverb_type: *reverb_type,
                team: *team,
                changes: changes.clone(),
            },
            Event::Blooddrain { drainer, target, stat, siphon, siphon_effect } => Event::Blooddrain {
                drainer: *drainer,
                target: *target,
                stat: *stat,
                siphon: *siphon,
                siphon_effect: *siphon_effect,
            },
            Event::Sun2 { home_team } => Event::Sun2 { home_team: *home_team },
            Event::BlackHole { home_team } => Event::BlackHole { home_team: *home_team },
            Event::Salmon { home_runs_lost, away_runs_lost } => Event::Salmon {
                home_runs_lost: *home_runs_lost,
                away_runs_lost: *away_runs_lost,
            },
            Event::PolaritySwitch => Event::PolaritySwitch,
            Event::NightShift { batter, replacement, replacement_idx, boosts } => Event::NightShift {
                batter: *batter,
                replacement: *replacement,
                replacement_idx: *replacement_idx,
                boosts: boosts.clone(),
            },
            Event::Fireproof { target } => Event::Fireproof { target: *target },
            Event::Soundproof { resists, tangled, reductions } => Event::Soundproof {
                resists: *resists,
                tangled: *tangled,
                reductions: reductions.clone(),
            },
            Event::Shelled { batter } => Event::Shelled { batter: *batter },
            Event::HitByPitch { target, hbp_type } => Event::HitByPitch {
                target: *target,
                hbp_type: *hbp_type,
            },
            Event::IncinerationWithChain { target, replacement, chain } => Event::IncinerationWithChain {
                target: *target,
                replacement: replacement.clone(),
                chain: *chain,
            },
            Event::PeckedFree { player } => Event::PeckedFree { player: *player },
            Event::Zap { batter } => Event::Zap { batter: *batter },
        }
    }
}

/// Whether the event `r`, if any, is the event `v`, if any.
pub open spec fn same_event(r: Option<Event>, v: Option<EventView>) -> bool {
    match r {
        Some(e) => v == Some(e@),
        None => v is None,
    }
}

/// The tag under which an event is written to the feeds.
pub open spec fn tag_of(ev: EventView) -> Seq<char> {
    match ev {
        EventView::BatterUp { .. } => "batterUp"@,
        EventView::InningSwitch { .. } => "inningSwitch"@,
        EventView::GameOver => "gameOver"@,
        EventView::Ball => "ball"@,
        EventView::Strike => "strike"@,
        EventView::Foul => "foul"@,
        EventView::Strikeout => "strikeOut"@,
        EventView::Walk => "walk"@,
        EventView::HomeRun => "homeRun"@,
        EventView::BaseHit { .. } => "baseHit"@,
        EventView::GroundOut { .. } => "groundOut"@,
        EventView::Flyout { .. } => "flyout"@,
        EventView::DoublePlay { .. } => "doublePlay"@,
        EventView::FieldersChoice { .. } => "fieldersChoice"@,
        EventView::BaseSteal { .. } => "baseSteal"@,
        EventView::CaughtStealing { .. } => "caughtStealing"@,
        EventView::Incineration { .. } => "incineration"@,
        EventView::Peanut { .. } => "peanut"@,
        EventView::Birds => "birds"@,
        EventView::Feedback { .. } => "feedback"@,
        EventView::Reverb { .. } => "reverb"@,
        EventView::Blooddrain { .. } => "blooddrain"@,
        EventView::Sun2 { .. } => "sun2"@,
        EventView::BlackHole { .. } => "blackHole"@,
        EventView::Salmon { .. } => "salmon"@,
        EventView::PolaritySwitch => "polaritySwitch"@,
        EventView::NightShift { .. } => "nightShift"@,
        EventView::Fireproof { .. } => "fireproof"@,
        EventView::Soundproof { .. } => "soundproof"@,
        EventView::Shelled { .. } => "shelled"@,
        EventView::HitByPitch { .. } => "hitByPitch"@,
        EventView::IncinerationWithChain { .. } => "incinerationWithChain"@,
        EventView::PeckedFree { .. } => "peckedFree"@,
        EventView::Zap { .. } => "zap"@,
    }
}

/// The tags of the two kinds of hit.
pub open spec fn hit_tags() -> Seq<Seq<char>> {
    seq!["baseHit"@, "homeRun"@]
}

/// The boost of a fifth of the attribute range that a peanut gives or
/// takes.
pub const PEANUT_BOOST: i64 = 18_014_398_509_481_984;

/// The boost of a tenth of the attribute range that a blooddrain moves.
pub const DRAIN_BOOST: i64 = 9_007_199_254_740_992;

/// The world `w` with `tag` appended to the feed of the player `id`.
pub open spec fn fed(w: WorldView, id: u128, tag: Seq<char>) -> WorldView {
    WorldView {
        players: w.players.insert(
            id,
            PlayerView { feed: w.players[id].feed.push(tag), ..w.players[id] },
        ),
        ..w
    }
}

/// The world `w` with other badges `mods` on the player `id`.
pub open spec fn with_mods(w: WorldView, id: u128, mods: Seq<ModWithLifetime>) -> WorldView {
    WorldView {
        players: w.players.insert(id, PlayerView { mods, ..w.players[id] }),
        ..w
    }
}

/// The world `w` with the boosts applied to the player `id`.
pub open spec fn with_boost(w: WorldView, id: u128, boosts: Seq<i64>) -> WorldView {
    WorldView {
        players: w.players.insert(
            id,
            PlayerView { attrs: boosted(w.players[id].attrs, boosts), ..w.players[id] },
        ),
        ..w
    }
}

/// A badge with the lifetime of a week.
pub open spec fn weekly(m: Mod) -> ModWithLifetime {
    ModWithLifetime { lifetime: ModLifetime::Week, the_mod: m }
}

/// A badge that lasts.
pub open spec fn permanent(m: Mod) -> ModWithLifetime {
    ModWithLifetime { lifetime: ModLifetime::Permanent, the_mod: m }
}

/// The badges of a batter after a hit, given the batter's feed with the hit
/// in it.  A spicy batter heats up with the first hit of a run of hits; a
/// batter who is heating up turns red hot.
pub open spec fn spiced_up(mods: Seq<ModWithLifetime>, feed: Seq<Seq<char>>) -> Seq<ModWithLifetime> {
    if seq_has_mod(mods, Mod::Spicy) && feed_streak(feed, hit_tags(), -1, 0) == 1 {
        with_entry(mods, permanent(Mod::HeatingUp))
    } else if seq_has_mod(mods, Mod::HeatingUp) {
        with_entry(without_mod(mods, Mod::HeatingUp), permanent(Mod::RedHot))
    } else {
        mods
    }
}

/// The badges of a batter after an out in play: a red hot batter is back
/// to heating up, and a batter who was heating up is not any more.
pub open spec fn cooled_down(mods: Seq<ModWithLifetime>) -> Seq<ModWithLifetime> {
    if seq_has_mod(mods, Mod::RedHot) {
        with_entry(without_mod(mods, Mod::RedHot), permanent(Mod::HeatingUp))
    } else if seq_has_mod(mods, Mod::HeatingUp) {
        without_mod(mods, Mod::HeatingUp)
    } else {
        mods
    }
}

/// The game and the world after the runs of the runners who reached home
/// were credited and those runners left the bases.
pub open spec fn swept(g: GameView, w: WorldView) -> (GameView, WorldView) {
    (after_sweep(after_score(g, w).0), after_score(g, w).1)
}

/// The game `g` with other runners.
pub open spec fn with_runners(g: GameView, runners: Seq<Baserunner>) -> GameView {
    GameView { runners, ..g }
}

/// The game `g` with `n` more outs.
pub open spec fn with_outs(g: GameView, n: int) -> GameView {
    GameView { outs: (g.outs + n) as i16, ..g }
}

/// The game `g` with `delta` added to the score of the home team or of
/// the away team.
pub open spec fn with_score(g: GameView, home: bool, delta: int) -> GameView {
    if home {
        GameView {
            scoreboard: crate::game::Scoreboard {
                home_team: GameTeam {
                    score: clamped_sum(g.scoreboard.home_team.score as int, delta),
                    ..g.scoreboard.home_team
                },
                ..g.scoreboard
            },
            ..g
        }
    } else {
        GameView {
            scoreboard: crate::game::Scoreboard {
                away_team: GameTeam {
                    score: clamped_sum(g.scoreboard.away_team.score as int, delta),
                    ..g.scoreboard.away_team
                },
                ..g.scoreboard
            },
            ..g
        }
    }
}

/// Whether the world knows every runner of `runners`.
pub open spec fn runners_known(runners: Seq<Baserunner>, w: WorldView) -> bool {
    forall|i: int| 0 <= i < runners.len() ==> w.players.contains_key((#[trigger] runners[i]).id)
}

/// The boosts that a blooddrain of the group `stat` gives, each of the
/// size `amount`: to the pitching attributes for group 0, the batting
/// attributes for group 1, the defense attributes for group 2 and the
/// baserunning attributes for group 3.
pub open spec fn drain_boosts(stat: u8, amount: i64) -> Seq<i64> {
    Seq::new(
        26,
        |a: int|
            if (stat == 0 && 8 <= a < 14) || (stat == 1 && 0 <= a < 8) || (stat == 2 && 19 <= a
                < 24) || (stat == 3 && 14 <= a < 19) {
                amount
            } else {
                0
            },
    )
}

/// The game after a plate appearance that ends with the batter on base or
/// out: the runners are swept and the plate appearance is over.
pub open spec fn closed_pa(g: GameView, w: WorldView) -> (GameView, WorldView) {
    (after_pa(swept(g, w).0), swept(g, w).1)
}

/// What has to hold of a game and a world for a sweep of the runners
/// `runners` at the end of a plate appearance.
pub open spec fn can_close_pa(g: GameView, w: WorldView, runners: Seq<Baserunner>) -> bool {
    &&& runners_known(runners, w)
    &&& g.scoring_plays_inning < u8::MAX
    &&& g.base_number >= 1
    &&& g.scoreboard.batting().batter_index < usize::MAX
}

/// `s` without its first runner on `base`.
pub open spec fn removed_first(s: Seq<Baserunner>, base: int) -> Seq<Baserunner> {
    if first_on(s, base) < s.len() {
        s.remove(first_on(s, base))
    } else {
        s
    }
}

/// The linescore `line` after the runs of a half-inning that ended with
/// the score `score` were written to it.
pub open spec fn closed_line(line: Seq<i64>, score: i64) -> Seq<i64> {
    let runs = clamped_sum(score as int, -(line[0] as int));
    line.push(runs).update(0, clamped_sum(line[0] as int, runs as int))
}

/// The game `g` after the switch to the half-inning `inning`, `top`.
/// Under salmon weather the runs of the half that ends are written to the
/// linescore of the team that batted.
pub open spec fn after_switch(g: GameView, w: WorldView, inning: i16, top: bool) -> GameView {
    let salmon = g.weather == Weather::Salmon;
    let batting_next = if top {
        g.scoreboard.away_team.id
    } else {
        g.scoreboard.home_team.id
    };
    GameView {
        inning,
        scoreboard: crate::game::Scoreboard { top, ..g.scoreboard },
        outs: 0,
        balls: 0,
        strikes: 0,
        scoring_plays_inning: 0,
        runners: Seq::empty(),
        base_number: team_bases(w.teams[batting_next]),
        linescore_away: if salmon && g.scoreboard.top {
            closed_line(g.linescore_away, g.scoreboard.away_team.score)
        } else {
            g.linescore_away
        },
        linescore_home: if salmon && !g.scoreboard.top {
            closed_line(g.linescore_home, g.scoreboard.home_team.score)
        } else {
            g.linescore_home
        },
        ..g
    }
}

/// The game `g` with the batter `batter` at the plate.
pub open spec fn with_batter(g: GameView, batter: Option<u128>) -> GameView {
    GameView {
        scoreboard: g.scoreboard.with_batting(GameTeam { batter, ..g.scoreboard.batting() }),
        ..g
    }
}

/// The game `g` with the pitcher `pitcher` on the mound.
pub open spec fn with_pitcher(g: GameView, pitcher: u128) -> GameView {
    GameView {
        scoreboard: g.scoreboard.with_fielding(GameTeam { pitcher, ..g.scoreboard.fielding() }),
        ..g
    }
}

/// The world `w` with the replacement `r` put on the team of `target`
/// under a generated name.
pub open spec fn with_replacement(w: WorldView, target: u128, r: PlayerView) -> WorldView {
    WorldView {
        players: w.players.insert(
            r.id,
            PlayerView {
                name: generated_name(r.id),
                team: Some(w.players[target].team->0),
                ..r
            },
        ),
        ..w
    }
}

/// The game and the world after `target` was incinerated and `r` took the
/// place: on the team, and at the plate or on the mound if `target` stood
/// there.
pub open spec fn incinerated(g: GameView, w: WorldView, target: u128, r: PlayerView) -> (
    GameView,
    WorldView,
) {
    let g1 = if g.scoreboard.batting().batter == Some(target) {
        with_batter(g, Some(r.id))
    } else {
        g
    };
    let g2 = if g1.scoreboard.fielding().pitcher == target {
        with_pitcher(g1, r.id)
    } else {
        g1
    };
    (g2, world_with_replaced(with_replacement(w, target, r), target, r.id))
}

/// What has to hold for `incinerated`.
pub open spec fn can_incinerate(w: WorldView, target: u128, r: PlayerView) -> bool {
    let w1 = with_replacement(w, target, r);
    &&& w.players.contains_key(target)
    &&& w.players[target].team is Some
    &&& w1.players[target].team is Some
    &&& w1.teams.contains_key(w1.players[target].team->0)
    &&& team_lists(w1.teams[w1.players[target].team->0], target)
}

/// The game `g` after a feedback between `target1` and `target2`: if
/// there is a batter, `target2` bats in place of `target1` if `target1` is
/// the batter, and pitches if not.
pub open spec fn after_feedback(g: GameView, target1: u128, target2: u128) -> GameView {
    match g.scoreboard.batting().batter {
        Some(batter) => if batter == target1 {
            with_batter(g, Some(target2))
        } else {
            with_pitcher(g, target2)
        },
        None => g,
    }
}

/// The team `t` after the reverb.
pub open spec fn reverbed(t: TeamView, reverb_type: u8, changes: Seq<usize>) -> TeamView {
    let r = reverb_result(reverb_type, t.lineup, t.rotation, changes);
    TeamView { lineup: r.take(t.lineup.len() as int), rotation: r.skip(t.lineup.len() as int), ..t }
}

/// The game `g` after the team `team` was shuffled into `t` by a reverb:
/// if the team bats and its lineup was shuffled, the batter is the one on
/// whom the place in the lineup now falls; else, if its rotation was
/// shuffled, its pitcher is the first of the rotation.
pub open spec fn after_reverb(g: GameView, team: u128, reverb_type: u8, t: TeamView) -> GameView {
    let bt = g.scoreboard.batting();
    let ft = g.scoreboard.fielding();
    if bt.id == team && reverb_type != 3 {
        with_batter(g, Some(t.lineup[bt.batter_index as int % t.lineup.len() as int]))
    } else if ft.id == team && reverb_type != 2 {
        with_pitcher(g, t.rotation[0])
    } else if bt.id == team && reverb_type != 2 {
        GameView {
            scoreboard: g.scoreboard.with_batting(GameTeam { pitcher: t.rotation[0], ..bt }),
            ..g
        }
    } else {
        g
    }
}

/// What has to hold for a reverb of the team `team`.
pub open spec fn can_reverb(
    g: GameView,
    w: WorldView,
    team: u128,
    reverb_type: u8,
    changes: Seq<usize>,
) -> bool {
    let t = w.teams[team];
    let bt = g.scoreboard.batting();
    let ft = g.scoreboard.fielding();
    &&& w.teams.contains_key(team)
    &&& t.lineup.len() + t.rotation.len() <= usize::MAX
    &&& valid_changes(reverb_type, t.lineup.len() as int, t.rotation.len() as int, changes)
    &&& bt.id == team && reverb_type != 3 ==> t.lineup.len() > 0
    &&& (ft.id == team || bt.id == team) && !(bt.id == team && reverb_type != 3) && reverb_type
        != 2 ==> t.rotation.len() > 0
}

/// The game `g` after the salmon swam back: the runs of the newest
/// half-inning that was not yet taken back are taken from each team that
/// loses them, the game goes back to the top of an inning, and the count of
/// reversals goes up.
pub open spec fn after_salmon(g: GameView, home_runs_lost: bool, away_runs_lost: bool) -> GameView {
    let back = g.salmon_resets_inning as int;
    let g1 = if away_runs_lost {
        with_score(g, false, -(g.linescore_away[g.linescore_away.len() - 1 - back] as int))
    } else {
        g
    };
    let g2 = if home_runs_lost {
        with_score(g1, true, -(g.linescore_home[g.linescore_home.len() - 1 - back] as int))
    } else {
        g1
    };
    GameView {
        scoreboard: crate::game::Scoreboard { top: true, ..g2.scoreboard },
        inning: if g.scoreboard.top {
            (g.inning - 1) as i16
        } else {
            g.inning
        },
        salmon_resets_inning: (g.salmon_resets_inning + 1) as i16,
        ..g2
    }
}

/// What has to hold for `after_salmon`.
pub open spec fn can_salmon(g: GameView, home_runs_lost: bool, away_runs_lost: bool) -> bool {
    &&& 0 <= g.salmon_resets_inning < i16::MAX
    &&& away_runs_lost ==> g.salmon_resets_inning < g.linescore_away.len()
    &&& home_runs_lost ==> g.salmon_resets_inning < g.linescore_home.len()
    &&& g.scoreboard.top ==> g.inning > i16::MIN
}

/// The game and the world after a shadow came in by night: for the batter
/// if `batter` is set, else for the pitcher.  The two change places on
/// the team, and the one who comes in gets the boosts.
pub open spec fn after_night_shift(
    g: GameView,
    w: WorldView,
    batter: bool,
    replacement: u128,
    replacement_idx: int,
    boosts: Seq<i64>,
) -> (GameView, WorldView) {
    if batter {
        let bt = g.scoreboard.batting();
        let t = w.teams[bt.id];
        let t2 = TeamView {
            lineup: t.lineup.update(bt.batter_index as int % t.lineup.len() as int, replacement),
            shadows: t.shadows.update(replacement_idx, bt.batter->0),
            ..t
        };
        (
            with_batter(g, Some(replacement)),
            with_boost(WorldView { teams: w.teams.insert(bt.id, t2), ..w }, replacement, boosts),
        )
    } else {
        let ft = g.scoreboard.fielding();
        let t = w.teams[ft.id];
        let t2 = TeamView {
            rotation: t.rotation.update(0, replacement),
            shadows: t.shadows.update(replacement_idx, ft.pitcher),
            ..t
        };
        (
            with_pitcher(g, replacement),
            with_boost(WorldView { teams: w.teams.insert(ft.id, t2), ..w }, replacement, boosts),
        )
    }
}

/// What has to hold for `after_night_shift`.
pub open spec fn can_night_shift(
    g: GameView,
    w: WorldView,
    batter: bool,
    replacement: u128,
    replacement_idx: int,
    boosts: Seq<i64>,
) -> bool {
    let side = if batter {
        g.scoreboard.batting()
    } else {
        g.scoreboard.fielding()
    };
    &&& w.teams.contains_key(side.id)
    &&& w.players.contains_key(replacement)
    &&& boosts.len() >= 25
    &&& 0 <= replacement_idx < w.teams[side.id].shadows.len()
    &&& batter ==> side.batter is Some && w.teams[side.id].lineup.len() > 0
    &&& !batter ==> w.teams[side.id].rotation.len() > 0
}

/// The game and the world after the event `ev` was applied to the game `g0`
/// and the world `w`.
pub open spec fn after_event(ev: EventView, g0: GameView, w: WorldView) -> (GameView, WorldView) {
    let g = GameView { events: g0.events.push(tag_of(ev)), ..g0 };
    let bt = g.scoreboard.batting();
    let b = bt.batter->0;
    let wf = fed(w, b, tag_of(ev));
    let hot = with_mods(wf, b, spiced_up(wf.players[b].mods, wf.players[b].feed));
    let cool = with_mods(wf, b, cooled_down(wf.players[b].mods));
    match ev {
        EventView::BatterUp { batter, reverberating } => (
            GameView {
                scoreboard: g.scoreboard.with_batting(
                    GameTeam {
                        batter: Some(batter),
                        batter_index: if reverberating {
                            (bt.batter_index - 1) as usize
                        } else {
                            bt.batter_index
                        },
                        ..bt
                    },
                ),
                ..g
            },
            w,
        ),
        EventView::InningSwitch { inning, top } => (after_switch(g, w, inning, top), w),
        EventView::GameOver => (g, w),
        EventView::Ball => (GameView { balls: (g.balls + 1) as i16, ..g }, w),
        EventView::Strike => (GameView { strikes: (g.strikes + 1) as i16, ..g }, w),
        EventView::Foul => (
            GameView {
                strikes: if g.strikes + 1 < max_strikes(g, w) - 1 {
                    (g.strikes + 1) as i16
                } else {
                    (max_strikes(g, w) - 1) as i16
                },
                ..g
            },
            w,
        ),
        EventView::Strikeout => (after_pa(with_outs(g, 1)), wf),
        EventView::Walk => closed_pa(
            with_runners(g, walk_of(g.runners).push(Baserunner { id: b, base: 0 })),
            wf,
        ),
        EventView::HomeRun => {
            let g2 = with_runners(
                with_score(g, !g.scoreboard.top, run_value(g) as int),
                advance_each(g.runners, g.base_number as int),
            );
            let g3 = swept(g2, hot).0;
            let g4 = if g.runners.len() == 0 {
                GameView { scoring_plays_inning: (g3.scoring_plays_inning + 1) as u8, ..g3 }
            } else {
                g3
            };
            (after_pa(g4), swept(g2, hot).1)
        },
        EventView::BaseHit { bases, runners_after } => {
            let s = swept(with_runners(g, runners_after), hot);
            (
                after_pa(
                    with_runners(s.0, s.0.runners.push(Baserunner { id: b, base: (bases - 1) as u8 })),
                ),
                s.1,
            )
        },
        EventView::GroundOut { runners_after, .. } => closed_pa(
            with_runners(with_outs(g, 1), runners_after),
            cool,
        ),
        EventView::Flyout { runners_after, .. } => closed_pa(
            with_runners(with_outs(g, 1), runners_after),
            cool,
        ),
        EventView::DoublePlay { runners_after } => closed_pa(
            with_runners(with_outs(g, 2), runners_after),
            cool,
        ),
        EventView::FieldersChoice { runners_after } => closed_pa(
            with_runners(with_outs(g, 1), runners_after.push(Baserunner { id: b, base: 0 })),
            cool,
        ),
        EventView::BaseSteal { base_from, .. } => swept(
            with_runners(g, advance_first(g.runners, base_from as int)),
            w,
        ),
        EventView::CaughtStealing { base_from, .. } => (
            with_outs(with_runners(g, removed_first(g.runners, base_from as int)), 1),
            w,
        ),
        EventView::Incineration { target, replacement } => incinerated(g, w, target, replacement),
        EventView::Peanut { target, yummy } => (
            g,
            with_boost(
                w,
                target,
                Seq::new(
                    26,
                    |a: int|
                        if yummy {
                            PEANUT_BOOST
                        } else {
                            (-PEANUT_BOOST) as i64
                        },
                ),
            ),
        ),
        EventView::Birds => (g, w),
        EventView::Feedback { target1, target2 } => (
            after_feedback(g, target1, target2),
            world_with_swapped(w, target1, target2),
        ),
        EventView::Reverb { reverb_type, team, changes } => {
            let t = reverbed(w.teams[team], reverb_type, changes);
            (after_reverb(g, team, reverb_type, t), WorldView { teams: w.teams.insert(team, t), ..w })
        },
        EventView::Blooddrain { drainer, target, stat, .. } => (
            g,
            with_boost(
                with_boost(w, drainer, drain_boosts(stat, DRAIN_BOOST)),
                target,
                drain_boosts(stat, (-DRAIN_BOOST) as i64),
            ),
        ),
        EventView::Sun2 { home_team } => (with_score(g, home_team, -100), w),
        EventView::BlackHole { home_team } => (with_score(g, home_team, -100), w),
        EventView::Salmon { home_runs_lost, away_runs_lost } => (
            after_salmon(g, home_runs_lost, away_runs_lost),
            w,
        ),
        EventView::PolaritySwitch => (GameView { polarity: !g.polarity, ..g }, w),
        EventView::NightShift { batter, replacement, replacement_idx, boosts } => after_night_shift(
            g,
            w,
            batter,
            replacement,
            replacement_idx as int,
            boosts,
        ),
        EventView::Fireproof { .. } => (g, w),
        EventView::Soundproof { tangled, reductions, .. } => (g, with_boost(w, tangled, reductions)),
        EventView::Shelled { .. } => (
            GameView {
                scoreboard: g.scoreboard.with_batting(
                    GameTeam { batter_index: (bt.batter_index + 1) as usize, ..bt },
                ),
                ..g
            },
            w,
        ),
        EventView::HitByPitch { target, hbp_type } => closed_pa(
            with_runners(g, walk_of(g.runners).push(Baserunner { id: b, base: 0 })),
            with_mods(
                w,
                target,
                with_entry(
                    w.players[target].mods,
                    weekly(
                        if hbp_type == 0 {
                            Mod::Unstable
                        } else {
                            Mod::Flickering
                        },
                    ),
                ),
            ),
        ),
        EventView::IncinerationWithChain { target, replacement, chain } => {
            let i = incinerated(g, w, target, replacement);
            (
                i.0,
                match chain {
                    Some(c) => with_mods(
                        i.1,
                        c,
                        with_entry(i.1.players[c].mods, weekly(Mod::Unstable)),
                    ),
                    None => i.1,
                },
            )
        },
        EventView::PeckedFree { player } => (
            g,
            with_mods(
                w,
                player,
                with_entry(
                    without_mod(w.players[player].mods, Mod::Shelled),
                    permanent(Mod::Superallergic),
                ),
            ),
        ),
        EventView::Zap { batter } => (
            if batter {
                GameView { strikes: (g.strikes - 1) as i16, ..g }
            } else {
                GameView { balls: (g.balls - 1) as i16, ..g }
            },
            w,
        ),
    }
}

/// Whether the event `ev` can be applied to the game `g` and the world
/// `w`: the players and teams that it touches are known, the lists that it
/// reads are long enough, and no counter is at the end of its range.
pub open spec fn can_apply(ev: EventView, g: GameView, w: WorldView) -> bool {
    let bt = g.scoreboard.batting();
    let b = bt.batter->0;
    match ev {
        EventView::BatterUp { reverberating, .. } => reverberating ==> bt.batter_index > 0,
        EventView::InningSwitch { top, .. } => {
            &&& w.teams.contains_key(
                if top {
                    g.scoreboard.away_team.id
                } else {
                    g.scoreboard.home_team.id
                },
            )
            &&& g.weather == Weather::Salmon ==> if g.scoreboard.top {
                g.linescore_away.len() > 0
            } else {
                g.linescore_home.len() > 0
            }
        },
        EventView::GameOver => true,
        EventView::Ball => g.balls < i16::MAX,
        EventView::Strike => g.strikes < i16::MAX,
        EventView::Foul => g.strikes < i16::MAX && batter_known(g, w),
        EventView::Strikeout => batter_known(g, w) && g.outs < i16::MAX && bt.batter_index
            < usize::MAX,
        EventView::Walk => batter_known(g, w) && can_close_pa(g, w, g.runners),
        EventView::HomeRun => {
            &&& batter_known(g, w)
            &&& can_close_pa(g, w, g.runners)
            &&& bases_below(g.runners, 256 - g.base_number)
        },
        EventView::BaseHit { bases, runners_after } => {
            &&& batter_known(g, w)
            &&& can_close_pa(g, w, runners_after)
            &&& bases >= 1
        },
        EventView::GroundOut { runners_after, .. } => {
            &&& batter_known(g, w)
            &&& can_close_pa(g, w, runners_after)
            &&& g.outs < i16::MAX
        },
        EventView::Flyout { runners_after, .. } => {
            &&& batter_known(g, w)
            &&& can_close_pa(g, w, runners_after)
            &&& g.outs < i16::MAX
        },
        EventView::DoublePlay { runners_after } => {
            &&& batter_known(g, w)
            &&& can_close_pa(g, w, runners_after)
            &&& g.outs < i16::MAX - 1
        },
        EventView::FieldersChoice { runners_after } => {
            &&& batter_known(g, w)
            &&& can_close_pa(g, w, runners_after)
            &&& g.outs < i16::MAX
        },
        EventView::BaseSteal { base_from, .. } => {
            &&& base_from < u8::MAX
            &&& runners_known(g.runners, w)
            &&& g.scoring_plays_inning < u8::MAX
            &&& g.base_number >= 1
        },
        EventView::CaughtStealing { .. } => g.outs < i16::MAX,
        EventView::Incineration { target, replacement } => can_incinerate(w, target, replacement),
        EventView::Peanut { target, .. } => w.players.contains_key(target),
        EventView::Birds => true,
        EventView::Feedback { target1, target2 } => can_swap(w, target1, target2),
        EventView::Reverb { reverb_type, team, changes } => can_reverb(
            g,
            w,
            team,
            reverb_type,
            changes,
        ),
        EventView::Blooddrain { drainer, target, .. } => w.players.contains_key(drainer)
            && w.players.contains_key(target),
        EventView::Sun2 { .. } => true,
        EventView::BlackHole { .. } => true,
        EventView::Salmon { home_runs_lost, away_runs_lost } => can_salmon(
            g,
            home_runs_lost,
            away_runs_lost,
        ),
        EventView::PolaritySwitch => true,
        EventView::NightShift { batter, replacement, replacement_idx, boosts } => can_night_shift(
            g,
            w,
            batter,
            replacement,
            replacement_idx as int,
            boosts,
        ),
        EventView::Fireproof { .. } => true,
        EventView::Soundproof { tangled, reductions, .. } => w.players.contains_key(tangled)
            && reductions.len() >= 25,
        EventView::Shelled { .. } => bt.batter_index < usize::MAX,
        EventView::HitByPitch { target, hbp_type } => {
            &&& hbp_type <= 1
            &&& w.players.contains_key(target)
            &&& bt.batter is Some
            &&& w.players.contains_key(b)
            &&& can_close_pa(g, w, g.runners)
        },
        EventView::IncinerationWithChain { target, replacement, chain } => {
            &&& can_incinerate(w, target, replacement)
            &&& chain matches Some(c) ==> w.players.contains_key(c)
        },
        EventView::PeckedFree { player } => w.players.contains_key(player),
        EventView::Zap { batter } => if batter {
            g.strikes > i16::MIN
        } else {
            g.balls > i16::MIN
        },
    }
}

/// Appends `tag` to the feed of the batter.
fn feed_batter(game: &Game, world: &mut World, tag: &String)
    requires
        batter_known(game@, old(world)@),
    ensures
        final(world)@ == fed(old(world)@, game@.scoreboard.batting().batter->0, tag@),
{
    let b = game.scoreboard.batting_team().batter.unwrap();
    world.player_mut(b).feed.add(tag.clone());
}

/// Heats the batter up after a hit.
fn upgrade_spicy(game: &Game, world: &mut World)
    requires
        batter_known(game@, old(world)@),
    ensures
        final(world)@ == ({
            let b = game@.scoreboard.batting().batter->0;
            let p = old(world)@.players[b];
            with_mods(old(world)@, b, spiced_up(p.mods, p.feed))
        }),
{
    let b = game.scoreboard.batting_team().batter.unwrap();
    let batter = world.player_mut(b);
    let mut hits: Vec<String> = Vec::new();
    hits.push(String::from_str("baseHit"));
    hits.push(String::from_str("homeRun"));
    assert(tags_of(hits@) =~= hit_tags());
    if batter.mods.has(Mod::Spicy) && batter.feed.streak_multiple(hits, -1) == 1 {
        batter.mods.add(Mod::HeatingUp, ModLifetime::Permanent);
    } else if batter.mods.has(Mod::HeatingUp) {
        batter.mods.remove(Mod::HeatingUp);
        batter.mods.add(Mod::RedHot, ModLifetime::Permanent);
    } else {
        assert(old(world)@.players.insert(b, batter@) =~= old(world)@.players);
    }
}

/// Cools the batter down after an out in play.
fn downgrade_spicy(game: &Game, world: &mut World)
    requires
        batter_known(game@, old(world)@),
    ensures
        final(world)@ == ({
            let b = game@.scoreboard.batting().batter->0;
            with_mods(old(world)@, b, cooled_down(old(world)@.players[b].mods))
        }),
{
    let b = game.scoreboard.batting_team().batter.unwrap();
    let batter = world.player_mut(b);
    if batter.mods.has(Mod::RedHot) {
        batter.mods.remove(Mod::RedHot);
        batter.mods.add(Mod::HeatingUp, ModLifetime::Permanent);
    } else if batter.mods.has(Mod::HeatingUp) {
        batter.mods.remove(Mod::HeatingUp);
    } else {
        assert(old(world)@.players.insert(b, batter@) =~= old(world)@.players);
    }
}

/// Sweeps the runners and ends the plate appearance.
fn close_pa(game: &mut Game, world: &mut World)
    requires
        can_close_pa(old(game)@, old(world)@, old(game)@.runners),
    ensures
        (final(game)@, final(world)@) == closed_pa(old(game)@, old(world)@),
{
    game.base_sweep(world);
    game.end_pa();
}

/// A list of 26 boosts of the size `amount` for the attributes of the
/// group `stat` of a blooddrain, and of 0 for the others.
fn drain_list(stat: u8, amount: i64) -> (v: Vec<i64>)
    ensures
        v@ == drain_boosts(stat, amount),
{
    let mut v: Vec<i64> = Vec::new();
    let mut a: usize = 0;
    while a < 26
        invariant
            a <= 26,
            v@.len() == a,
            forall|k: int| 0 <= k < a ==> v@[k] == drain_boosts(stat, amount)[k],
        decreases 26 - a,
    {
        let hit = (stat == 0 && 8 <= a && a < 14) || (stat == 1 && a < 8) || (stat == 2 && 19 <= a
            && a < 24) || (stat == 3 && 14 <= a && a < 19);
        v.push(if hit {
            amount
        } else {
            0
        });
        a += 1;
    }
    assert(v@ =~= drain_boosts(stat, amount));
    v
}

/// Adds `delta` to a score, within the range of the representation.
fn add_to_score(score: i64, delta: i64) -> (r: i64)
    ensures
        r == clamped_sum(score as int, delta as int),
{
    crate::entities::add_clamped(score, delta, false)
}

impl Game {
    /// Switches to the half-inning `inning`, `top`.
    fn switch_inning(&mut self, world: &World, inning: i16, top: bool)
        requires
            can_apply(EventView::InningSwitch { inning, top }, old(self)@, world@),
        ensures
            final(self)@ == after_switch(old(self)@, world@, inning, top),
    {
        match self.weather {
            Weather::Salmon => {
                if self.scoreboard.top {
                    let runs = crate::entities::add_clamped(
                        self.scoreboard.away_team.score,
                        self.linescore_away[0],
                        true,
                    );
                    self.linescore_away.push(runs);
                    let total = add_to_score(self.linescore_away[0], runs);
                    self.linescore_away.set(0, total);
                } else {
                    let runs = crate::entities::add_clamped(
                        self.scoreboard.home_team.score,
                        self.linescore_home[0],
                        true,
                    );
                    self.linescore_home.push(runs);
                    let total = add_to_score(self.linescore_home[0], runs);
                    self.linescore_home.set(0, total);
                }
            },
            _ => {},
        }
        self.inning = inning;
        self.scoreboard.top = top;
        self.outs = 0;
        self.balls = 0;
        self.strikes = 0;
        self.scoring_plays_inning = 0;
        self.runners = Baserunners::new(self.get_bases(world));
    }

    /// Takes back the runs of a half-inning and goes back to the top of an
    /// inning.
    fn swim_back(&mut self, home_runs_lost: bool, away_runs_lost: bool)
        requires
            can_salmon(old(self)@, home_runs_lost, away_runs_lost),
        ensures
            final(self)@ == after_salmon(old(self)@, home_runs_lost, away_runs_lost),
    {
        let back = self.salmon_resets_inning as usize;
        if away_runs_lost {
            let lost = self.linescore_away[self.linescore_away.len() - 1 - back];
            self.scoreboard.away_team.score = crate::entities::add_clamped(
                self.scoreboard.away_team.score,
                lost,
                true,
            );
        }
        if home_runs_lost {
            let lost = self.linescore_home[self.linescore_home.len() - 1 - back];
            self.scoreboard.home_team.score = crate::entities::add_clamped(
                self.scoreboard.home_team.score,
                lost,
                true,
            );
        }
        if !self.scoreboard.top {
            self.scoreboard.top = true;
        } else {
            self.inning -= 1;
        }
        self.salmon_resets_inning += 1;
    }
}

/// Puts the replacement in the place of the incinerated `target`.
fn incinerate(game: &mut Game, world: &mut World, target: u128, replacement: &Player)
    requires
        can_incinerate(old(world)@, target, replacement@),
    ensures
        (final(game)@, final(world)@) == incinerated(
            old(game)@,
            old(world)@,
            target,
            replacement@,
        ),
{
    let team = world.player(target).team.unwrap();
    let replacement_id = world.add_rolled_player(replacement.clone(), team);
    if game.scoreboard.batting_team().batter == Some(target) {
        game.scoreboard.batting_team_mut().batter = Some(replacement_id);
    }
    if game.scoreboard.pitching_team().pitcher == target {
        game.scoreboard.pitching_team_mut().pitcher = replacement_id;
    }
    world.replace_player(target, replacement_id);
}

/// Lets a shadow come in for the batter or the pitcher.
fn night_shift(
    game: &mut Game,
    world: &mut World,
    batter: bool,
    replacement: u128,
    replacement_idx: usize,
    boosts: &Vec<i64>,
)
    requires
        can_night_shift(
            old(game)@,
            old(world)@,
            batter,
            replacement,
            replacement_idx as int,
            boosts@,
        ),
    ensures
        (final(game)@, final(world)@) == after_night_shift(
            old(game)@,
            old(world)@,
            batter,
            replacement,
            replacement_idx as int,
            boosts@,
        ),
{
    if batter {
        let side = *game.scoreboard.batting_team();
        let active_batter = side.batter.unwrap();
        let team = world.team_mut(side.id);
        let order = side.batter_index % team.lineup.len();
        team.lineup.set(order, replacement);
        team.shadows.set(replacement_idx, active_batter);
        world.player_mut(replacement).boost(boosts);
        game.scoreboard.batting_team_mut().batter = Some(replacement);
    } else {
        let side = *game.scoreboard.pitching_team();
        let team = world.team_mut(side.id);
        team.rotation.set(0, replacement);
        team.shadows.set(replacement_idx, side.pitcher);
        world.player_mut(replacement).boost(boosts);
        game.scoreboard.pitching_team_mut().pitcher = replacement;
    }
}

/// Shuffles a team and sends whoever now stands in the place of the
/// batter or the pitcher to the plate or the mound.
fn reverb(game: &mut Game, world: &mut World, reverb_type: u8, team: u128, changes: &Vec<usize>)
    requires
        can_reverb(old(game)@, old(world)@, team, reverb_type, changes@),
    ensures
        final(world)@ == (WorldView {
            teams: old(world)@.teams.insert(
                team,
                reverbed(old(world)@.teams[team], reverb_type, changes@),
            ),
            ..old(world)@
        }),
        final(game)@ == after_reverb(
            old(game)@,
            team,
            reverb_type,
            reverbed(old(world)@.teams[team], reverb_type, changes@),
        ),
{
    world.team_mut(team).apply_reverb_changes(reverb_type, changes);
    let world_team = world.team(team);
    if game.scoreboard.batting_team().id == team && reverb_type != 3 {
        let idx = game.scoreboard.batting_team().batter_index;
        let new_batter = world_team.lineup[idx % world_team.lineup.len()];
        game.scoreboard.batting_team_mut().batter = Some(new_batter);
    } else if game.scoreboard.pitching_team().id == team && reverb_type != 2 {
        game.scoreboard.pitching_team_mut().pitcher = world_team.rotation[0];
    } else if game.scoreboard.batting_team().id == team && reverb_type != 2 {
        game.scoreboard.batting_team_mut().pitcher = world_team.rotation[0];
    }
}

/// A list of 26 boosts of the size `amount`.
fn even_boosts(amount: i64) -> (v: Vec<i64>)
    ensures
        v@ == Seq::new(26, |a: int| amount),
{
    let mut v: Vec<i64> = Vec::new();
    let mut a: usize = 0;
    while a < 26
        invariant
            a <= 26,
            v@.len() == a,
            forall|k: int| 0 <= k < a ==> v@[k] == amount,
        decreases 26 - a,
    {
        v.push(amount);
        a += 1;
    }
    assert(v@ =~= Seq::new(26, |a: int| amount));
    v
}

impl Event {
    /// The tag under which the event is written to the feeds.
    pub fn repr(&self) -> (r: String)
        ensures
            r@ == tag_of(self@),
    {
        let ev = match self {
            Event::BatterUp { .. } => "batterUp",
            Event::InningSwitch { .. } => "inningSwitch",
            Event::GameOver => "gameOver",
            Event::Ball => "ball",
            Event::Strike => "strike",
            Event::Foul => "foul",
            Event::Strikeout => "strikeOut",
            Event::Walk => "walk",
            Event::HomeRun => "homeRun",
            Event::BaseHit { .. } => "baseHit",
            Event::GroundOut { .. } => "groundOut",
            Event::Flyout { .. } => "flyout",
            Event::DoublePlay { .. } => "doublePlay",
            Event::FieldersChoice { .. } => "fieldersChoice",
            Event::BaseSteal { .. } => "baseSteal",
            Event::CaughtStealing { .. } => "caughtStealing",
            Event::Incineration { .. } => "incineration",
            Event::Peanut { .. } => "peanut",
            Event::Birds => "birds",
            Event::Feedback { .. } => "feedback",
            Event::Reverb { .. } => "reverb",
            Event::Blooddrain { .. } => "blooddrain",
            Event::Sun2 { .. } => "sun2",
            Event::BlackHole { .. } => "blackHole",
            Event::Salmon { .. } => "salmon",
            Event::PolaritySwitch => "polaritySwitch",
            Event::NightShift { .. } => "nightShift",
            Event::Fireproof { .. } => "fireproof",
            Event::Soundproof { .. } => "soundproof",
            Event::Shelled { .. } => "shelled",
            Event::HitByPitch { .. } => "hitByPitch",
            Event::IncinerationWithChain { .. } => "incinerationWithChain",
            Event::PeckedFree { .. } => "peckedFree",
            Event::Zap { .. } => "zap",
        };
        String::from_str(ev)
    }

    /// Whether the event is one of the count, the inning or the score.
    pub open spec fn is_count_event(&self) -> bool {
        !self.is_plate_event() && !self.is_world_event()
    }

    /// Whether the event ends a plate appearance.
    pub open spec fn is_plate_event(&self) -> bool {
        match *self {
            Event::Strikeout => true,
            Event::Walk => true,
            Event::HomeRun => true,
            Event::BaseHit { .. } => true,
            Event::GroundOut { .. } => true,
            Event::Flyout { .. } => true,
            Event::DoublePlay { .. } => true,
            Event::FieldersChoice { .. } => true,
            Event::HitByPitch { .. } => true,
            _ => false,
        }
    }

    /// Whether the event changes players or teams.
    pub open spec fn is_world_event(&self) -> bool {
        match *self {
            Event::Incineration { .. } => true,
            Event::IncinerationWithChain { .. } => true,
            Event::Peanut { .. } => true,
            Event::Feedback { .. } => true,
            Event::Reverb { .. } => true,
            Event::Blooddrain { .. } => true,
            Event::NightShift { .. } => true,
            Event::Soundproof { .. } => true,
            Event::PeckedFree { .. } => true,
            _ => false,
        }
    }

    /// Applies the events of the count, the inning and the score.
    #[verifier::rlimit(60)]
    fn apply_count(&self, game: &mut Game, world: &mut World)
        requires
            self.is_count_event(),
            can_apply(self@, old(game)@, old(world)@),
        ensures
            (final(game)@, final(world)@) == after_event(self@, old(game)@, old(world)@),
    {
        let repr = self.repr();
        game.events.add(repr.clone());
        match self {
            Event::BatterUp { batter, reverberating } => {
                let bt = game.scoreboard.batting_team_mut();
                if *reverberating {
                    bt.batter_index -= 1;
                }
                bt.batter = Some(*batter);
            },
            Event::InningSwitch { inning, top } => {
                game.switch_inning(world, *inning, *top);
            },
            Event::GameOver => {},
            Event::Ball => {
                game.balls += 1;
            },
            Event::Strike => {
                game.strikes += 1;
            },
            Event::Foul => {
                let cap = game.get_max_strikes(world) - 1;
                game.strikes += 1;
                if game.strikes > cap {
                    game.strikes = cap;
                }
            },
            Event::Birds => {},
            Event::Fireproof { target: _ } => {},
            Event::PolaritySwitch => {
                game.polarity = !game.polarity;
            },
            Event::Shelled { batter: _ } => {
                let bt = game.scoreboard.batting_team_mut();
                bt.batter_index += 1;
            },
            Event::Zap { batter } => {
                if *batter {
                    game.strikes -= 1;
                } else {
                    game.balls -= 1;
                }
            },
            Event::Sun2 { home_team } => {
                if *home_team {
                    game.scoreboard.home_team.score = add_to_score(
                        game.scoreboard.home_team.score,
                        -100,
                    );
                } else {
                    game.scoreboard.away_team.score = add_to_score(
                        game.scoreboard.away_team.score,
                        -100,
                    );
                }
            },
            Event::BlackHole { home_team } => {
                if *home_team {
                    game.scoreboard.home_team.score = add_to_score(
                        game.scoreboard.home_team.score,
                        -100,
                    );
                } else {
                    game.scoreboard.away_team.score = add_to_score(
                        game.scoreboard.away_team.score,
                        -100,
                    );
                }
            },
            Event::Salmon { home_runs_lost, away_runs_lost } => {
                game.swim_back(*home_runs_lost, *away_runs_lost);
            },
            Event::CaughtStealing { runner: _, base_from } => {
                let _ = game.runners.remove(*base_from);
                proof {
                    crate::bases::lemma_first_on(old(game)@.runners, *base_from as int);
                }
                game.outs += 1;
            },
            Event::BaseSteal { runner: _, base_from, base_to: _ } => {
                game.runners.advance(*base_from);
                proof {
                    crate::bases::lemma_first_on(old(game)@.runners, *base_from as int);
                }
                game.base_sweep(world);
            },
            _ => {},
        }
    }

    /// Applies the events that end a plate appearance.
    #[verifier::rlimit(60)]
    fn apply_plate(&self, game: &mut Game, world: &mut World)
        requires
            self.is_plate_event(),
            can_apply(self@, old(game)@, old(world)@),
        ensures
            (final(game)@, final(world)@) == after_event(self@, old(game)@, old(world)@),
    {
        let repr = self.repr();
        game.events.add(repr.clone());
        match self {
            Event::Strikeout => {
                feed_batter(game, world, &repr);
                game.outs += 1;
                game.end_pa();
            },
            Event::Walk => {
                feed_batter(game, world, &repr);
                let b = game.scoreboard.batting_team().batter.unwrap();
                game.runners.walk();
                game.runners.add(0, b);
                proof {
                    lemma_walk_known(old(game)@.runners, world@, b);
                }
                close_pa(game, world);
            },
            Event::HomeRun => {
                feed_batter(game, world, &repr);
                upgrade_spicy(game, world);
                let no_runners_on = game.runners.empty();
                let n = game.runners.base_number;
                game.runners.advance_all(n);
                let value = game.get_run_value();
                let bt = game.scoreboard.batting_team_mut();
                bt.score = add_to_score(bt.score, value);
                game.base_sweep(world);
                if no_runners_on {
                    game.scoring_plays_inning += 1;
                }
                game.end_pa();
            },
            Event::BaseHit { bases, runners_after } => {
                feed_batter(game, world, &repr);
                upgrade_spicy(game, world);
                let b = game.scoreboard.batting_team().batter.unwrap();
                game.runners.runners = runners_after.clone().runners;
                game.base_sweep(world);
                game.runners.add(*bases - 1, b);
                game.end_pa();
            },
            Event::GroundOut { fielder: _, runners_after } => {
                feed_batter(game, world, &repr);
                downgrade_spicy(game, world);
                game.outs += 1;
                game.runners.runners = runners_after.clone().runners;
                close_pa(game, world);
            },
            Event::Flyout { fielder: _, runners_after } => {
                feed_batter(game, world, &repr);
                downgrade_spicy(game, world);
                game.outs += 1;
                game.runners.runners = runners_after.clone().runners;
                close_pa(game, world);
            },
            Event::DoublePlay { runners_after } => {
                feed_batter(game, world, &repr);
                downgrade_spicy(game, world);
                game.outs += 2;
                game.runners.runners = runners_after.clone().runners;
                close_pa(game, world);
            },
            Event::FieldersChoice { runners_after } => {
                feed_batter(game, world, &repr);
                downgrade_spicy(game, world);
                let b = game.scoreboard.batting_team().batter.unwrap();
                game.outs += 1;
                game.runners.runners = runners_after.clone().runners;
                game.runners.add(0, b);
                close_pa(game, world);
            },
            Event::HitByPitch { target, hbp_type } => {
                let effect = if *hbp_type == 0 {
                    Mod::Unstable
                } else {
                    Mod::Flickering
                };
                world.player_mut(*target).mods.add(effect, ModLifetime::Week);
                let b = game.scoreboard.batting_team().batter.unwrap();
                game.runners.walk();
                game.runners.add(0, b);
                proof {
                    lemma_walk_known(old(game)@.runners, world@, b);
                }
                close_pa(game, world);
            },
            _ => {},
        }
    }

    /// Applies the events that change players and teams.
    #[verifier::rlimit(60)]
    fn apply_world(&self, game: &mut Game, world: &mut World)
        requires
            self.is_world_event(),
            can_apply(self@, old(game)@, old(world)@),
        ensures
            (final(game)@, final(world)@) == after_event(self@, old(game)@, old(world)@),
    {
        let repr = self.repr();
        game.events.add(repr.clone());
        match self {
            Event::Incineration { target, replacement } => {
                incinerate(game, world, *target, replacement);
            },
            Event::IncinerationWithChain { target, replacement, chain } => {
                incinerate(game, world, *target, replacement);
                match chain {
                    Some(c) => {
                        world.player_mut(*c).mods.add(Mod::Unstable, ModLifetime::Week);
                    },
                    None => {},
                }
            },
            Event::Peanut { target, yummy } => {
                let boosts = even_boosts(
                    if *yummy {
                        PEANUT_BOOST
                    } else {
                        -PEANUT_BOOST
                    },
                );
                assert(boosts@ =~= Seq::new(
                    26,
                    |a: int|
                        if *yummy {
                            PEANUT_BOOST
                        } else {
                            (-PEANUT_BOOST) as i64
                        },
                ));
                world.player_mut(*target).boost(&boosts);
            },
            Event::Feedback { target1, target2 } => {
                match game.scoreboard.batting_team().batter {
                    Some(batter) => {
                        if batter == *target1 {
                            game.scoreboard.batting_team_mut().batter = Some(*target2);
                        } else {
                            game.scoreboard.pitching_team_mut().pitcher = *target2;
                        }
                    },
                    None => {},
                }
                world.swap(*target1, *target2);
            },
            Event::Reverb { reverb_type, team, changes } => {
                reverb(game, world, *reverb_type, *team, changes);
            },
            Event::Blooddrain { drainer, target, stat, siphon: _, siphon_effect: _ } => {
                let boosts = drain_list(*stat, DRAIN_BOOST);
                world.player_mut(*drainer).boost(&boosts);
                let losses = drain_list(*stat, -DRAIN_BOOST);
                world.player_mut(*target).boost(&losses);
            },
            Event::NightShift { batter, replacement, replacement_idx, boosts } => {
                night_shift(game, world, *batter, *replacement, *replacement_idx, boosts);
            },
            Event::Soundproof { resists: _, tangled, reductions } => {
                world.player_mut(*tangled).boost(reductions);
            },
            Event::PeckedFree { player } => {
                let p = world.player_mut(*player);
                p.mods.remove(Mod::Shelled);
                p.mods.add(Mod::Superallergic, ModLifetime::Permanent);
            },
            _ => {},
        }
    }

    /// Applies the event: writes its tag to the feed of the game and
    /// changes the game and the world as the event says.
    pub fn apply(&self, game: &mut Game, world: &mut World)
        requires
            can_apply(self@, old(game)@, old(world)@),
        ensures
            (final(game)@, final(world)@) == after_event(self@, old(game)@, old(world)@),
    {
        match self {
            Event::Strikeout
            | Event::Walk
            | Event::HomeRun
            | Event::BaseHit { .. }
            | Event::GroundOut { .. }
            | Event::Flyout { .. }
            | Event::DoublePlay { .. }
            | Event::FieldersChoice { .. }
            | Event::HitByPitch { .. } => self.apply_plate(game, world),
            Event::Incineration { .. }
            | Event::IncinerationWithChain { .. }
            | Event::Peanut { .. }
            | Event::Feedback { .. }
            | Event::Reverb { .. }
            | Event::Blooddrain { .. }
            | Event::NightShift { .. }
            | Event::Soundproof { .. }
            | Event::PeckedFree { .. } => self.apply_world(game, world),
            _ => self.apply_count(game, world),
        }
    }
}

/// A walk moves no runner off the list, so the world still knows every
/// runner after it, the batter included.
pub proof fn lemma_walk_known(s: Seq<Baserunner>, w: WorldView, b: u128)
    requires
        runners_known(s, w),
        w.players.contains_key(b),
    ensures
        runners_known(walk_of(s).push(Baserunner { id: b, base: 0 }), w),
{
    crate::bases::lemma_walk_shape(s, 256);
    let r = walk_of(s).push(Baserunner { id: b, base: 0 });
    assert forall|i: int| 0 <= i < r.len() implies w.players.contains_key((#[trigger] r[i]).id) by {
        if i < s.len() {
            assert(r[i].id == s[i].id);
        }
    }
}

} // verus!
