//! The persistence order of a fact log: facts with a video reading first, then by time
//! (video seconds, else match seconds; facts with neither last), phase starts before
//! other facts at the same time, then by `recorded_at`, then by id.
//!
//! Video seconds come first because a match migrated from timer to video keeps match
//! clocks on its control facts while its plays carry video clocks; comparing both on one
//! axis would interleave the halves.  The phase-start tie-break is decided by kind, not
//! by `recorded_at`, since a phase created together with the first fact of that phase
//! shares its time and the order of the shell's stamps is not guaranteed.

use vstd::prelude::*;

use crate::clock::FactAnchor;
use crate::facts::{ControlFact, MatchFact, MatchFactPayload};
use crate::seqs::lemma_map_values_multiset;
use crate::sorting::{lemma_sorted_seq_sorted, sorted_seq, stable_sort, KeyOrder};

verus! {

/// The sort key of a fact, compared lexicographically field by field (`false` before
/// `true`).
#[derive(Debug, Clone, Copy, PartialEq, Eq, Structural)]
pub struct PersistenceKey {
    pub lacks_video: bool,
    pub lacks_time: bool,
    pub seconds: i64,
    pub not_phase_start: bool,
    pub recorded_at: i128,
    pub id: u128,
}

/// The key of a fact.
pub open spec fn persistence_key(f: MatchFact) -> PersistenceKey {
    let a = f.spec_anchor();
    PersistenceKey {
        lacks_video: a.video_ms() is None,
        lacks_time: a.video_ms() is None && a.match_ms() is None,
        seconds: match a.video_ms() {
            Some(v) => v,
            None => match a.match_ms() {
                Some(m) => m,
                None => 0,
            },
        },
        not_phase_start: !(f.payload matches MatchFactPayload::Control(ControlFact::PhaseStart(_))),
        recorded_at: f.recorded_at.unix_nanos,
        id: f.id.0,
    }
}

pub open spec fn bool_lt(a: bool, b: bool) -> bool {
    !a && b
}

/// `a` may come before `b`.
pub open spec fn key_le(a: PersistenceKey, b: PersistenceKey) -> bool {
    if a.lacks_video != b.lacks_video {
        bool_lt(a.lacks_video, b.lacks_video)
    } else if a.lacks_time != b.lacks_time {
        bool_lt(a.lacks_time, b.lacks_time)
    } else if a.seconds != b.seconds {
        a.seconds < b.seconds
    } else if a.not_phase_start != b.not_phase_start {
        bool_lt(a.not_phase_start, b.not_phase_start)
    } else if a.recorded_at != b.recorded_at {
        a.recorded_at < b.recorded_at
    } else {
        a.id <= b.id
    }
}

/// A fact with its key.
#[derive(Debug, Clone, PartialEq)]
pub struct KeyedFact {
    pub key: PersistenceKey,
    pub fact: MatchFact,
}

impl KeyOrder for KeyedFact {
    open spec fn key_le(self, other: Self) -> bool {
        key_le(self.key, other.key)
    }

    proof fn lemma_total(a: Self, b: Self) {
    }

    proof fn lemma_trans(a: Self, b: Self, c: Self) {
    }

    fn le(&self, other: &Self) -> (r: bool) {
        let a = self.key;
        let b = other.key;
        if a.lacks_video != b.lacks_video {
            !a.lacks_video && b.lacks_video
        } else if a.lacks_time != b.lacks_time {
            !a.lacks_time && b.lacks_time
        } else if a.seconds != b.seconds {
            a.seconds < b.seconds
        } else if a.not_phase_start != b.not_phase_start {
            !a.not_phase_start && b.not_phase_start
        } else if a.recorded_at != b.recorded_at {
            a.recorded_at < b.recorded_at
        } else {
            a.id <= b.id
        }
    }
}

pub open spec fn keyed(f: MatchFact) -> KeyedFact {
    KeyedFact { key: persistence_key(f), fact: f }
}

/// The facts in persistence order (a stable sort by [`persistence_key`]).
pub open spec fn persistence_sorted(facts: Seq<MatchFact>) -> Seq<MatchFact> {
    sorted_seq(facts.map_values(|f: MatchFact| keyed(f))).map_values(|k: KeyedFact| k.fact)
}

fn key_of(fact: &MatchFact) -> (r: PersistenceKey)
    ensures
        r == persistence_key(*fact),
{
    let anchor: FactAnchor = fact.anchor();
    let video = anchor.video_elapsed_seconds();
    let matchc = anchor.match_elapsed_seconds();
    PersistenceKey {
        lacks_video: video.is_none(),
        lacks_time: video.is_none() && matchc.is_none(),
        seconds: match video {
            Some(v) => v.millis,
            None => match matchc {
                Some(m) => m.millis,
                None => 0,
            },
        },
        not_phase_start: !matches!(fact.payload, MatchFactPayload::Control(ControlFact::PhaseStart(_))),
        recorded_at: fact.recorded_at.unix_nanos,
        id: fact.id.0,
    }
}

/// The facts of `facts` rearranged into persistence order.
pub fn persistence_ordered(facts: &[MatchFact]) -> (r: Vec<MatchFact>)
    ensures
        r@ == persistence_sorted(facts@),
{
    let mut keyed_facts: Vec<KeyedFact> = Vec::new();
    let mut i: usize = 0;
    while i < facts.len()
        invariant
            i <= facts.len(),
            keyed_facts@ == facts@.take(i as int).map_values(|f: MatchFact| keyed(f)),
        decreases facts.len() - i,
    {
        let fact = facts[i].duplicate();
        keyed_facts.push(KeyedFact { key: key_of(&fact), fact });
        proof {
            assert(facts@.take(i + 1).map_values(|f: MatchFact| keyed(f))
                =~= facts@.take(i as int).map_values(|f: MatchFact| keyed(f)).push(keyed(facts@[i as int])));
        }
        i += 1;
    }
    assert(facts@.take(facts.len() as int) == facts@);
    let sorted = stable_sort(keyed_facts);
    let mut out: Vec<MatchFact> = Vec::new();
    let mut rest = sorted;
    let ghost all = rest@;
    while rest.len() > 0
        invariant
            out@.len() + rest@.len() == all.len(),
            rest@ == all.subrange(out@.len() as int, all.len() as int),
            out@ == all.take(out@.len() as int).map_values(|k: KeyedFact| k.fact),
        decreases rest@.len(),
    {
        let ghost n = out@.len() as int;
        let k = rest.remove(0);
        out.push(k.fact);
        proof {
            assert(all.take(n + 1).map_values(|k: KeyedFact| k.fact)
                =~= all.take(n).map_values(|k: KeyedFact| k.fact).push(all[n].fact));
        }
    }
    assert(all.take(all.len() as int) == all);
    out
}

/// Sorts the facts in place into persistence order.
pub fn sort_by_persistence_order(facts: &mut Vec<MatchFact>)
    ensures
        final(facts)@ == persistence_sorted(old(facts)@),
{
    let sorted = persistence_ordered(facts.as_slice());
    *facts = sorted;
}

/// Persistence order is an order on the facts given: after sorting, each fact's key
/// comes at or before the key of every later fact, and the facts are exactly the facts
/// given (as a multiset).
pub proof fn lemma_persistence_order(facts: Seq<MatchFact>)
    ensures
        persistence_sorted(facts).len() == facts.len(),
        persistence_sorted(facts).to_multiset() == facts.to_multiset(),
        forall|i: int, j: int|
            0 <= i < j < persistence_sorted(facts).len() ==> key_le(
                persistence_key(#[trigger] persistence_sorted(facts)[i]),
                persistence_key(#[trigger] persistence_sorted(facts)[j]),
            ),
{
    broadcast use vstd::seq_lib::to_multiset_contains;

    let ks = facts.map_values(|f: MatchFact| keyed(f));
    let sorted = sorted_seq(ks);
    lemma_sorted_seq_sorted(ks);
    crate::sorting::lemma_sorted_seq_len(ks);
    let r = persistence_sorted(facts);
    assert(r == sorted.map_values(|k: KeyedFact| k.fact));
    assert forall|i: int| 0 <= i < sorted.len() implies (#[trigger] sorted[i]).key == persistence_key(sorted[i].fact) by {
        assert(sorted.to_multiset().count(sorted[i]) > 0);
        assert(ks.contains(sorted[i]));
        let k = choose|k: int| 0 <= k < ks.len() && ks[k] == sorted[i];
        assert(ks[k] == keyed(facts[k]));
    }
    assert forall|i: int, j: int| 0 <= i < j < r.len() implies key_le(
        persistence_key(#[trigger] r[i]),
        persistence_key(#[trigger] r[j]),
    ) by {
        assert(sorted[i].key_le(sorted[j]));
        assert(r[i] == sorted[i].fact);
        assert(r[j] == sorted[j].fact);
    }
    lemma_map_values_multiset(sorted, ks, |k: KeyedFact| k.fact);
    assert(ks.map_values(|k: KeyedFact| k.fact) =~= facts);
}

/// Whether a fact starts a phase.
pub open spec fn is_phase_start(f: MatchFact) -> bool {
    f.payload matches MatchFactPayload::Control(ControlFact::PhaseStart(_))
}

/// The time a fact is ordered by when it has no video reading: its match clock.
pub open spec fn match_reading(f: MatchFact) -> Option<i64> {
    f.spec_anchor().match_ms()
}

/// The video reading of a fact's anchor.
pub open spec fn video_reading(f: MatchFact) -> Option<i64> {
    f.spec_anchor().video_ms()
}

/// Persistence order, read off the facts' anchors: facts with a video reading come
/// first, in order of it; then facts with only a match clock, in order of it; then facts
/// with no time.  At one time a phase start comes before any other fact.
pub proof fn lemma_persistence_order_by_time(facts: Seq<MatchFact>)
    ensures
        forall|i: int, j: int| 0 <= i < j < persistence_sorted(facts).len() ==> {
            let a = #[trigger] persistence_sorted(facts)[i];
            let b = #[trigger] persistence_sorted(facts)[j];
            &&& (video_reading(b) is Some ==> video_reading(a) is Some)
            &&& (video_reading(a) is Some && video_reading(b) is Some ==> video_reading(a).unwrap() <= video_reading(b).unwrap())
            &&& (video_reading(a) is None && video_reading(b) is None && match_reading(b) is Some
                ==> match_reading(a) is Some)
            &&& (video_reading(a) is None && video_reading(b) is None && match_reading(a) is Some
                && match_reading(b) is Some ==> match_reading(a).unwrap() <= match_reading(b).unwrap())
            &&& (video_reading(a) is Some && video_reading(a) == video_reading(b) && is_phase_start(b) ==> is_phase_start(a))
            &&& (video_reading(a) is None && video_reading(b) is None && match_reading(a) is Some
                && match_reading(a) == match_reading(b) && is_phase_start(b) ==> is_phase_start(a))
        },
{
    lemma_persistence_order(facts);
    let r = persistence_sorted(facts);
    assert forall|i: int, j: int| 0 <= i < j < r.len() implies {
        let a = #[trigger] r[i];
        let b = #[trigger] r[j];
        &&& (video_reading(b) is Some ==> video_reading(a) is Some)
        &&& (video_reading(a) is Some && video_reading(b) is Some ==> video_reading(a).unwrap() <= video_reading(b).unwrap())
        &&& (video_reading(a) is None && video_reading(b) is None && match_reading(b) is Some
            ==> match_reading(a) is Some)
        &&& (video_reading(a) is None && video_reading(b) is None && match_reading(a) is Some
            && match_reading(b) is Some ==> match_reading(a).unwrap() <= match_reading(b).unwrap())
        &&& (video_reading(a) is Some && video_reading(a) == video_reading(b) && is_phase_start(b) ==> is_phase_start(a))
        &&& (video_reading(a) is None && video_reading(b) is None && match_reading(a) is Some
            && match_reading(a) == match_reading(b) && is_phase_start(b) ==> is_phase_start(a))
    } by {
        assert(key_le(persistence_key(r[i]), persistence_key(r[j])));
    }
}

} // verus!
