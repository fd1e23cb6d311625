//! The timeline: the fact log with display clocks resolved for each fact.

use vstd::prelude::*;

use crate::clock::{FactAnchor, MatchClock, VideoClock};
use crate::entities::Match;
use crate::facts::MatchFact;
use crate::ids::FactId;
use crate::projection::segment_resolver::{match_clock_at, resolve, video_clock_at, SegmentResolver};
use crate::projection::time_segment::TimeSegment;
use crate::seqs::{first_index, lemma_first_index_is, lemma_first_index_none};

verus! {

/// The facts in log order, each with the match clock and video clock it resolves to.
#[derive(Debug, Clone, PartialEq)]
pub struct TimelineProjection {
    pub resolved_facts: Vec<ResolvedFact>,
    pub resolver: SegmentResolver,
}

#[derive(Debug, Clone, PartialEq)]
pub struct ResolvedFact {
    pub fact: MatchFact,
    pub resolved_match_clock: Option<MatchClock>,
    pub resolved_video_clock: Option<VideoClock>,
}

/// The clocks an anchor resolves to: the clock it carries as is, the other one derived
/// through the segments; a `Both` anchor keeps both as given.
pub open spec fn anchor_clocks(anchor: FactAnchor, segs: Seq<TimeSegment>) -> (Option<MatchClock>, Option<VideoClock>) {
    match anchor {
        FactAnchor::MatchClock(mc) => (Some(mc), video_clock_at(segs, mc.elapsed_seconds.millis as int)),
        FactAnchor::VideoClock(vc) => (match_clock_at(segs, vc.elapsed_seconds.millis as int), Some(vc)),
        FactAnchor::Both { match_clock, video_clock } => (Some(match_clock), Some(video_clock)),
    }
}

/// The resolved entry of one fact against the given segments.
pub open spec fn resolved_entry(fact: MatchFact, segs: Seq<TimeSegment>) -> ResolvedFact {
    let c = anchor_clocks(fact.spec_anchor(), segs);
    ResolvedFact { fact, resolved_match_clock: c.0, resolved_video_clock: c.1 }
}

/// The resolved entries of a whole log, in log order.
pub open spec fn resolved_log(facts: Seq<MatchFact>) -> Seq<ResolvedFact> {
    Seq::new(facts.len(), |i: int| resolved_entry(facts[i], resolve(facts).1))
}

impl TimelineProjection {
    /// A timeline built from `facts` holds exactly [`resolved_log`] and the log's phases.
    pub proof fn lemma_built_from(self, facts: Seq<MatchFact>)
        requires
            self.built_from(facts),
        ensures
            self.resolved_facts@ == resolved_log(facts),
            self.resolver.phases@ == resolve(facts).0,
    {
        assert(self.resolved_facts@ =~= resolved_log(facts));
    }

    /// `resolved_facts[i]` is fact `i` of the log with its clocks resolved against the
    /// segments the whole log yields.
    pub open spec fn built_from(self, facts: Seq<MatchFact>) -> bool {
        &&& self.resolver.phases@ == resolve(facts).0
        &&& self.resolver.segments@ == resolve(facts).1
        &&& self.resolved_facts@.len() == facts.len()
        &&& forall|i: int| 0 <= i < facts.len() ==> #[trigger] self.resolved_facts@[i]
            == resolved_entry(facts[i], self.resolver.segments@)
    }

    /// Orders the log's facts with their resolved clocks (`_match` is unused; it keeps the
    /// facts / timeline entry points alike).
    pub fn build(_match: &Match, facts: &[MatchFact]) -> (r: TimelineProjection)
        ensures
            r.built_from(facts@),
    {
        let resolver = SegmentResolver::build(facts);
        let mut resolved: Vec<ResolvedFact> = Vec::new();
        let mut i: usize = 0;
        while i < facts.len()
            invariant
                i <= facts.len(),
                resolved@.len() == i,
                forall|j: int| 0 <= j < i ==> #[trigger] resolved@[j] == resolved_entry(facts@[j], resolver.segments@),
            decreases facts.len() - i,
        {
            let (mc, vc) = resolve_anchor_clocks(facts[i].anchor(), &resolver);
            resolved.push(ResolvedFact { fact: facts[i].duplicate(), resolved_match_clock: mc, resolved_video_clock: vc });
            i += 1;
        }
        TimelineProjection { resolved_facts: resolved, resolver }
    }

    /// The entry of the fact with this id (the first, should ids repeat).
    pub fn resolved_fact(&self, id: FactId) -> (r: Option<&ResolvedFact>)
        ensures
            match r {
                Some(e) => first_index(self.resolved_facts@, |e: ResolvedFact| e.fact.id == id) matches Some(i)
                    && self.resolved_facts@[i] == *e,
                None => first_index(self.resolved_facts@, |e: ResolvedFact| e.fact.id == id) is None,
            },
    {
        let ghost f = |e: ResolvedFact| e.fact.id == id;
        let mut i: usize = 0;
        while i < self.resolved_facts.len()
            invariant
                i <= self.resolved_facts.len(),
                f == |e: ResolvedFact| e.fact.id == id,
                forall|j: int| 0 <= j < i ==> !f(#[trigger] self.resolved_facts@[j]),
            decreases self.resolved_facts.len() - i,
        {
            if self.resolved_facts[i].fact.id == id {
                proof {
                    lemma_first_index_is(self.resolved_facts@, f, i as int);
                }
                return Some(&self.resolved_facts[i]);
            }
            i += 1;
        }
        proof {
            lemma_first_index_none(self.resolved_facts@, f);
        }
        None
    }
}

/// The clocks an anchor resolves to through a resolver; see [`anchor_clocks`].
pub fn resolve_anchor_clocks(anchor: FactAnchor, resolver: &SegmentResolver) -> (r: (Option<MatchClock>, Option<VideoClock>))
    ensures
        r == anchor_clocks(anchor, resolver.segments@),
{
    match anchor {
        FactAnchor::MatchClock(mc) => (Some(mc), resolver.resolve_video_clock(mc)),
        FactAnchor::VideoClock(vc) => (resolver.resolve_match_clock(vc), Some(vc)),
        FactAnchor::Both { match_clock, video_clock } => (Some(match_clock), Some(video_clock)),
    }
}

} // verus!
