//! The pipeline: extraction across the fetched source documents,
//! aggregation in source order, then the temporal/team filter.
//! Fetching the documents and delivering the result are the
//! orchestration layer's work; this takes the bodies and hands back
//! the ordered list.
use vstd::prelude::*;

use crate::dates::valid_offset_seconds;
use crate::filter::{apply_filter, filter_matches, FilterCriteria};
use crate::matches::{match_wf, matches_view, ExtractError, Match, MatchV};
use crate::scrape::get_games;

verus! {

/// A source's failure, wrapped with which source it was.
#[derive(Debug)]
pub struct PipelineError {
    pub source_index: usize,
    pub error: ExtractError,
}

/// Extracts every source body in order, aggregates the matches, and
/// filters. One source's failure aborts the whole run, carrying that
/// source's position. On success the result is exactly the filter
/// applied to some aggregate of well-formed records.
pub fn run_pipeline(bodies: &Vec<String>, offset_seconds: i32, criteria: &FilterCriteria) -> (r:
    Result<Vec<Match>, PipelineError>)
    requires
        valid_offset_seconds(offset_seconds as int),
        criteria.now.valid(),
    ensures
        r matches Ok(ms) ==> exists|agg: Seq<MatchV>|
            matches_view(ms@) == apply_filter(
                agg,
                criteria.now,
                criteria.window_days as int,
                criteria.pattern.source(),
            ),
        r matches Ok(ms) ==> forall|i: int|
            0 <= i < ms@.len() ==> match_wf(#[trigger] matches_view(ms@)[i]),
        r matches Err(e) ==> e.source_index < bodies@.len(),
{
    let mut agg: Vec<Match> = Vec::new();
    let mut i: usize = 0;
    while i < bodies.len()
        invariant
            i <= bodies@.len(),
            valid_offset_seconds(offset_seconds as int),
            forall|j: int| 0 <= j < agg@.len() ==> match_wf(#[trigger] matches_view(agg@)[j]),
        decreases bodies@.len() - i,
    {
        match get_games(bodies[i].as_str(), offset_seconds) {
            Ok(mut ms) => {
                let ghost pre: Seq<Match> = agg@;
                let ghost add: Seq<Match> = ms@;
                agg.append(&mut ms);
                proof {
                    assert(agg@ == pre + add);
                    assert forall|j: int| 0 <= j < agg@.len() implies match_wf(
                        #[trigger] matches_view(agg@)[j],
                    ) by {
                        if j < pre.len() {
                            assert(matches_view(agg@)[j] == matches_view(pre)[j]);
                            assert(match_wf(matches_view(pre)[j]));
                        } else {
                            assert(matches_view(agg@)[j] == matches_view(add)[j - pre.len()]);
                            assert(match_wf(matches_view(add)[j - pre.len()]));
                        }
                    }
                }
            },
            Err(e) => {
                return Err(PipelineError { source_index: i, error: e });
            },
        }
        i = i + 1;
    }
    let filtered = filter_matches(&agg, criteria);
    proof {
        assert(matches_view(filtered@) == apply_filter(
            matches_view(agg@),
            criteria.now,
            criteria.window_days as int,
            criteria.pattern.source(),
        ));
    }
    Ok(filtered)
}

/// Whether anything is to be delivered: an empty filtered list is a
/// normal outcome and triggers no delivery call.
pub fn should_notify(ms: &Vec<Match>) -> (r: bool)
    ensures
        r == (ms@.len() > 0),
{
    ms.len() > 0
}

} // verus!
