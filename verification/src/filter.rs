//! The temporal/team filter: given "now", a lookahead window in days
//! and a compiled team pattern, selects the matches worth notifying
//! about and orders them ascending by date, stably.
use vstd::prelude::*;

use crate::dates::Date;
use crate::matches::{match_wf, matches_view, Match, MatchV};

verus! {

/// Whether the pattern is one the regex engine accepts — valid
/// syntax within its compile-size limits; what `regex::Regex::new`
/// accepts, a function of the pattern alone.
pub uninterp spec fn regex_valid(pat: Seq<char>) -> bool;

/// Whether the pattern matches somewhere in the text; what
/// `regex::Regex::is_match` returns. The result depends on the pattern
/// and the text alone.
pub uninterp spec fn regex_match(pat: Seq<char>, text: Seq<char>) -> bool;

#[verifier::external_type_specification]
#[verifier::external_body]
pub struct ExRegex(regex::Regex);

/// The team pattern was not valid regular-expression syntax; carries
/// the offending pattern.
#[derive(Debug)]
pub struct FilterConfigError {
    pub pattern: String,
}

/// A compiled team pattern together with its source text. The compiled
/// field is private and only ever built from the source field, so the
/// matcher below speaks truthfully about `source()`.
#[derive(Debug)]
pub struct TeamPattern {
    pattern: String,
    regex: regex::Regex,
}

impl TeamPattern {
    /// The pattern text this matcher was compiled from.
    pub closed spec fn source(&self) -> Seq<char> {
        self.pattern@
    }

    /// Compiles a team pattern; fails exactly on a pattern the regex
    /// engine rejects, carrying the pattern back.
    pub fn new(pat: &str) -> (r: Result<TeamPattern, FilterConfigError>)
        ensures
            r matches Ok(p) ==> regex_valid(pat@) && p.source() == pat@,
            r matches Err(e) ==> !regex_valid(pat@) && e.pattern@ == pat@,
    {
        match compile_pattern(pat) {
            Some(p) => Ok(p),
            None => Err(FilterConfigError { pattern: pat.to_owned() }),
        }
    }

    /// Whether this pattern matches the text.
    pub fn is_match(&self, text: &str) -> (r: bool)
        ensures
            r == regex_match(self.source(), text@),
    {
        pattern_is_match(self, text)
    }
}

/// Relies on regex::Regex::new: it succeeds exactly on the patterns
/// the engine accepts, a function of the pattern text alone. The
/// compiled matcher is stored beside the text it was compiled from.
#[verifier::external_body]
fn compile_pattern(pat: &str) -> (r: Option<TeamPattern>)
    ensures
        r is Some <==> regex_valid(pat@),
        r matches Some(p) ==> p.source() == pat@,
{
    match regex::Regex::new(pat) {
        Ok(re) => Some(TeamPattern { pattern: pat.to_owned(), regex: re }),
        Err(_) => None,
    }
}

/// Relies on regex::Regex::is_match: whether the pattern matches
/// anywhere in the text, a function of pattern and text alone. The
/// private `regex` field is always the compilation of the private
/// `pattern` field, so the result is `regex_match` of `source()`.
#[verifier::external_body]
fn pattern_is_match(p: &TeamPattern, text: &str) -> (r: bool)
    ensures
        r == regex_match(p.source(), text@),
{
    p.regex.is_match(text)
}

/// The filter's inputs beside the matches themselves: wall-clock date,
/// window length, compiled team pattern.
pub struct FilterCriteria {
    pub now: Date,
    pub window_days: u64,
    pub pattern: TeamPattern,
}

/// The date is within the window: today through `now + window_days`,
/// both inclusive. Strictly past and beyond-window dates fall out.
pub open spec fn in_window(d: Date, now: Date, window_days: int) -> bool {
    &&& d.day_number_spec() - now.day_number_spec() >= 0
    &&& d.day_number_spec() - now.day_number_spec() <= window_days
}

/// The selection rule, per match: in the window, and the pattern
/// matches the home or the away team.
pub open spec fn keep_match(m: MatchV, now: Date, window_days: int, pat: Seq<char>) -> bool {
    &&& in_window(m.time.date_spec(), now, window_days)
    &&& (regex_match(pat, m.home) || regex_match(pat, m.away))
}

/// The ordering key: the date component's day count.
pub open spec fn match_key(m: MatchV) -> int {
    m.time.date_spec().day_number_spec()
}

/// Inserts a match after every already-placed match of equal or
/// smaller key, so earlier input stays in front: the stable insertion.
pub open spec fn insert_sorted(s: Seq<MatchV>, m: MatchV) -> Seq<MatchV>
    decreases s.len(),
{
    if s.len() == 0 {
        seq![m]
    } else if match_key(s.last()) <= match_key(m) {
        s.push(m)
    } else {
        insert_sorted(s.drop_last(), m).push(s.last())
    }
}

/// Stable sort ascending by `match_key`: input order is kept among
/// equal keys.
pub open spec fn sort_matches_spec(s: Seq<MatchV>) -> Seq<MatchV>
    decreases s.len(),
{
    if s.len() == 0 {
        Seq::empty()
    } else {
        insert_sorted(sort_matches_spec(s.drop_last()), s.last())
    }
}

/// The whole filter: keep the matches the selection rule keeps, in a
/// stable ascending order by date.
pub open spec fn apply_filter(s: Seq<MatchV>, now: Date, window_days: int, pat: Seq<char>) -> Seq<
    MatchV,
> {
    sort_matches_spec(s.filter(|m: MatchV| keep_match(m, now, window_days, pat)))
}

/// Ascending key order along a sequence.
pub open spec fn sorted_by_key(s: Seq<MatchV>) -> bool {
    forall|i: int, j: int| 0 <= i < j < s.len() ==> match_key(s[i]) <= match_key(s[j])
}

/// Stable insertion only adds the new element: a predicate that held
/// everywhere and of the new element holds everywhere after.
proof fn lemma_insert_sorted_all(s: Seq<MatchV>, m: MatchV, p: spec_fn(MatchV) -> bool)
    requires
        forall|i: int| 0 <= i < s.len() ==> p(#[trigger] s[i]),
        p(m),
    ensures
        forall|i: int| 0 <= i < insert_sorted(s, m).len() ==> p(#[trigger] insert_sorted(s, m)[i]),
        insert_sorted(s, m).len() == s.len() + 1,
    decreases s.len(),
{
    if s.len() == 0 {
    } else if match_key(s.last()) <= match_key(m) {
    } else {
        lemma_insert_sorted_all(s.drop_last(), m, p);
    }
}

/// Sorting only rearranges: a predicate that held everywhere holds
/// everywhere after.
proof fn lemma_sort_all(s: Seq<MatchV>, p: spec_fn(MatchV) -> bool)
    requires
        forall|i: int| 0 <= i < s.len() ==> p(#[trigger] s[i]),
    ensures
        forall|i: int|
            0 <= i < sort_matches_spec(s).len() ==> p(#[trigger] sort_matches_spec(s)[i]),
        sort_matches_spec(s).len() == s.len(),
    decreases s.len(),
{
    if s.len() == 0 {
    } else {
        lemma_sort_all(s.drop_last(), p);
        lemma_insert_sorted_all(sort_matches_spec(s.drop_last()), s.last(), p);
    }
}

/// Stable insertion into a sorted sequence keeps it sorted.
proof fn lemma_insert_sorted_sorted(s: Seq<MatchV>, m: MatchV)
    requires
        sorted_by_key(s),
    ensures
        sorted_by_key(insert_sorted(s, m)),
    decreases s.len(),
{
    if s.len() == 0 {
    } else if match_key(s.last()) <= match_key(m) {
    } else {
        assert(sorted_by_key(s.drop_last()));
        lemma_insert_sorted_sorted(s.drop_last(), m);
        lemma_insert_sorted_all(
            s.drop_last(),
            m,
            |x: MatchV| match_key(x) <= match_key(s.last()),
        );
    }
}

/// The law behind the ordering clause: the filter's output is sorted
/// ascending by the matches' dates.
pub proof fn lemma_sort_sorted(s: Seq<MatchV>)
    ensures
        sorted_by_key(sort_matches_spec(s)),
    decreases s.len(),
{
    if s.len() == 0 {
    } else {
        lemma_sort_sorted(s.drop_last());
        lemma_insert_sorted_sorted(sort_matches_spec(s.drop_last()), s.last());
    }
}

/// Sorting an already sorted sequence changes nothing.
proof fn lemma_sort_id(s: Seq<MatchV>)
    requires
        sorted_by_key(s),
    ensures
        sort_matches_spec(s) == s,
    decreases s.len(),
{
    if s.len() == 0 {
        assert(sort_matches_spec(s) =~= s);
    } else {
        assert(sorted_by_key(s.drop_last()));
        lemma_sort_id(s.drop_last());
        if s.len() == 1 {
            assert(insert_sorted(s.drop_last(), s.last()) =~= s);
        } else {
            assert(match_key(s.drop_last().last()) <= match_key(s.last()));
            assert(s.drop_last().push(s.last()) =~= s);
        }
    }
}

/// Stable insertion adds the new element to the contents and moves
/// nothing else.
proof fn lemma_insert_sorted_multiset(s: Seq<MatchV>, m: MatchV)
    ensures
        insert_sorted(s, m).to_multiset() == s.to_multiset().insert(m),
    decreases s.len(),
{
    broadcast use vstd::seq_lib::group_to_multiset_ensures;

    if s.len() == 0 {
        assert(seq![m] =~= Seq::<MatchV>::empty().push(m));
        assert(insert_sorted(s, m).to_multiset() =~= s.to_multiset().insert(m));
    } else if match_key(s.last()) <= match_key(m) {
        assert(insert_sorted(s, m).to_multiset() =~= s.to_multiset().insert(m));
    } else {
        lemma_insert_sorted_multiset(s.drop_last(), m);
        assert(s.drop_last().push(s.last()) =~= s);
        assert(insert_sorted(s, m).to_multiset() =~= s.drop_last().to_multiset().insert(m).insert(
            s.last(),
        ));
        assert(s.to_multiset() =~= s.drop_last().to_multiset().insert(s.last()));
        assert(s.drop_last().to_multiset().insert(m).insert(s.last())
            =~= s.drop_last().to_multiset().insert(s.last()).insert(m));
    }
}

/// Law: sorting only reorders — the sorted sequence holds exactly the
/// input's records.
pub proof fn lemma_sort_permutes(s: Seq<MatchV>)
    ensures
        sort_matches_spec(s).to_multiset() == s.to_multiset(),
    decreases s.len(),
{
    broadcast use vstd::seq_lib::group_to_multiset_ensures;

    if s.len() == 0 {
    } else {
        lemma_sort_permutes(s.drop_last());
        lemma_insert_sorted_multiset(sort_matches_spec(s.drop_last()), s.last());
        assert(s.drop_last().push(s.last()) =~= s);
        assert(sort_matches_spec(s).to_multiset() =~= s.to_multiset());
    }
}

/// Law: the whole filter keeps exactly the records the selection rule
/// keeps — ordering aside, nothing is added, dropped or changed.
pub proof fn lemma_apply_filter_contents(s: Seq<MatchV>, now: Date, window_days: int, pat: Seq<
    char,
>)
    ensures
        apply_filter(s, now, window_days, pat).to_multiset() == s.filter(
            |m: MatchV| keep_match(m, now, window_days, pat),
        ).to_multiset(),
{
    lemma_sort_permutes(s.filter(|m: MatchV| keep_match(m, now, window_days, pat)));
}

/// Filtering a sequence that satisfies the predicate everywhere
/// changes nothing.
proof fn lemma_filter_all_true(s: Seq<MatchV>, p: spec_fn(MatchV) -> bool)
    requires
        forall|i: int| 0 <= i < s.len() ==> p(#[trigger] s[i]),
    ensures
        s.filter(p) == s,
    decreases s.len(),
{
    reveal_with_fuel(Seq::filter, 2);
    if s.len() == 0 {
        assert(s.filter(p) =~= s);
    } else {
        lemma_filter_all_true(s.drop_last(), p);
        assert(p(s.last()));
        assert(s.drop_last().push(s.last()) =~= s);
    }
}

/// Law: the selection-and-ordering rule, read off the filter's
/// output — it is sorted ascending by date, and every record in it
/// passes the selection rule.
pub proof fn lemma_apply_filter_kept_and_sorted(
    s: Seq<MatchV>,
    now: Date,
    window_days: int,
    pat: Seq<char>,
)
    ensures
        sorted_by_key(apply_filter(s, now, window_days, pat)),
        forall|i: int|
            0 <= i < apply_filter(s, now, window_days, pat).len() ==> keep_match(
                #[trigger] apply_filter(s, now, window_days, pat)[i],
                now,
                window_days,
                pat,
            ),
{
    let p = |m: MatchV| keep_match(m, now, window_days, pat);
    let f = s.filter(p);
    lemma_sort_sorted(f);
    assert forall|i: int| 0 <= i < f.len() implies p(#[trigger] f[i]) by {
        s.lemma_filter_pred(p, i);
    }
    lemma_sort_all(f, p);
}

/// Law: the filter is idempotent. Running it twice on the same
/// criteria yields what running it once yields — it is a pure
/// function of its inputs, with no hidden state.
pub proof fn lemma_filter_idempotent(s: Seq<MatchV>, now: Date, window_days: int, pat: Seq<char>)
    ensures
        apply_filter(apply_filter(s, now, window_days, pat), now, window_days, pat)
            == apply_filter(s, now, window_days, pat),
{
    let p = |m: MatchV| keep_match(m, now, window_days, pat);
    let f = s.filter(p);
    let out = sort_matches_spec(f);
    assert forall|i: int| 0 <= i < f.len() implies p(#[trigger] f[i]) by {
        s.lemma_filter_pred(p, i);
    }
    lemma_sort_all(f, p);
    lemma_filter_all_true(out, p);
    lemma_sort_sorted(f);
    lemma_sort_id(out);
}

/// Law: an empty aggregated match list yields an empty result — the
/// empty outcome is normal, not an error.
pub proof fn lemma_filter_empty(now: Date, window_days: int, pat: Seq<char>)
    ensures
        apply_filter(Seq::<MatchV>::empty(), now, window_days, pat) == Seq::<MatchV>::empty(),
{
    reveal_with_fuel(Seq::filter, 2);
    assert(Seq::<MatchV>::empty().filter(
        |m: MatchV| keep_match(m, now, window_days, pat),
    ) =~= Seq::<MatchV>::empty());
}

/// A fresh match record with the same content.
fn clone_match(m: &Match) -> (r: Match)
    ensures
        r@ == m@,
{
    Match {
        home_team: m.home_team.clone(),
        away_team: m.away_team.clone(),
        time: m.time,
    }
}

/// Stable insertion into an already sorted vector, executably.
fn insert_sorted_exec(out: &mut Vec<Match>, m: Match)
    requires
        match_wf(m@),
        forall|i: int| 0 <= i < old(out)@.len() ==> match_wf(#[trigger] matches_view(old(out)@)[i]),
    ensures
        matches_view(final(out)@) == insert_sorted(matches_view(old(out)@), m@),
        forall|i: int| 0 <= i < final(out)@.len() ==> match_wf(#[trigger] matches_view(final(out)@)[i]),
    decreases old(out)@.len(),
{
    let ghost pre: Seq<Match> = out@;
    if out.len() == 0 {
        out.push(m);
        proof {
            assert(matches_view(pre) =~= Seq::<MatchV>::empty());
            assert(matches_view(out@) =~= seq![m@]);
        }
    } else {
        let last_idx = out.len() - 1;
        proof {
            assert(matches_view(pre)[last_idx as int] == pre[last_idx as int]@);
            assert(match_wf(matches_view(pre)[last_idx as int]));
        }
        let k_last = out[last_idx].time.date().day_number();
        let k_m = m.time.date().day_number();
        if k_last <= k_m {
            out.push(m);
            proof {
                assert(matches_view(pre).last() == pre[last_idx as int]@);
                assert(matches_view(out@) =~= matches_view(pre).push(m@));
            }
        } else {
            let last = match out.pop() {
                Some(l) => l,
                None => {
                    proof {
                        assert(false);
                    }
                    return ;
                },
            };
            proof {
                assert(matches_view(out@) =~= matches_view(pre).drop_last());
                assert(last@ == matches_view(pre).last());
                assert(forall|i: int|
                    0 <= i < out@.len() ==> matches_view(out@)[i] == matches_view(pre)[i]);
            }
            insert_sorted_exec(out, m);
            let ghost mid: Seq<Match> = out@;
            out.push(last);
            proof {
                assert(matches_view(out@) =~= matches_view(mid).push(last@));
            }
        }
    }
}

/// The temporal/team filter. Pure in its inputs: the result is exactly
/// `apply_filter` of the input views, so the kept matches are the ones
/// the selection rule keeps, sorted stably ascending by date.
pub fn filter_matches(ms: &Vec<Match>, criteria: &FilterCriteria) -> (r: Vec<Match>)
    requires
        criteria.now.valid(),
        forall|i: int| 0 <= i < ms@.len() ==> match_wf(#[trigger] matches_view(ms@)[i]),
    ensures
        matches_view(r@) == apply_filter(
            matches_view(ms@),
            criteria.now,
            criteria.window_days as int,
            criteria.pattern.source(),
        ),
        forall|i: int| 0 <= i < r@.len() ==> match_wf(#[trigger] matches_view(r@)[i]),
{
    let ghost mvs: Seq<MatchV> = matches_view(ms@);
    let ghost keepf = |m: MatchV| keep_match(
        m,
        criteria.now,
        criteria.window_days as int,
        criteria.pattern.source(),
    );
    let mut out: Vec<Match> = Vec::new();
    let mut i: usize = 0;
    proof {
        reveal_with_fuel(Seq::filter, 2);
        assert(mvs.take(0) =~= Seq::<MatchV>::empty());
        assert(Seq::<MatchV>::empty().filter(keepf) =~= Seq::<MatchV>::empty());
        assert(matches_view(out@) =~= Seq::<MatchV>::empty());
    }
    while i < ms.len()
        invariant
            i <= ms@.len(),
            criteria.now.valid(),
            mvs == matches_view(ms@),
            keepf == (|m: MatchV| keep_match(
                m,
                criteria.now,
                criteria.window_days as int,
                criteria.pattern.source(),
            )),
            forall|j: int| 0 <= j < ms@.len() ==> match_wf(#[trigger] matches_view(ms@)[j]),
            matches_view(out@) == sort_matches_spec(mvs.take(i as int).filter(keepf)),
            forall|j: int| 0 <= j < out@.len() ==> match_wf(#[trigger] matches_view(out@)[j]),
        decreases ms@.len() - i,
    {
        let m = &ms[i];
        proof {
            assert(mvs[i as int] == ms@[i as int]@);
            assert(match_wf(mvs[i as int]));
        }
        let d = m.time.date();
        let dn = d.day_number();
        let nown = criteria.now.day_number();
        let keep_time = dn >= nown && dn - nown <= criteria.window_days;
        let keep_team = criteria.pattern.is_match(m.home_team.as_str())
            || criteria.pattern.is_match(m.away_team.as_str());
        proof {
            assert((keep_time && keep_team) == keepf(mvs[i as int]));
            assert(mvs.take(i as int + 1).drop_last() =~= mvs.take(i as int));
            assert(mvs.take(i as int + 1).last() == mvs[i as int]);
            reveal_with_fuel(Seq::filter, 2);
            let fprev = mvs.take(i as int).filter(keepf);
            if keepf(mvs[i as int]) {
                assert(mvs.take(i as int + 1).filter(keepf) == fprev.push(mvs[i as int]));
                assert(fprev.push(mvs[i as int]).drop_last() =~= fprev);
            } else {
                assert(mvs.take(i as int + 1).filter(keepf) == fprev);
            }
        }
        if keep_time && keep_team {
            insert_sorted_exec(&mut out, clone_match(m));
        }
        i = i + 1;
    }
    proof {
        assert(mvs.take(ms@.len() as int) =~= mvs);
    }
    out
}

} // verus!
