//! Match records and the fixture-extraction state machine.
//!
//! A document is flattened to a sequence of typed nodes (headers and
//! fixture rows); extraction is a single walk over that sequence,
//! carrying the most recently seen header date, and either yields the
//! matches in document order or fails on the first anomaly.
use vstd::prelude::*;

use crate::dates::{valid_offset_seconds, MatchTime};
use crate::timeparse::{parse_time, parse_time_spec, TimeParseError};

verus! {

/// A scheduled match. Team names are the scraped display strings,
/// unnormalized; a well-formed record never has an empty one.
#[derive(Debug)]
pub struct Match {
    pub home_team: String,
    pub away_team: String,
    pub time: MatchTime,
}

/// Mathematical image of a `Match`.
#[verifier::ext_equal]
pub ghost struct MatchV {
    pub home: Seq<char>,
    pub away: Seq<char>,
    pub time: MatchTime,
}

impl View for Match {
    type V = MatchV;

    open spec fn view(&self) -> MatchV {
        MatchV { home: self.home_team@, away: self.away_team@, time: self.time }
    }
}

/// Well-formedness of a match record: non-empty team names and a valid
/// time.
pub open spec fn match_wf(m: MatchV) -> bool {
    m.home.len() > 0 && m.away.len() > 0 && m.time.valid()
}

pub open spec fn matches_view(s: Seq<Match>) -> Seq<MatchV> {
    s.map_values(|m: Match| m@)
}

impl Match {
    /// Construction fails rather than yielding a record with an empty
    /// team name.
    pub fn new(home_team: String, away_team: String, time: MatchTime) -> (r: Option<Match>)
        requires
            time.valid(),
        ensures
            r matches Some(m) ==> m@ == (MatchV { home: home_team@, away: away_team@, time })
                && match_wf(m@),
            r is Some <==> home_team@.len() > 0 && away_team@.len() > 0,
    {
        if home_team.as_str().is_empty() || away_team.as_str().is_empty() {
            None
        } else {
            Some(Match { home_team, away_team, time })
        }
    }
}

/// One node of a flattened fixture list, in document order. A header
/// carries the concatenated text of its date element, or nothing when
/// that element is absent; a fixture row carries the concatenated text
/// of each team element, or nothing where one is absent.
#[derive(Debug)]
pub enum Node {
    Header(Option<String>),
    Fixture { home: Option<String>, away: Option<String> },
}

/// Mathematical image of a `Node`.
#[verifier::ext_equal]
pub ghost enum NodeV {
    Header(Option<Seq<char>>),
    Fixture { home: Option<Seq<char>>, away: Option<Seq<char>> },
}

impl View for Node {
    type V = NodeV;

    open spec fn view(&self) -> NodeV {
        match self {
            Node::Header(o) => NodeV::Header(
                match o {
                    Some(s) => Some(s@),
                    None => None,
                },
            ),
            Node::Fixture { home, away } => NodeV::Fixture {
                home: match home {
                    Some(s) => Some(s@),
                    None => None,
                },
                away: match away {
                    Some(s) => Some(s@),
                    None => None,
                },
            },
        }
    }
}

pub open spec fn nodes_view(s: Seq<Node>) -> Seq<NodeV> {
    s.map_values(|n: Node| n@)
}

/// The structural anomalies extraction can hit.
#[derive(Clone, Copy, PartialEq, Eq, Structural, Debug)]
pub enum StructureError {
    /// The document has no fixture-list container.
    MissingContainer,
    /// A fixture row appeared before any header date was seen.
    NoDateForMatch,
    /// A fixture row's home-team element is absent or empty.
    MissingOrEmptyHomeTeam,
    /// A fixture row's away-team element is absent or empty.
    MissingOrEmptyAwayTeam,
    /// The selector engine rejected one of the fixed layout selectors;
    /// not reachable with the selectors this library ships.
    BadSelector,
}

/// Why extraction of one document failed.
#[derive(Debug)]
pub enum ExtractError {
    Structure(StructureError),
    /// A header's date text matched neither time layout; the text is
    /// carried for diagnostics.
    Time(TimeParseError),
}

/// Mathematical image of an `ExtractError`.
#[verifier::ext_equal]
pub ghost enum ExtractErrorV {
    Structure(StructureError),
    Time(Seq<char>),
}

impl View for ExtractError {
    type V = ExtractErrorV;

    open spec fn view(&self) -> ExtractErrorV {
        match self {
            ExtractError::Structure(s) => ExtractErrorV::Structure(*s),
            ExtractError::Time(e) => ExtractErrorV::Time(e.text@),
        }
    }
}

/// The extraction walk. `cur` is the current header date: the most
/// recently seen header's parsed date, cleared again by a header with
/// no date text. Every fixture row needs a current date and two
/// non-empty team texts; the first anomaly aborts the whole walk.
pub open spec fn run_extract(nodes: Seq<NodeV>, cur: Option<MatchTime>, off: int) -> Result<
    Seq<MatchV>,
    ExtractErrorV,
>
    decreases nodes.len(),
{
    if nodes.len() == 0 {
        Ok(Seq::empty())
    } else {
        match nodes[0] {
            NodeV::Header(None) => run_extract(nodes.skip(1), None, off),
            NodeV::Header(Some(text)) => match parse_time_spec(text, off) {
                Some(t) => run_extract(nodes.skip(1), Some(t), off),
                None => Err(ExtractErrorV::Time(text)),
            },
            NodeV::Fixture { home, away } => match cur {
                None => Err(ExtractErrorV::Structure(StructureError::NoDateForMatch)),
                Some(t) => match (home, away) {
                    (Some(h), Some(a)) => {
                        if h.len() == 0 {
                            Err(ExtractErrorV::Structure(StructureError::MissingOrEmptyHomeTeam))
                        } else if a.len() == 0 {
                            Err(ExtractErrorV::Structure(StructureError::MissingOrEmptyAwayTeam))
                        } else {
                            match run_extract(nodes.skip(1), cur, off) {
                                Ok(rest) => Ok(seq![MatchV { home: h, away: a, time: t }] + rest),
                                Err(e) => Err(e),
                            }
                        }
                    },
                    (None, _) => Err(
                        ExtractErrorV::Structure(StructureError::MissingOrEmptyHomeTeam),
                    ),
                    (_, None) => Err(
                        ExtractErrorV::Structure(StructureError::MissingOrEmptyAwayTeam),
                    ),
                },
            },
        }
    }
}

/// Prefixing a walk's outcome with already-emitted matches.
pub open spec fn prepend_matches(pre: Seq<MatchV>, r: Result<Seq<MatchV>, ExtractErrorV>) -> Result<
    Seq<MatchV>,
    ExtractErrorV,
> {
    match r {
        Ok(s) => Ok(pre + s),
        Err(e) => Err(e),
    }
}

/// Runs the extraction walk over a flattened node sequence.
pub fn extract_matches(nodes: &Vec<Node>, offset_seconds: i32) -> (r: Result<
    Vec<Match>,
    ExtractError,
>)
    requires
        valid_offset_seconds(offset_seconds as int),
    ensures
        r matches Ok(ms) ==> run_extract(nodes_view(nodes@), None, offset_seconds as int) == Ok::<
            Seq<MatchV>,
            ExtractErrorV,
        >(matches_view(ms@)),
        r matches Err(e) ==> run_extract(nodes_view(nodes@), None, offset_seconds as int) == Err::<
            Seq<MatchV>,
            ExtractErrorV,
        >(e@),
{
    let off = offset_seconds;
    let ghost nv: Seq<NodeV> = nodes_view(nodes@);
    let mut acc: Vec<Match> = Vec::new();
    let mut cur: Option<MatchTime> = None;
    let mut i: usize = 0;
    proof {
        assert(matches_view(acc@) =~= Seq::<MatchV>::empty());
        assert(nv.skip(0) =~= nv);
        match run_extract(nv, None, off as int) {
            Ok(s) => {
                assert(matches_view(acc@) + s =~= s);
            },
            Err(_) => {},
        }
    }
    while i < nodes.len()
        invariant
            valid_offset_seconds(off as int),
            off == offset_seconds,
            nv == nodes_view(nodes@),
            i <= nodes.len(),
            nodes@.len() == nv.len(),
            cur matches Some(t) ==> t.valid(),
            prepend_matches(matches_view(acc@), run_extract(nv.skip(i as int), cur, off as int))
                == run_extract(nv, None, off as int),
        decreases nodes.len() - i,
    {
        let ghost pre_cur: Option<MatchTime> = cur;
        proof {
            assert(nv.skip(i as int)[0] == nv[i as int]);
            assert(nv.skip(i as int).skip(1) =~= nv.skip(i as int + 1));
            assert(nv[i as int] == nodes@[i as int]@);
        }
        match &nodes[i] {
            Node::Header(None) => {
                cur = None;
            },
            Node::Header(Some(text)) => {
                let ghost tv: Seq<char> = text@;
                match parse_time(text.as_str(), off) {
                    Ok(t) => {
                        proof {
                            crate::timeparse::lemma_parse_time_spec_valid(tv, off as int);
                        }
                        cur = Some(t);
                    },
                    Err(e) => {
                        proof {
                            assert(run_extract(nv.skip(i as int), pre_cur, off as int) == Err::<
                                Seq<MatchV>,
                                ExtractErrorV,
                            >(ExtractErrorV::Time(tv)));
                        }
                        return Err(ExtractError::Time(e));
                    },
                }
            },
            Node::Fixture { home, away } => {
                match cur {
                    None => {
                        proof {
                            assert(run_extract(nv.skip(i as int), pre_cur, off as int) == Err::<
                                Seq<MatchV>,
                                ExtractErrorV,
                            >(ExtractErrorV::Structure(StructureError::NoDateForMatch)));
                        }
                        return Err(ExtractError::Structure(StructureError::NoDateForMatch));
                    },
                    Some(t) => {
                        let home_team: String = match home {
                            None => {
                                return Err(
                                    ExtractError::Structure(
                                        StructureError::MissingOrEmptyHomeTeam,
                                    ),
                                );
                            },
                            Some(h) => h.clone(),
                        };
                        let away_team: String = match away {
                            None => {
                                return Err(
                                    ExtractError::Structure(
                                        StructureError::MissingOrEmptyAwayTeam,
                                    ),
                                );
                            },
                            Some(a) => a.clone(),
                        };
                        if home_team.as_str().is_empty() {
                            return Err(
                                ExtractError::Structure(StructureError::MissingOrEmptyHomeTeam),
                            );
                        }
                        if away_team.as_str().is_empty() {
                            return Err(
                                ExtractError::Structure(StructureError::MissingOrEmptyAwayTeam),
                            );
                        }
                        let ghost hv: Seq<char> = home_team@;
                        let ghost av: Seq<char> = away_team@;
                        let ghost pre_acc: Seq<Match> = acc@;
                        match Match::new(home_team, away_team, t) {
                            Some(m) => {
                                let ghost mv: MatchV = m@;
                                acc.push(m);
                                proof {
                                    assert(mv =~= MatchV { home: hv, away: av, time: t });
                                    assert(matches_view(acc@) =~= matches_view(pre_acc)
                                        + seq![mv]);
                                    match run_extract(nv.skip(i as int + 1), cur, off as int) {
                                        Ok(ms) => {
                                            assert(matches_view(pre_acc) + (seq![mv] + ms)
                                                =~= matches_view(acc@) + ms);
                                        },
                                        Err(_) => {},
                                    }
                                }
                            },
                            None => {
                                proof {
                                    assert(false);
                                }
                                return Err(
                                    ExtractError::Structure(
                                        StructureError::MissingOrEmptyHomeTeam,
                                    ),
                                );
                            },
                        }
                    },
                }
            },
        }
        i = i + 1;
    }
    proof {
        assert(nv.skip(i as int) =~= Seq::<NodeV>::empty());
        assert(run_extract(nv.skip(i as int), cur, off as int) == Ok::<
            Seq<MatchV>,
            ExtractErrorV,
        >(Seq::<MatchV>::empty()));
        assert(matches_view(acc@) + Seq::<MatchV>::empty() =~= matches_view(acc@));
    }
    Ok(acc)
}

/// Every match an extraction walk emits is well formed: the teams are
/// non-empty and the time came from the parser, so it is valid.
pub proof fn lemma_run_extract_wf(
    nodes: Seq<NodeV>,
    cur: Option<MatchTime>,
    off: int,
    ms: Seq<MatchV>,
)
    requires
        valid_offset_seconds(off),
        cur matches Some(t) ==> t.valid(),
        run_extract(nodes, cur, off) == Ok::<Seq<MatchV>, ExtractErrorV>(ms),
    ensures
        forall|i: int| 0 <= i < ms.len() ==> match_wf(#[trigger] ms[i]),
    decreases nodes.len(),
{
    if nodes.len() == 0 {
    } else {
        match nodes[0] {
            NodeV::Header(None) => {
                lemma_run_extract_wf(nodes.skip(1), None, off, ms);
            },
            NodeV::Header(Some(text)) => {
                match parse_time_spec(text, off) {
                    Some(t) => {
                        crate::timeparse::lemma_parse_time_spec_valid(text, off);
                        lemma_run_extract_wf(nodes.skip(1), Some(t), off, ms);
                    },
                    None => {},
                }
            },
            NodeV::Fixture { home, away } => {
                match cur {
                    None => {},
                    Some(t) => {
                        if home matches Some(h) && away matches Some(a) && h.len() > 0 && a.len()
                            > 0 {
                            let rest = run_extract(nodes.skip(1), cur, off);
                            match rest {
                                Ok(rs) => {
                                    lemma_run_extract_wf(nodes.skip(1), cur, off, rs);
                                    assert(forall|i: int|
                                        1 <= i < ms.len() ==> ms[i] == rs[i - 1]);
                                },
                                Err(_) => {},
                            }
                        }
                    },
                }
            },
        }
    }
}

} // verus!
