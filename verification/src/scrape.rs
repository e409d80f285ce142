//! Flattening a fixture document into typed nodes, and extraction over
//! them.
//!
//! The document itself is opaque markup handled by the HTML engine;
//! everything this module decides — which elements are headers, which
//! are fixture rows, which sub-element carries which text — is ordinary
//! verified code around narrow trusted calls into that engine.
use vstd::prelude::*;

use crate::dates::valid_offset_seconds;
use crate::matches::{
    extract_matches, lemma_run_extract_wf, match_wf, matches_view, nodes_view, run_extract,
    ExtractError, Match, MatchV, Node, NodeV, StructureError,
};

verus! {

#[verifier::external_type_specification]
#[verifier::external_body]
pub struct ExHtml(scraper::Html);

#[verifier::external_type_specification]
#[verifier::external_body]
pub struct ExSelector(scraper::Selector);

#[verifier::external_type_specification]
#[verifier::external_body]
pub struct ExElementRef<'a>(scraper::ElementRef<'a>);

/// Whether the text is a valid CSS selector group; what
/// `scraper::Selector::parse` accepts.
pub uninterp spec fn selector_valid(s: Seq<char>) -> bool;

/// Relies on scraper::Selector::parse: it succeeds exactly on valid
/// CSS selector groups; the result depends on the text alone.
#[verifier::external_body]
fn parse_selector(s: &str) -> (r: Option<scraper::Selector>)
    ensures
        r is Some <==> selector_valid(s@),
{
    scraper::Selector::parse(s).ok()
}

/// Relies on scraper::Html::parse_document: it parses any input
/// without failing (bad markup yields a best-effort tree).
#[verifier::external_body]
fn parse_document(body: &str) -> scraper::Html {
    scraper::Html::parse_document(body)
}

/// Relies on scraper::Html::select: the elements matching the
/// selector, in document order.
#[verifier::external_body]
fn select_in_document<'a>(html: &'a scraper::Html, sel: &scraper::Selector) -> Vec<
    scraper::ElementRef<'a>,
> {
    html.select(sel).collect()
}

/// Relies on scraper::ElementRef::select: the descendant elements
/// matching the selector, in document order.
#[verifier::external_body]
fn select_in_element<'a>(el: &scraper::ElementRef<'a>, sel: &scraper::Selector) -> Vec<
    scraper::ElementRef<'a>,
> {
    el.select(sel).collect()
}

/// Relies on scraper::Selector::matches: whether the element matches
/// the selector.
#[verifier::external_body]
fn selector_matches(sel: &scraper::Selector, el: &scraper::ElementRef) -> bool {
    sel.matches(el)
}

/// Relies on scraper::ElementRef::text: the concatenation of all
/// descendant text nodes, in document order, with no separators.
#[verifier::external_body]
fn aggregate_text(el: &scraper::ElementRef) -> String {
    el.text().collect()
}

/// The fixed selectors of the fixture-list layout, compiled.
struct Selectors {
    module: scraper::Selector,
    match_or_head: scraper::Selector,
    is_match: scraper::Selector,
    head_date: scraper::Selector,
    home: scraper::Selector,
    away: scraper::Selector,
}

/// Compiles the layout's selectors. They are fixed valid CSS, so this
/// fails only if the selector engine rejects one of them.
fn build_selectors() -> Option<Selectors> {
    let module = parse_selector("div.module-gameplan");
    let match_or_head = parse_selector("div.match,div.hs-head");
    let is_match = parse_selector("div.match");
    let head_date = parse_selector("div.match-date");
    let home = parse_selector("div.team-name.team-name-home");
    let away = parse_selector("div.team-name.team-name-away");
    match (module, match_or_head, is_match, head_date, home, away) {
        (Some(m), Some(mh), Some(im), Some(hd), Some(h), Some(a)) => Some(
            Selectors {
                module: m,
                match_or_head: mh,
                is_match: im,
                head_date: hd,
                home: h,
                away: a,
            },
        ),
        _ => None,
    }
}

/// The concatenated text of the first descendant matching `sel`, or
/// nothing when no descendant matches.
fn first_text(el: &scraper::ElementRef, sel: &scraper::Selector) -> Option<String> {
    let found = select_in_element(el, sel);
    if found.len() == 0 {
        None
    } else {
        Some(aggregate_text(&found[0]))
    }
}

/// Flattens a document to its fixture-or-header nodes: the direct
/// fixture-list members of the single expected container, classified
/// and reduced to their texts. Fails when the container is absent.
fn scan_document(body: &str) -> (r: Result<Vec<Node>, ExtractError>) {
    let sels = match build_selectors() {
        Some(s) => s,
        None => {
            return Err(ExtractError::Structure(StructureError::BadSelector));
        },
    };
    let html = parse_document(body);
    let containers = select_in_document(&html, &sels.module);
    if containers.len() == 0 {
        return Err(ExtractError::Structure(StructureError::MissingContainer));
    }
    let elems = select_in_element(&containers[0], &sels.match_or_head);
    let mut nodes: Vec<Node> = Vec::new();
    let mut i: usize = 0;
    while i < elems.len()
        decreases elems@.len() - i,
    {
        let e = &elems[i];
        if selector_matches(&sels.is_match, e) {
            let home = first_text(e, &sels.home);
            let away = first_text(e, &sels.away);
            nodes.push(Node::Fixture { home, away });
        } else {
            nodes.push(Node::Header(first_text(e, &sels.head_date)));
        }
        i = i + 1;
    }
    Ok(nodes)
}

/// Extracts the ordered match records of one document: flattens its
/// fixture list and runs the extraction walk. Whatever node sequence
/// the document flattened to, the result is exactly that walk's
/// outcome, and every record it yields is well formed.
pub fn get_games(body: &str, offset_seconds: i32) -> (r: Result<Vec<Match>, ExtractError>)
    requires
        valid_offset_seconds(offset_seconds as int),
    ensures
        r matches Ok(ms) ==> exists|nodes: Seq<NodeV>|
            run_extract(nodes, None, offset_seconds as int) == Ok::<_, crate::matches::ExtractErrorV>(
                matches_view(ms@),
            ),
        r matches Ok(ms) ==> forall|i: int|
            0 <= i < ms@.len() ==> match_wf(#[trigger] matches_view(ms@)[i]),
{
    let nodes = match scan_document(body) {
        Ok(ns) => ns,
        Err(e) => {
            return Err(e);
        },
    };
    let r = extract_matches(&nodes, offset_seconds);
    proof {
        match &r {
            Ok(ms) => {
                assert(run_extract(nodes_view(nodes@), None, offset_seconds as int) == Ok::<
                    Seq<MatchV>,
                    crate::matches::ExtractErrorV,
                >(matches_view(ms@)));
                lemma_run_extract_wf(
                    nodes_view(nodes@),
                    None,
                    offset_seconds as int,
                    matches_view(ms@),
                );
            },
            Err(_) => {},
        }
    }
    r
}

} // verus!
