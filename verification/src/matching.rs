//! What a composed query means: which places meet it.
//!
//! Nothing here runs. The definitions say what the index is asked for, and
//! the lemmas show that a query composed from a request asks for what the
//! request describes.

use crate::geo::{MapBbox, MapPoint};
use crate::index::{
    bbox_clauses, composed_clauses, id_terms, lowercase_tags, mandatory_tags, one_of, optional,
    tag_terms, text_clause, text_terms, ClauseView, CoordField, IndexQueryView, Occur, RangeBound,
    SubQueryView, TermView,
};
use crate::category::tags_of_uids;
use vstd::prelude::*;

verus! {

/// What the index knows of a place, as far as a query can ask.
pub struct IndexedDoc {
    pub id: Seq<char>,
    pub pos: MapPoint,
    /// The tags of the place, in lower case.
    pub tags: Set<Seq<char>>,
    /// The free texts that match what is written about the place.
    pub texts: Set<Seq<char>>,
}

/// Whether a number lies above a lower bound.
pub open spec fn above(x: int, lower: RangeBound) -> bool {
    match lower {
        RangeBound::Included(b) => b <= x,
        RangeBound::Excluded(b) => b < x,
    }
}

/// Whether a number lies below an upper bound.
pub open spec fn below(x: int, upper: RangeBound) -> bool {
    match upper {
        RangeBound::Included(b) => x <= b,
        RangeBound::Excluded(b) => x < b,
    }
}

/// Whether a place meets a term.
pub open spec fn term_matches(doc: IndexedDoc, term: TermView) -> bool {
    match term {
        TermView::Id(id) => doc.id == id,
        TermView::Tag(tag) => doc.tags.contains(tag),
        TermView::Range { field, lower, upper } => {
            let x = match field {
                CoordField::Lat => doc.pos.lat.raw as int,
                CoordField::Lng => doc.pos.lng.raw as int,
            };
            above(x, lower) && below(x, upper)
        },
        TermView::Text(text) => doc.texts.contains(text),
    }
}

/// Whether a place meets what a clause asks for.
pub open spec fn sub_query_matches(doc: IndexedDoc, query: SubQueryView) -> bool {
    match query {
        SubQueryView::One(term) => term_matches(doc, term),
        SubQueryView::AnyOf(terms) => exists|i: int|
            0 <= i < terms.len() && term_matches(doc, #[trigger] terms[i]),
    }
}

/// Whether a clause lets a place pass.
pub open spec fn clause_holds(doc: IndexedDoc, clause: ClauseView) -> bool {
    match clause.occur {
        Occur::Must => sub_query_matches(doc, clause.query),
        Occur::MustNot => !sub_query_matches(doc, clause.query),
        Occur::Should => true,
    }
}

/// Whether a place is found by a Boolean query: every clause lets it pass.
pub open spec fn clauses_match(doc: IndexedDoc, clauses: Seq<ClauseView>) -> bool {
    forall|i: int| 0 <= i < clauses.len() ==> clause_holds(doc, #[trigger] clauses[i])
}

/// A place is found by two lists of clauses put together exactly when it
/// is found by each.
pub proof fn lemma_match_concat(doc: IndexedDoc, a: Seq<ClauseView>, b: Seq<ClauseView>)
    ensures
        clauses_match(doc, a + b) == (clauses_match(doc, a) && clauses_match(doc, b)),
{
    if clauses_match(doc, a + b) {
        assert forall|i: int| 0 <= i < a.len() implies clause_holds(doc, #[trigger] a[i]) by {
            assert((a + b)[i] == a[i]);
        }
        assert forall|i: int| 0 <= i < b.len() implies clause_holds(doc, #[trigger] b[i]) by {
            assert((a + b)[a.len() + i] == b[i]);
        }
    }
    if clauses_match(doc, a) && clauses_match(doc, b) {
        assert forall|i: int| 0 <= i < (a + b).len() implies clause_holds(
            doc,
            #[trigger] (a + b)[i],
        ) by {
            if i < a.len() {
                assert((a + b)[i] == a[i]);
            } else {
                assert((a + b)[i] == b[i - a.len()]);
            }
        }
    }
}

/// The two clauses that include a rectangle find exactly the places inside
/// it or on its edges, whether it wraps or not.
pub proof fn lemma_include_bbox(doc: IndexedDoc, b: MapBbox)
    ensures
        clauses_match(doc, bbox_clauses(Some(b), true)) == b.contains(doc.pos),
{
    let clauses = bbox_clauses(Some(b), true);
    assert(clauses.len() == 2);
    if clauses_match(doc, clauses) {
        assert(clause_holds(doc, clauses[0]));
        assert(clause_holds(doc, clauses[1]));
    }
}

/// A place that the two clauses that exclude a rectangle let pass lies
/// outside it: its latitude is outside the rectangle's range.
pub proof fn lemma_exclude_bbox(doc: IndexedDoc, b: MapBbox)
    ensures
        clauses_match(doc, bbox_clauses(Some(b), false)) ==> !b.contains(doc.pos),
        clauses_match(doc, bbox_clauses(Some(b), false)) == (!(b.south_west.lat.raw
            <= doc.pos.lat.raw <= b.north_east.lat.raw) && !crate::geo::lng_between(
            b.south_west.lng.raw as int,
            b.north_east.lng.raw as int,
            doc.pos.lng.raw as int,
        )),
{
    let clauses = bbox_clauses(Some(b), false);
    assert(clauses.len() == 2);
    if clauses_match(doc, clauses) {
        assert(clause_holds(doc, clauses[0]));
        assert(clause_holds(doc, clauses[1]));
    }
}

/// The parts of which the query for a request is composed each hold of a
/// place that the query finds.
pub proof fn lemma_match_parts(doc: IndexedDoc, q: IndexQueryView, text_parsed: bool)
    requires
        clauses_match(doc, composed_clauses(q, text_parsed)),
    ensures
        clauses_match(doc, optional(one_of(id_terms(q.ids)))),
        clauses_match(doc, bbox_clauses(q.include_bbox, true)),
        clauses_match(doc, bbox_clauses(q.exclude_bbox, false)),
        clauses_match(doc, optional(one_of(tag_terms(tags_of_uids(q.categories))))),
        clauses_match(doc, mandatory_tags(lowercase_tags(q.hash_tags))),
        clauses_match(
            doc,
            optional(text_clause(text_terms(q.text, text_parsed, q.text_tags))),
        ),
{
    let a = optional(one_of(id_terms(q.ids)));
    let b = bbox_clauses(q.include_bbox, true);
    let c = bbox_clauses(q.exclude_bbox, false);
    let d = optional(one_of(tag_terms(tags_of_uids(q.categories))));
    let e = mandatory_tags(lowercase_tags(q.hash_tags));
    let f = optional(text_clause(text_terms(q.text, text_parsed, q.text_tags)));
    lemma_match_concat(doc, a + b + c + d + e, f);
    lemma_match_concat(doc, a + b + c + d, e);
    lemma_match_concat(doc, a + b + c, d);
    lemma_match_concat(doc, a + b, c);
    lemma_match_concat(doc, a, b);
}

/// Every place that a query finds lies inside the rectangle that the
/// request includes, or on its edges.
pub proof fn lemma_found_inside_included(
    doc: IndexedDoc,
    q: IndexQueryView,
    text_parsed: bool,
    b: MapBbox,
)
    requires
        q.include_bbox == Some(b),
        clauses_match(doc, composed_clauses(q, text_parsed)),
    ensures
        b.contains(doc.pos),
{
    lemma_match_parts(doc, q, text_parsed);
    lemma_include_bbox(doc, b);
}

/// No place that a query finds lies inside the rectangle that the request
/// excludes.
pub proof fn lemma_found_outside_excluded(
    doc: IndexedDoc,
    q: IndexQueryView,
    text_parsed: bool,
    b: MapBbox,
)
    requires
        q.exclude_bbox == Some(b),
        clauses_match(doc, composed_clauses(q, text_parsed)),
    ensures
        !b.contains(doc.pos),
{
    lemma_match_parts(doc, q, text_parsed);
    lemma_exclude_bbox(doc, b);
}

/// Where a request names identifiers, every place that the query finds has
/// one of them.
pub proof fn lemma_found_has_id(doc: IndexedDoc, q: IndexQueryView, text_parsed: bool)
    requires
        q.ids.len() > 0,
        clauses_match(doc, composed_clauses(q, text_parsed)),
    ensures
        q.ids.contains(doc.id),
{
    lemma_match_parts(doc, q, text_parsed);
    let part = optional(one_of(id_terms(q.ids)));
    assert(clause_holds(doc, part[0]));
    if q.ids.len() == 1 {
        assert(q.ids[0] == doc.id);
    } else {
        let i = choose|i: int|
            0 <= i < id_terms(q.ids).len() && term_matches(doc, #[trigger] id_terms(q.ids)[i]);
        assert(q.ids[i] == doc.id);
    }
}

/// Every place that a query finds has each tag of the request, compared
/// in lower case.
pub proof fn lemma_found_has_tags(
    doc: IndexedDoc,
    q: IndexQueryView,
    text_parsed: bool,
    i: int,
)
    requires
        0 <= i < lowercase_tags(q.hash_tags).len(),
        clauses_match(doc, composed_clauses(q, text_parsed)),
    ensures
        doc.tags.contains(lowercase_tags(q.hash_tags)[i]),
{
    lemma_match_parts(doc, q, text_parsed);
    let part = mandatory_tags(lowercase_tags(q.hash_tags));
    assert(clause_holds(doc, part[i]));
}

/// Where a request names categories that exist, every place that the
/// query finds has the tag of one of them.
pub proof fn lemma_found_has_category(doc: IndexedDoc, q: IndexQueryView, text_parsed: bool)
    requires
        tags_of_uids(q.categories).len() > 0,
        clauses_match(doc, composed_clauses(q, text_parsed)),
    ensures
        exists|i: int|
            0 <= i < tags_of_uids(q.categories).len() && doc.tags.contains(
                #[trigger] tags_of_uids(q.categories)[i],
            ),
{
    lemma_match_parts(doc, q, text_parsed);
    let tags = tags_of_uids(q.categories);
    let part = optional(one_of(tag_terms(tags)));
    assert(clause_holds(doc, part[0]));
    if tags.len() == 1 {
        assert(doc.tags.contains(tags[0]));
    } else {
        let i = choose|i: int|
            0 <= i < tag_terms(tags).len() && term_matches(doc, #[trigger] tag_terms(tags)[i]);
        assert(doc.tags.contains(tags[i]));
    }
}

/// Every place that is found around the part of the map that a user sees
/// lies in the extended rectangle, and outside the rectangle itself.
pub proof fn lemma_found_around(doc: IndexedDoc, q: IndexQueryView, text_parsed: bool, b: MapBbox)
    requires
        b.valid(),
        q.include_bbox == Some(b),
        clauses_match(doc, composed_clauses(crate::search::invisible_query(q), text_parsed)),
    ensures
        crate::geo::extended(b).contains(doc.pos),
        !b.contains(doc.pos),
{
    let around = crate::search::invisible_query(q);
    lemma_found_inside_included(doc, around, text_parsed, crate::geo::extended(b));
    lemma_found_outside_excluded(doc, around, text_parsed, b);
}

} // verus!
