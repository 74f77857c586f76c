//! The search index as the library sees it: what is asked of it, the
//! Boolean query that is composed from a request, and what is stored for a
//! place.

use crate::category::{tags_of_uids, Category};
use crate::entities::{Place, PlaceView};
use crate::geo::{MapBbox, MapPoint};
use crate::text::{add_unique, lowercase_of, push_unique};
use vstd::prelude::*;

verus! {

/// What is asked of the index.
#[derive(Debug, PartialEq, Eq)]
pub struct IndexQuery {
    /// Only places inside this rectangle are wanted.
    pub include_bbox: Option<MapBbox>,
    /// Places in this rectangle are not wanted.
    pub exclude_bbox: Option<MapBbox>,
    /// Identifiers of categories, of which a place must have one.
    pub categories: Vec<String>,
    /// Identifiers of places, of which a place must have one.
    pub ids: Vec<String>,
    /// Tags, of which a place must have each.
    pub hash_tags: Vec<String>,
    /// Words of the free text, which count where a place has them as tags.
    pub text_tags: Vec<String>,
    /// Free text that is looked for in what is written about a place.
    pub text: Option<String>,
}

pub struct IndexQueryView {
    pub include_bbox: Option<MapBbox>,
    pub exclude_bbox: Option<MapBbox>,
    pub categories: Seq<Seq<char>>,
    pub ids: Seq<Seq<char>>,
    pub hash_tags: Seq<Seq<char>>,
    pub text_tags: Seq<Seq<char>>,
    pub text: Option<Seq<char>>,
}

impl View for IndexQuery {
    type V = IndexQueryView;

    open spec fn view(&self) -> IndexQueryView {
        IndexQueryView {
            include_bbox: self.include_bbox,
            exclude_bbox: self.exclude_bbox,
            categories: self.categories.deep_view(),
            ids: self.ids.deep_view(),
            hash_tags: self.hash_tags.deep_view(),
            text_tags: self.text_tags.deep_view(),
            text: self.text.deep_view(),
        }
    }
}

impl Clone for IndexQuery {
    fn clone(&self) -> (r: IndexQuery)
        ensures
            r@ == self@,
    {
        IndexQuery {
            include_bbox: self.include_bbox,
            exclude_bbox: self.exclude_bbox,
            categories: self.categories.clone(),
            ids: self.ids.clone(),
            hash_tags: self.hash_tags.clone(),
            text_tags: self.text_tags.clone(),
            text: self.text.clone(),
        }
    }
}

impl Default for IndexQuery {
    /// The query that asks for every place.
    fn default() -> (r: IndexQuery)
        ensures
            r@ == (IndexQueryView {
                include_bbox: None,
                exclude_bbox: None,
                categories: Seq::empty(),
                ids: Seq::empty(),
                hash_tags: Seq::empty(),
                text_tags: Seq::empty(),
                text: None,
            }),
    {
        let r = IndexQuery {
            include_bbox: None,
            exclude_bbox: None,
            categories: Vec::new(),
            ids: Vec::new(),
            hash_tags: Vec::new(),
            text_tags: Vec::new(),
            text: None,
        };
        assert(r.categories.deep_view() == Seq::<Seq<char>>::empty());
        assert(r.ids.deep_view() == Seq::<Seq<char>>::empty());
        assert(r.hash_tags.deep_view() == Seq::<Seq<char>>::empty());
        assert(r.text_tags.deep_view() == Seq::<Seq<char>>::empty());
        r
    }
}

/// The average ratings of a place as the index stores them: each average
/// mapped linearly from the range of rating values onto the range of `u64`.
#[derive(Clone, Copy, Debug, PartialEq, Eq, Structural)]
pub struct IndexedRatings {
    pub total: u64,
    pub diversity: u64,
    pub fairness: u64,
    pub humanity: u64,
    pub renewable: u64,
    pub solidarity: u64,
    pub transparency: u64,
}

/// What the index hands out of a place that it has found.
#[derive(Debug, PartialEq, Eq)]
pub struct IndexedPlace {
    pub id: String,
    pub pos: MapPoint,
    pub title: String,
    pub description: String,
    pub tags: Vec<String>,
    pub ratings: IndexedRatings,
}

pub struct IndexedPlaceView {
    pub id: Seq<char>,
    pub pos: MapPoint,
    pub title: Seq<char>,
    pub description: Seq<char>,
    pub tags: Seq<Seq<char>>,
    pub ratings: IndexedRatings,
}

impl View for IndexedPlace {
    type V = IndexedPlaceView;

    open spec fn view(&self) -> IndexedPlaceView {
        IndexedPlaceView {
            id: self.id@,
            pos: self.pos,
            title: self.title@,
            description: self.description@,
            tags: self.tags.deep_view(),
            ratings: self.ratings,
        }
    }
}

impl DeepView for IndexedPlace {
    type V = IndexedPlaceView;

    open spec fn deep_view(&self) -> IndexedPlaceView {
        self@
    }
}

/// A failure of the index, with a description of its cause.
#[derive(Debug, PartialEq, Eq)]
pub struct IndexError {
    pub message: String,
}

/// What an index says when it is asked for no place at all.
pub const INVALID_LIMIT: &'static str = "Invalid limit: 0";

/// Whether an index can be asked for `limit` places: it can for one place
/// at least. An index refuses what does not pass here before it looks
/// for anything.
pub fn check_limit(limit: usize) -> (r: Result<(), IndexError>)
    ensures
        r is Ok <==> limit > 0,
        r matches Err(e) ==> e.message@ == INVALID_LIMIT@,
{
    if limit > 0 {
        Ok(())
    } else {
        Err(IndexError { message: INVALID_LIMIT.to_owned() })
    }
}

/// What an index says when it is asked for places: the places that it has
/// found, or the description of a failure.
pub open spec fn answer_of(r: Result<Vec<IndexedPlace>, IndexError>) -> Result<
    Seq<IndexedPlaceView>,
    Seq<char>,
> {
    match r {
        Ok(places) => Ok(places.deep_view()),
        Err(e) => Err(e.message@),
    }
}

/// An index that answers queries.
pub trait PlaceIndex {
    /// Whether `answer` is something that the index may say when it is
    /// asked `query` for `limit` places. Each index says for itself what
    /// its answers are; one that does not may say anything.
    open spec fn may_answer(
        &self,
        query: IndexQueryView,
        limit: usize,
        answer: Result<Seq<IndexedPlaceView>, Seq<char>>,
    ) -> bool {
        true
    }

    /// At most `limit` of the places that the query asks for, the best
    /// first.
    fn query_places(&self, query: &IndexQuery, limit: usize) -> (r: Result<
        Vec<IndexedPlace>,
        IndexError,
    >)
        ensures
            self.may_answer(query@, limit, answer_of(r)),
    ;
}

/// Something that an index is asked to do.
pub enum IndexRequest {
    /// To take up a place with its ratings, in the stead of what it holds
    /// under the same identifier.
    Put { place: PlaceView, ratings: IndexedRatings },
    /// To give up the place with an identifier.
    Remove { id: Seq<char> },
    /// To make visible what it was asked before.
    Flush,
}

/// An index that takes up places.
pub trait PlaceIndexer {
    /// Whether the index may be as it is once it was as `before` and has
    /// been asked `request`, whether it could do as it was asked or not.
    /// Each index says for itself what its requests do to it; of one that
    /// does not anything may follow.
    open spec fn may_follow(&self, before: &Self, request: IndexRequest) -> bool {
        true
    }

    /// Puts a place into the index, in the stead of what the index holds
    /// under the same identifier.
    fn add_or_update_place(&mut self, place: &Place, ratings: &IndexedRatings) -> (r: Result<
        (),
        IndexError,
    >)
        ensures
            final(self).may_follow(old(self), IndexRequest::Put { place: place@, ratings: *ratings }),
    ;

    /// Takes the place with the given identifier out of the index.
    fn remove_place_by_id(&mut self, id: &str) -> (r: Result<(), IndexError>)
        ensures
            final(self).may_follow(old(self), IndexRequest::Remove { id: id@ }),
    ;

    /// Makes everything done so far visible to queries.
    fn flush(&mut self) -> (r: Result<(), IndexError>)
        ensures
            final(self).may_follow(old(self), IndexRequest::Flush),
    ;
}

/// Whether an index that was as `before` may be as `after` once it has
/// been asked `requests`, one after the other, and nothing else.
pub open spec fn led_to<I: PlaceIndexer>(
    before: I,
    requests: Seq<IndexRequest>,
    after: I,
) -> bool
    decreases requests.len(),
{
    if requests.len() == 0 {
        after == before
    } else {
        exists|mid: I|
            led_to(before, requests.drop_last(), mid) && #[trigger] after.may_follow(
                &mid,
                requests.last(),
            )
    }
}

/// One more request leads on from where the requests before it have led.
pub proof fn lemma_led_on<I: PlaceIndexer>(
    before: I,
    requests: Seq<IndexRequest>,
    mid: I,
    request: IndexRequest,
    after: I,
)
    requires
        led_to(before, requests, mid),
        after.may_follow(&mid, request),
    ensures
        led_to(before, requests.push(request), after),
{
    let all = requests.push(request);
    assert(all.drop_last() == requests);
    assert(all.last() == request);
    assert(led_to(before, all.drop_last(), mid) && after.may_follow(&mid, all.last()));
}

/// How a clause of a Boolean query counts.
#[derive(Clone, Copy, Debug, PartialEq, Eq, Structural)]
pub enum Occur {
    /// A place must meet the clause.
    Must,
    /// A place that meets the clause scores higher.
    Should,
    /// A place must not meet the clause.
    MustNot,
}

/// One end of a range of numbers.
#[derive(Clone, Copy, Debug, PartialEq, Eq, Structural)]
pub enum RangeBound {
    Included(i64),
    Excluded(i64),
}

/// The two numeric fields of a place in the index.
#[derive(Clone, Copy, Debug, PartialEq, Eq, Structural)]
pub enum CoordField {
    Lat,
    Lng,
}

/// A condition on one field of a place.
#[derive(Debug, PartialEq, Eq)]
pub enum Term {
    /// The place has exactly this identifier.
    Id(String),
    /// The place has exactly this tag, compared in lower case.
    Tag(String),
    /// A coordinate of the place lies between the two bounds.
    Range { field: CoordField, lower: RangeBound, upper: RangeBound },
    /// The text, parsed as a query, matches the place's title, description
    /// or address.
    Text(String),
}

pub enum TermView {
    Id(Seq<char>),
    Tag(Seq<char>),
    Range { field: CoordField, lower: RangeBound, upper: RangeBound },
    Text(Seq<char>),
}

impl View for Term {
    type V = TermView;

    open spec fn view(&self) -> TermView {
        match self {
            Term::Id(s) => TermView::Id(s@),
            Term::Tag(s) => TermView::Tag(s@),
            Term::Range { field, lower, upper } => TermView::Range {
                field: *field,
                lower: *lower,
                upper: *upper,
            },
            Term::Text(s) => TermView::Text(s@),
        }
    }
}

impl DeepView for Term {
    type V = TermView;

    open spec fn deep_view(&self) -> TermView {
        self@
    }
}

/// What a clause asks for: one term, or any of several.
#[derive(Debug, PartialEq, Eq)]
pub enum SubQuery {
    One(Term),
    AnyOf(Vec<Term>),
}

pub enum SubQueryView {
    One(TermView),
    AnyOf(Seq<TermView>),
}

impl View for SubQuery {
    type V = SubQueryView;

    open spec fn view(&self) -> SubQueryView {
        match self {
            SubQuery::One(t) => SubQueryView::One(t@),
            SubQuery::AnyOf(ts) => SubQueryView::AnyOf(ts.deep_view()),
        }
    }
}

/// One clause of a Boolean query.
#[derive(Debug, PartialEq, Eq)]
pub struct Clause {
    pub occur: Occur,
    pub query: SubQuery,
}

pub struct ClauseView {
    pub occur: Occur,
    pub query: SubQueryView,
}

impl View for Clause {
    type V = ClauseView;

    open spec fn view(&self) -> ClauseView {
        ClauseView { occur: self.occur, query: self.query@ }
    }
}

impl DeepView for Clause {
    type V = ClauseView;

    open spec fn deep_view(&self) -> ClauseView {
        self@
    }
}

/// How the places that a query finds are ordered.
#[derive(Clone, Copy, Debug, PartialEq, Eq, Structural)]
pub enum TopDocsMode {
    /// By their total rating alone, the best first.
    Rating,
    /// By how well they match the text, raised or lowered by their rating.
    ScoreBoostedByRating,
}

/// The list that holds `x` if there is one, and nothing else.
pub open spec fn optional<T>(x: Option<T>) -> Seq<T> {
    match x {
        Some(x) => seq![x],
        None => Seq::empty(),
    }
}

/// The clause that asks for one of the terms, if there are any: the term
/// itself where it is the only one.
pub open spec fn one_of(terms: Seq<TermView>) -> Option<ClauseView> {
    if terms.len() == 0 {
        None
    } else if terms.len() == 1 {
        Some(ClauseView { occur: Occur::Must, query: SubQueryView::One(terms[0]) })
    } else {
        Some(ClauseView { occur: Occur::Must, query: SubQueryView::AnyOf(terms) })
    }
}

/// The terms that ask for each of the given identifiers.
pub open spec fn id_terms(ids: Seq<Seq<char>>) -> Seq<TermView> {
    Seq::new(ids.len(), |i: int| TermView::Id(ids[i]))
}

/// The terms that ask for each of the given tags as they are.
pub open spec fn tag_terms(tags: Seq<Seq<char>>) -> Seq<TermView> {
    Seq::new(tags.len(), |i: int| TermView::Tag(tags[i]))
}

/// The inclusive range of latitudes of a rectangle.
pub open spec fn lat_range(b: MapBbox) -> TermView {
    TermView::Range {
        field: CoordField::Lat,
        lower: RangeBound::Included(b.south_west.lat.raw as i64),
        upper: RangeBound::Included(b.north_east.lat.raw as i64),
    }
}

/// The range of longitudes by which a rectangle is told from the rest of
/// its band of latitudes: for one that does not wrap, the inclusive range
/// of the longitudes inside it; for one that wraps, the open range of those
/// outside it.
pub open spec fn lng_range(b: MapBbox) -> TermView {
    if b.wraps() {
        TermView::Range {
            field: CoordField::Lng,
            lower: RangeBound::Excluded(b.north_east.lng.raw as i64),
            upper: RangeBound::Excluded(b.south_west.lng.raw as i64),
        }
    } else {
        TermView::Range {
            field: CoordField::Lng,
            lower: RangeBound::Included(b.south_west.lng.raw as i64),
            upper: RangeBound::Included(b.north_east.lng.raw as i64),
        }
    }
}

/// The opposite of `Must` is `MustNot`, and the other way round.
pub open spec fn opposite(o: Occur) -> Occur {
    match o {
        Occur::Must => Occur::MustNot,
        Occur::MustNot => Occur::Must,
        Occur::Should => Occur::Should,
    }
}

/// The two clauses that stand for a rectangle. To include it, places must
/// lie in its range of latitudes, and in its range of longitudes, or, where
/// it wraps, not in the open range outside. To exclude it, each of the two
/// clauses counts the opposite way.
pub open spec fn bbox_clauses(b: Option<MapBbox>, wanted: bool) -> Seq<ClauseView> {
    match b {
        None => Seq::empty(),
        Some(b) => {
            let inside = if wanted {
                Occur::Must
            } else {
                Occur::MustNot
            };
            seq![
                ClauseView { occur: inside, query: SubQueryView::One(lat_range(b)) },
                ClauseView {
                    occur: if b.wraps() {
                        opposite(inside)
                    } else {
                        inside
                    },
                    query: SubQueryView::One(lng_range(b)),
                },
            ]
        },
    }
}

/// The tags of a list in lower case, each once and none of them empty.
pub open spec fn lowercase_tags(tags: Seq<Seq<char>>) -> Seq<Seq<char>>
    decreases tags.len(),
{
    if tags.len() == 0 {
        Seq::empty()
    } else {
        add_unique(lowercase_tags(tags.drop_last()), lowercase_of(tags.last()))
    }
}

/// One mandatory clause for each of the tags.
pub open spec fn mandatory_tags(tags: Seq<Seq<char>>) -> Seq<ClauseView> {
    Seq::new(
        tags.len(),
        |i: int| ClauseView { occur: Occur::Must, query: SubQueryView::One(TermView::Tag(tags[i])) },
    )
}

/// The terms of the free text: the text itself in lower case, where there
/// is one and the index can parse it, and each word of it as a tag in lower
/// case.
pub open spec fn text_terms(
    text: Option<Seq<char>>,
    text_parsed: bool,
    text_tags: Seq<Seq<char>>,
) -> Seq<TermView> {
    let first = match text {
        Some(text) if text_parsed => seq![TermView::Text(lowercase_of(text))],
        _ => Seq::empty(),
    };
    first + Seq::new(text_tags.len(), |i: int| TermView::Tag(lowercase_of(text_tags[i])))
}

/// The mandatory clause that asks for any of the terms of the free text,
/// if there are any.
pub open spec fn text_clause(terms: Seq<TermView>) -> Option<ClauseView> {
    if terms.len() == 0 {
        None
    } else {
        Some(ClauseView { occur: Occur::Must, query: SubQueryView::AnyOf(terms) })
    }
}

/// The clauses of the Boolean query for a request, in their order: the
/// identifiers, the rectangle to include, the rectangle to exclude, the
/// categories, the tags, the free text.
pub open spec fn composed_clauses(q: IndexQueryView, text_parsed: bool) -> Seq<ClauseView> {
    optional(one_of(id_terms(q.ids))) + bbox_clauses(q.include_bbox, true) + bbox_clauses(
        q.exclude_bbox,
        false,
    ) + optional(one_of(tag_terms(tags_of_uids(q.categories)))) + mandatory_tags(
        lowercase_tags(q.hash_tags),
    ) + optional(text_clause(text_terms(q.text, text_parsed, q.text_tags)))
}

/// Places are ordered by their rating alone where the query has no term
/// of free text. Otherwise their rating raises or lowers the score of the
/// text.
pub open spec fn composed_mode(q: IndexQueryView, text_parsed: bool) -> TopDocsMode {
    if text_terms(q.text, text_parsed, q.text_tags).len() == 0 {
        TopDocsMode::Rating
    } else {
        TopDocsMode::ScoreBoostedByRating
    }
}

fn one_of_clause(terms: Vec<Term>) -> (r: Option<Clause>)
    ensures
        r.deep_view() == one_of(terms.deep_view()),
{
    let mut terms = terms;
    if terms.len() == 0 {
        None
    } else if terms.len() == 1 {
        let ghost before = terms.deep_view();
        let term = terms.pop().unwrap();
        assert(term@ == before[0]);
        Some(Clause { occur: Occur::Must, query: SubQuery::One(term) })
    } else {
        Some(Clause { occur: Occur::Must, query: SubQuery::AnyOf(terms) })
    }
}

fn id_term_list(ids: &Vec<String>) -> (out: Vec<Term>)
    ensures
        out.deep_view() == id_terms(ids.deep_view()),
{
    let mut out: Vec<Term> = Vec::new();
    let mut i: usize = 0;
    while i < ids.len()
        invariant
            i <= ids.len(),
            out.len() == i,
            forall|j: int| 0 <= j < i ==> out[j]@ == TermView::Id(ids[j]@),
        decreases ids.len() - i,
    {
        out.push(Term::Id(ids[i].clone()));
        i += 1;
    }
    assert(out.deep_view() =~= id_terms(ids.deep_view()));
    out
}

fn tag_term_list(tags: &Vec<String>) -> (out: Vec<Term>)
    ensures
        out.deep_view() == tag_terms(tags.deep_view()),
{
    let mut out: Vec<Term> = Vec::new();
    let mut i: usize = 0;
    while i < tags.len()
        invariant
            i <= tags.len(),
            out.len() == i,
            forall|j: int| 0 <= j < i ==> out[j]@ == TermView::Tag(tags[j]@),
        decreases tags.len() - i,
    {
        out.push(Term::Tag(tags[i].clone()));
        i += 1;
    }
    assert(out.deep_view() =~= tag_terms(tags.deep_view()));
    out
}

fn push_bbox_clauses(out: &mut Vec<Clause>, bbox: &MapBbox, wanted: bool)
    ensures
        final(out).deep_view() == old(out).deep_view() + bbox_clauses(Some(*bbox), wanted),
{
    let ghost before = out.deep_view();
    let sw = bbox.south_west;
    let ne = bbox.north_east;
    let inside = if wanted {
        Occur::Must
    } else {
        Occur::MustNot
    };
    let outside = if wanted {
        Occur::MustNot
    } else {
        Occur::Must
    };
    let lat = Clause {
        occur: inside,
        query: SubQuery::One(
            Term::Range {
                field: CoordField::Lat,
                lower: RangeBound::Included(sw.lat.raw as i64),
                upper: RangeBound::Included(ne.lat.raw as i64),
            },
        ),
    };
    let lng = if sw.lng.raw <= ne.lng.raw {
        Clause {
            occur: inside,
            query: SubQuery::One(
                Term::Range {
                    field: CoordField::Lng,
                    lower: RangeBound::Included(sw.lng.raw as i64),
                    upper: RangeBound::Included(ne.lng.raw as i64),
                },
            ),
        }
    } else {
        Clause {
            occur: outside,
            query: SubQuery::One(
                Term::Range {
                    field: CoordField::Lng,
                    lower: RangeBound::Excluded(ne.lng.raw as i64),
                    upper: RangeBound::Excluded(sw.lng.raw as i64),
                },
            ),
        }
    };
    out.push(lat);
    out.push(lng);
    assert(out.deep_view() =~= before + bbox_clauses(Some(*bbox), wanted));
}

/// The tags of a list in lower case, each once and none of them empty.
pub fn lowercase_tag_list(tags: &Vec<String>) -> (out: Vec<String>)
    ensures
        out.deep_view() == lowercase_tags(tags.deep_view()),
{
    let mut out: Vec<String> = Vec::new();
    let mut i: usize = 0;
    assert(tags.deep_view().take(0) == Seq::<Seq<char>>::empty());
    assert(out.deep_view() == Seq::<Seq<char>>::empty());
    while i < tags.len()
        invariant
            i <= tags.len(),
            out.deep_view() == lowercase_tags(tags.deep_view().take(i as int)),
        decreases tags.len() - i,
    {
        proof {
            assert(tags.deep_view().take(i as int + 1).drop_last() == tags.deep_view().take(
                i as int,
            ));
            assert(tags.deep_view().take(i as int + 1).last() == tags[i as int]@);
        }
        push_unique(&mut out, tags[i].as_str().to_lowercase());
        i += 1;
    }
    assert(tags.deep_view().take(tags.len() as int) == tags.deep_view());
    out
}

fn push_mandatory_tags(out: &mut Vec<Clause>, tags: &Vec<String>)
    ensures
        final(out).deep_view() == old(out).deep_view() + mandatory_tags(tags.deep_view()),
{
    let ghost before = out.deep_view();
    let mut i: usize = 0;
    while i < tags.len()
        invariant
            i <= tags.len(),
            out.len() == before.len() + i,
            forall|j: int| 0 <= j < before.len() ==> out[j]@ == before[j],
            forall|j: int|
                0 <= j < i ==> (#[trigger] out[before.len() + j])@ == mandatory_tags(
                    tags.deep_view(),
                )[j],
        decreases tags.len() - i,
    {
        out.push(Clause { occur: Occur::Must, query: SubQuery::One(Term::Tag(tags[i].clone())) });
        i += 1;
    }
    assert(out.deep_view() =~= before + mandatory_tags(tags.deep_view())) by {
        assert forall|k: int| 0 <= k < out.len() implies out.deep_view()[k] == (before
            + mandatory_tags(tags.deep_view()))[k] by {
            if k >= before.len() {
                assert(out[before.len() + (k - before.len())]@ == mandatory_tags(
                    tags.deep_view(),
                )[k - before.len()]);
            }
        }
    }
}

fn text_term_list(text: &Option<String>, text_parsed: bool, text_tags: &Vec<String>) -> (out: Vec<
    Term,
>)
    ensures
        out.deep_view() == text_terms(text.deep_view(), text_parsed, text_tags.deep_view()),
{
    let mut out: Vec<Term> = Vec::new();
    match text {
        Some(text) => {
            if text_parsed {
                out.push(Term::Text(text.as_str().to_lowercase()));
            }
        },
        None => {},
    }
    let ghost first = out.deep_view();
    let ghost words = Seq::new(
        text_tags.deep_view().len(),
        |i: int| TermView::Tag(lowercase_of(text_tags.deep_view()[i])),
    );
    assert(first =~= match text.deep_view() {
        Some(text) if text_parsed => seq![TermView::Text(lowercase_of(text))],
        _ => Seq::empty(),
    });
    let mut i: usize = 0;
    while i < text_tags.len()
        invariant
            i <= text_tags.len(),
            out.len() == first.len() + i,
            forall|j: int| 0 <= j < first.len() ==> out[j]@ == first[j],
            forall|j: int|
                0 <= j < i ==> (#[trigger] out[first.len() + j])@ == TermView::Tag(
                    lowercase_of(text_tags[j]@),
                ),
        decreases text_tags.len() - i,
    {
        out.push(Term::Tag(text_tags[i].as_str().to_lowercase()));
        i += 1;
    }
    assert(out.deep_view() =~= first + words) by {
        assert forall|k: int| 0 <= k < out.len() implies out.deep_view()[k] == (first + words)[k] by {
            if k >= first.len() {
                assert(out[first.len() + (k - first.len())]@ == words[k - first.len()]);
            }
        }
    }
    out
}

/// Composes the Boolean query for a request, and says how the places that
/// it finds are to be ordered. `text_parsed` tells whether the index can
/// parse the free text of the request, in lower case, as a query; text that
/// it cannot parse is left out.
pub fn build_query(query: &IndexQuery, text_parsed: bool) -> (r: (Vec<Clause>, TopDocsMode))
    ensures
        r.0.deep_view() == composed_clauses(query@, text_parsed),
        r.1 == composed_mode(query@, text_parsed),
{
    let mut clauses: Vec<Clause> = Vec::new();
    assert(clauses.deep_view() == Seq::<ClauseView>::empty());

    let ghost part_ids = optional(one_of(id_terms(query@.ids)));
    match one_of_clause(id_term_list(&query.ids)) {
        Some(clause) => {
            clauses.push(clause);
        },
        None => {},
    }
    assert(clauses.deep_view() =~= part_ids);

    let ghost part_include = bbox_clauses(query@.include_bbox, true);
    match &query.include_bbox {
        Some(bbox) => {
            push_bbox_clauses(&mut clauses, bbox, true);
        },
        None => {},
    }
    assert(clauses.deep_view() =~= part_ids + part_include);

    let ghost part_exclude = bbox_clauses(query@.exclude_bbox, false);
    match &query.exclude_bbox {
        Some(bbox) => {
            push_bbox_clauses(&mut clauses, bbox, false);
        },
        None => {},
    }
    assert(clauses.deep_view() =~= part_ids + part_include + part_exclude);

    let ghost part_categories = optional(one_of(tag_terms(tags_of_uids(query@.categories))));
    let category_tags = Category::tags_for_uids(&query.categories);
    let ghost before_categories = clauses.deep_view();
    match one_of_clause(tag_term_list(&category_tags)) {
        Some(clause) => {
            clauses.push(clause);
        },
        None => {},
    }
    assert(clauses.deep_view() =~= before_categories + part_categories);

    let hash_tags = lowercase_tag_list(&query.hash_tags);
    push_mandatory_tags(&mut clauses, &hash_tags);

    let terms = text_term_list(&query.text, text_parsed, &query.text_tags);
    let ghost before_text = clauses.deep_view();
    let ghost part_text = optional(
        text_clause(text_terms(query@.text, text_parsed, query@.text_tags)),
    );
    let mode = if terms.len() == 0 {
        TopDocsMode::Rating
    } else {
        clauses.push(Clause { occur: Occur::Must, query: SubQuery::AnyOf(terms) });
        TopDocsMode::ScoreBoostedByRating
    };
    assert(clauses.deep_view() =~= before_text + part_text);
    (clauses, mode)
}

} // verus!
