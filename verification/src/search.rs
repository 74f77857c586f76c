//! Searching for places: what is asked of the index for a request, and
//! what is made of its answers.

use crate::error::RepoError;
use crate::filter::{
    extract_hash_tags, hash_tags_of, remove_hash_tags, split_text_to_words,
    text_without_hash_tags, words_of,
};
use crate::geo::{extend_bbox, extended, MapBbox, MapPoint};
use crate::index::{
    answer_of, IndexError, IndexQuery, IndexQueryView, IndexedPlace, IndexedPlaceView, PlaceIndex,
};
use crate::text::{blank, is_blank, tokens};
use vstd::prelude::*;

verus! {

/// What a user asks for when searching the map.
#[derive(Debug)]
pub struct SearchRequest<'a> {
    /// The part of the map that the user sees.
    pub bbox: MapBbox,
    pub ids: Vec<&'a str>,
    pub categories: Vec<&'a str>,
    pub hash_tags: Vec<&'a str>,
    pub text: Option<&'a str>,
}

pub struct SearchRequestView {
    pub bbox: MapBbox,
    pub ids: Seq<Seq<char>>,
    pub categories: Seq<Seq<char>>,
    pub hash_tags: Seq<Seq<char>>,
    pub text: Option<Seq<char>>,
}

impl<'a> View for SearchRequest<'a> {
    type V = SearchRequestView;

    open spec fn view(&self) -> SearchRequestView {
        SearchRequestView {
            bbox: self.bbox,
            ids: self.ids.deep_view(),
            categories: self.categories.deep_view(),
            hash_tags: self.hash_tags.deep_view(),
            text: self.text.deep_view(),
        }
    }
}

/// The free text of a request without its hash tags; nothing where no
/// visible character is left.
pub open spec fn plain_text(text: Option<Seq<char>>) -> Option<Seq<char>> {
    match text {
        Some(text) => {
            let plain = text_without_hash_tags(tokens(text, false));
            if blank(plain) {
                None
            } else {
                Some(plain)
            }
        },
        None => None,
    }
}

/// The hash tags of a request: those in its free text first, then those
/// that it names.
pub open spec fn all_hash_tags(req: SearchRequestView) -> Seq<Seq<char>> {
    match req.text {
        Some(text) => hash_tags_of(tokens(text, false)) + req.hash_tags,
        None => req.hash_tags,
    }
}

/// What is asked of the index for the places inside the part of the map
/// that the user sees.
pub open spec fn visible_query(req: SearchRequestView) -> IndexQueryView {
    IndexQueryView {
        include_bbox: Some(req.bbox),
        exclude_bbox: None,
        categories: req.categories,
        ids: req.ids,
        hash_tags: all_hash_tags(req),
        text_tags: match plain_text(req.text) {
            Some(text) => words_of(text),
            None => Seq::empty(),
        },
        text: plain_text(req.text),
    }
}

/// What is asked of the index for the places around the part of the map
/// that the user sees: the same, in the extended rectangle without the
/// rectangle itself.
pub open spec fn invisible_query(visible: IndexQueryView) -> IndexQueryView {
    IndexQueryView {
        include_bbox: match visible.include_bbox {
            Some(bbox) => Some(
                if bbox.valid() {
                    extended(bbox)
                } else {
                    bbox
                },
            ),
            None => None,
        },
        exclude_bbox: visible.include_bbox,
        ..visible
    }
}

/// What is asked of the index for a search by text alone.
pub open spec fn global_query(text: Seq<char>) -> IndexQueryView {
    IndexQueryView {
        include_bbox: None,
        exclude_bbox: None,
        categories: Seq::empty(),
        ids: Seq::empty(),
        hash_tags: Seq::empty(),
        text_tags: Seq::empty(),
        text: Some(text),
    }
}

/// The strings of a list of string slices.
pub fn to_strings(list: &Vec<&str>) -> (out: Vec<String>)
    ensures
        out.deep_view() == list.deep_view(),
{
    let mut out: Vec<String> = Vec::new();
    let mut i: usize = 0;
    while i < list.len()
        invariant
            i <= list.len(),
            out.len() == i,
            forall|j: int| 0 <= j < i ==> out[j]@ == list[j]@,
        decreases list.len() - i,
    {
        out.push(list[i].to_owned());
        i += 1;
    }
    assert(out.deep_view() =~= list.deep_view());
    out
}

/// Composes what is asked of the index for the places inside the part of
/// the map that the user sees.
pub fn visible_places_query(req: &SearchRequest) -> (q: IndexQuery)
    ensures
        q@ == visible_query(req@),
{
    let mut hash_tags: Vec<String> = match req.text {
        Some(text) => extract_hash_tags(text),
        None => Vec::new(),
    };
    let ghost extracted = hash_tags.deep_view();
    let mut named = to_strings(&req.hash_tags);
    hash_tags.append(&mut named);
    assert(hash_tags.deep_view() =~= extracted + req.hash_tags.deep_view());
    let text: Option<String> = match req.text {
        Some(text) => {
            let plain = remove_hash_tags(text);
            if is_blank(plain.as_str()) {
                None
            } else {
                Some(plain)
            }
        },
        None => None,
    };
    let text_tags: Vec<String> = match &text {
        Some(text) => split_text_to_words(text.as_str()),
        None => Vec::new(),
    };
    let q = IndexQuery {
        include_bbox: Some(req.bbox),
        exclude_bbox: None,
        categories: to_strings(&req.categories),
        ids: to_strings(&req.ids),
        hash_tags,
        text_tags,
        text,
    };
    assert(q@.hash_tags =~= visible_query(req@).hash_tags);
    assert(q@.text_tags =~= visible_query(req@).text_tags);
    q
}

/// Composes what is asked of the index for the places around the part of
/// the map that the user sees.
pub fn invisible_places_query(visible: &IndexQuery) -> (q: IndexQuery)
    ensures
        q@ == invisible_query(visible@),
{
    let mut q = visible.clone();
    q.exclude_bbox = visible.include_bbox;
    q.include_bbox = match visible.include_bbox {
        Some(bbox) => Some(extend_bbox(&bbox)),
        None => None,
    };
    q
}

/// Composes what is asked of the index for a search by text alone.
pub fn global_places_query(text: &str) -> (q: IndexQuery)
    ensures
        q@ == global_query(text@),
{
    let mut q = IndexQuery::default();
    q.text = Some(text.to_owned());
    q
}

/// Whether a position lies in the ring around a rectangle: in the extended
/// rectangle, but not in the rectangle itself.
pub open spec fn in_ring(bbox: MapBbox, pos: MapPoint) -> bool {
    !bbox.contains(pos) && if bbox.valid() {
        extended(bbox).contains(pos)
    } else {
        false
    }
}

/// The places of a list that lie inside a rectangle, in their order, and
/// of these the first `limit` at most.
pub open spec fn kept_inside(places: Seq<IndexedPlaceView>, bbox: MapBbox, limit: nat) -> Seq<
    IndexedPlaceView,
>
    decreases places.len(),
{
    if places.len() == 0 {
        Seq::empty()
    } else {
        let before = kept_inside(places.drop_last(), bbox, limit);
        if before.len() < limit && bbox.contains(places.last().pos) {
            before.push(places.last())
        } else {
            before
        }
    }
}

/// The places of a list that lie in the ring around a rectangle, in their
/// order, and of these the first `limit` at most.
pub open spec fn kept_in_ring(places: Seq<IndexedPlaceView>, bbox: MapBbox, limit: nat) -> Seq<
    IndexedPlaceView,
>
    decreases places.len(),
{
    if places.len() == 0 {
        Seq::empty()
    } else {
        let before = kept_in_ring(places.drop_last(), bbox, limit);
        if before.len() < limit && in_ring(bbox, places.last().pos) {
            before.push(places.last())
        } else {
            before
        }
    }
}

/// What is kept of a list lies inside the rectangle, is not longer than
/// the limit, and is the whole list where all of that holds of the list.
pub proof fn lemma_kept_inside(places: Seq<IndexedPlaceView>, bbox: MapBbox, limit: nat)
    ensures
        kept_inside(places, bbox, limit).len() <= limit,
        kept_inside(places, bbox, limit).len() <= places.len(),
        forall|i: int|
            0 <= i < kept_inside(places, bbox, limit).len() ==> bbox.contains(
                #[trigger] kept_inside(places, bbox, limit)[i].pos,
            ) && places.contains(kept_inside(places, bbox, limit)[i]),
        places.len() <= limit && (forall|i: int|
            0 <= i < places.len() ==> bbox.contains(#[trigger] places[i].pos)) ==> kept_inside(
            places,
            bbox,
            limit,
        ) == places,
    decreases places.len(),
{
    if places.len() > 0 {
        let front = places.drop_last();
        lemma_kept_inside(front, bbox, limit);
        let before = kept_inside(front, bbox, limit);
        let kept = kept_inside(places, bbox, limit);
        assert forall|i: int| 0 <= i < kept.len() implies bbox.contains(#[trigger] kept[i].pos)
            && places.contains(kept[i]) by {
            if i < before.len() {
                assert(bbox.contains(before[i].pos));
                assert(front.contains(before[i]));
                let j = choose|j: int| 0 <= j < front.len() && front[j] == before[i];
                assert(places[j] == kept[i]);
            } else {
                assert(places[places.len() - 1] == kept[i]);
            }
        }
        if places.len() <= limit && (forall|i: int|
            0 <= i < places.len() ==> bbox.contains(#[trigger] places[i].pos)) {
            assert forall|i: int| 0 <= i < front.len() implies bbox.contains(
                #[trigger] front[i].pos,
            ) by {
                assert(front[i] == places[i]);
            }
            assert(bbox.contains(places[places.len() - 1].pos));
            assert(kept =~= places);
        }
    }
}

/// What is kept of a list lies in the ring around the rectangle, is not
/// longer than the limit, and is the whole list where all of that holds of
/// the list.
pub proof fn lemma_kept_in_ring(places: Seq<IndexedPlaceView>, bbox: MapBbox, limit: nat)
    ensures
        kept_in_ring(places, bbox, limit).len() <= limit,
        kept_in_ring(places, bbox, limit).len() <= places.len(),
        forall|i: int|
            0 <= i < kept_in_ring(places, bbox, limit).len() ==> in_ring(
                bbox,
                #[trigger] kept_in_ring(places, bbox, limit)[i].pos,
            ) && places.contains(kept_in_ring(places, bbox, limit)[i]),
        places.len() <= limit && (forall|i: int|
            0 <= i < places.len() ==> in_ring(bbox, #[trigger] places[i].pos)) ==> kept_in_ring(
            places,
            bbox,
            limit,
        ) == places,
    decreases places.len(),
{
    if places.len() > 0 {
        let front = places.drop_last();
        lemma_kept_in_ring(front, bbox, limit);
        let before = kept_in_ring(front, bbox, limit);
        let kept = kept_in_ring(places, bbox, limit);
        assert forall|i: int| 0 <= i < kept.len() implies in_ring(bbox, #[trigger] kept[i].pos)
            && places.contains(kept[i]) by {
            if i < before.len() {
                assert(in_ring(bbox, before[i].pos));
                assert(front.contains(before[i]));
                let j = choose|j: int| 0 <= j < front.len() && front[j] == before[i];
                assert(places[j] == kept[i]);
            } else {
                assert(places[places.len() - 1] == kept[i]);
            }
        }
        if places.len() <= limit && (forall|i: int|
            0 <= i < places.len() ==> in_ring(bbox, #[trigger] places[i].pos)) {
            assert forall|i: int| 0 <= i < front.len() implies in_ring(
                bbox,
                #[trigger] front[i].pos,
            ) by {
                assert(front[i] == places[i]);
            }
            assert(in_ring(bbox, places[places.len() - 1].pos));
            assert(kept =~= places);
        }
    }
}

/// The places of a list that lie inside a rectangle, in their order, and
/// at most `limit` of them.
fn keep_inside(places: Vec<IndexedPlace>, bbox: &MapBbox, limit: usize) -> (out: Vec<IndexedPlace>)
    ensures
        out.deep_view() == kept_inside(places.deep_view(), *bbox, limit as nat),
{
    let mut places = places;
    let ghost all = places.deep_view();
    let ghost n = all.len();
    let mut out: Vec<IndexedPlace> = Vec::new();
    proof {
        assert(all.take(0) == Seq::<IndexedPlaceView>::empty());
        assert(out.deep_view() == Seq::<IndexedPlaceView>::empty());
        assert(places.deep_view() == all.skip(0));
    }
    while places.len() > 0
        invariant
            n == all.len(),
            places.len() <= n,
            places.deep_view() == all.skip(n - places.len()),
            out.deep_view() == kept_inside(all.take(n - places.len()), *bbox, limit as nat),
        decreases places.len(),
    {
        let ghost k = n - places.len();
        let ghost rest = places.deep_view();
        let ghost before = out.deep_view();
        let ghost held = places@;
        let place = places.remove(0);
        proof {
            assert(place@ == rest[0]);
            assert(rest[0] == all[k]);
            assert(places.deep_view() =~= all.skip(k + 1)) by {
                assert forall|j: int| 0 <= j < places.len() implies places.deep_view()[j]
                    == all.skip(k + 1)[j] by {
                    assert(places@[j] == held[j + 1]);
                    assert(rest[j + 1] == held[j + 1]@);
                    assert(rest[j + 1] == all[k + j + 1]);
                }
            }
            assert(all.take(k + 1).drop_last() == all.take(k));
            assert(all.take(k + 1).last() == all[k]);
        }
        if out.len() < limit && bbox.contains_point(place.pos) {
            out.push(place);
            proof {
                assert(out.deep_view() == before.push(all[k]));
            }
        }
    }
    proof {
        assert(all.take(n as int) == all);
    }
    out
}

/// The places of a list that lie in the ring around a rectangle, in their
/// order, and at most `limit` of them.
fn keep_in_ring(places: Vec<IndexedPlace>, bbox: &MapBbox, limit: usize) -> (out: Vec<
    IndexedPlace,
>)
    ensures
        out.deep_view() == kept_in_ring(places.deep_view(), *bbox, limit as nat),
{
    let mut places = places;
    let ghost all = places.deep_view();
    let ghost n = all.len();
    let mut out: Vec<IndexedPlace> = Vec::new();
    let ring = extend_bbox(bbox);
    let legal = bbox.is_valid();
    proof {
        assert(all.take(0) == Seq::<IndexedPlaceView>::empty());
        assert(out.deep_view() == Seq::<IndexedPlaceView>::empty());
        assert(places.deep_view() == all.skip(0));
    }
    while places.len() > 0
        invariant
            n == all.len(),
            places.len() <= n,
            legal == bbox.valid(),
            legal ==> ring == extended(*bbox),
            places.deep_view() == all.skip(n - places.len()),
            out.deep_view() == kept_in_ring(all.take(n - places.len()), *bbox, limit as nat),
        decreases places.len(),
    {
        let ghost k = n - places.len();
        let ghost rest = places.deep_view();
        let ghost before = out.deep_view();
        let ghost held = places@;
        let place = places.remove(0);
        proof {
            assert(place@ == rest[0]);
            assert(rest[0] == all[k]);
            assert(places.deep_view() =~= all.skip(k + 1)) by {
                assert forall|j: int| 0 <= j < places.len() implies places.deep_view()[j]
                    == all.skip(k + 1)[j] by {
                    assert(places@[j] == held[j + 1]);
                    assert(rest[j + 1] == held[j + 1]@);
                    assert(rest[j + 1] == all[k + j + 1]);
                }
            }
            assert(all.take(k + 1).drop_last() == all.take(k));
            assert(all.take(k + 1).last() == all[k]);
        }
        if out.len() < limit && legal && !bbox.contains_point(place.pos) && ring.contains_point(
            place.pos,
        ) {
            out.push(place);
            proof {
                assert(out.deep_view() == before.push(all[k]));
            }
        }
    }
    proof {
        assert(all.take(n as int) == all);
    }
    out
}

fn index_failure(err: IndexError) -> (e: RepoError)
    ensures
        e == RepoError::Other(err.message),
{
    RepoError::Other(err.message)
}

/// Whether a failure is the one that is handed on for a failure of the
/// index with the given description.
pub open spec fn is_index_failure(e: RepoError, message: Seq<char>) -> bool {
    e matches RepoError::Other(text) && text@ == message
}

/// Searches the map: first for places inside the part that the user sees,
/// then, if those are fewer than `limit`, for as many as are missing among
/// the places around it.
///
/// The index is asked the query for the visible places, for `limit` of
/// them. Of its answer the places inside the rectangle of the request are
/// kept, `limit` at most: they are the first list. If they are fewer than
/// `limit`, the index is asked the query for the places around, for as
/// many as are missing, and of that answer the places in the ring around
/// the rectangle are kept, not more than are missing: they are the second
/// list. A failure of the index at either question is handed on.
pub fn search<I: PlaceIndex>(index: &I, req: SearchRequest, limit: usize) -> (r: Result<
    (Vec<IndexedPlace>, Vec<IndexedPlace>),
    RepoError,
>)
    ensures
        match r {
            Ok((visible, invisible)) => {
                &&& visible.len() + invisible.len() <= limit
                &&& forall|i: int|
                    0 <= i < visible.len() ==> req.bbox.contains(#[trigger] visible[i].pos)
                &&& forall|i: int|
                    0 <= i < invisible.len() ==> in_ring(req.bbox, #[trigger] invisible[i].pos)
                &&& exists|first: Seq<IndexedPlaceView>|
                    {
                        &&& #[trigger] index.may_answer(visible_query(req@), limit, Ok(first))
                        &&& visible.deep_view() == kept_inside(first, req.bbox, limit as nat)
                    }
                &&& visible.len() < limit ==> exists|second: Seq<IndexedPlaceView>|
                    {
                        &&& #[trigger] index.may_answer(
                            invisible_query(visible_query(req@)),
                            (limit - visible.len()) as usize,
                            Ok(second),
                        )
                        &&& invisible.deep_view() == kept_in_ring(
                            second,
                            req.bbox,
                            (limit - visible.len()) as nat,
                        )
                    }
            },
            Err(e) => exists|message: Seq<char>|
                {
                    &&& #[trigger] is_index_failure(e, message)
                    &&& {
                        ||| index.may_answer(visible_query(req@), limit, Err(message))
                        ||| exists|first: Seq<IndexedPlaceView>|
                            {
                                &&& #[trigger] index.may_answer(
                                    visible_query(req@),
                                    limit,
                                    Ok(first),
                                )
                                &&& kept_inside(first, req.bbox, limit as nat).len() < limit
                                &&& index.may_answer(
                                    invisible_query(visible_query(req@)),
                                    (limit - kept_inside(
                                        first,
                                        req.bbox,
                                        limit as nat,
                                    ).len()) as usize,
                                    Err(message),
                                )
                            }
                    }
                },
        },
{
    let visible_places_query = visible_places_query(&req);
    let visible_answer = index.query_places(&visible_places_query, limit);
    let ghost first_answer = answer_of(visible_answer);
    let visible_places = match visible_answer {
        Ok(places) => keep_inside(places, &req.bbox, limit),
        Err(err) => {
            let ghost message = err.message@;
            proof {
                assert(index.may_answer(visible_query(req@), limit, Err(message)));
            }
            let e = index_failure(err);
            assert(is_index_failure(e, message));
            return Err(e);
        },
    };
    let ghost first = first_answer->Ok_0;
    proof {
        lemma_kept_inside(first, req.bbox, limit as nat);
        assert(index.may_answer(visible_query(req@), limit, Ok(first)));
        assert forall|i: int| 0 <= i < visible_places.len() implies req.bbox.contains(
            #[trigger] visible_places[i].pos,
        ) by {
            assert(visible_places.deep_view()[i] == visible_places[i]@);
            assert(req.bbox.contains(kept_inside(first, req.bbox, limit as nat)[i].pos));
        }
    }
    let invisible_places = if visible_places.len() < limit {
        let invisible_places_query = invisible_places_query(&visible_places_query);
        let wanted = limit - visible_places.len();
        let invisible_answer = index.query_places(&invisible_places_query, wanted);
        let ghost second_answer = answer_of(invisible_answer);
        match invisible_answer {
            Ok(places) => {
                let kept = keep_in_ring(places, &req.bbox, wanted);
                proof {
                    let second = second_answer->Ok_0;
                    lemma_kept_in_ring(second, req.bbox, wanted as nat);
                    assert(index.may_answer(
                        invisible_query(visible_query(req@)),
                        wanted,
                        Ok(second),
                    ));
                    assert forall|i: int| 0 <= i < kept.len() implies in_ring(
                        req.bbox,
                        #[trigger] kept[i].pos,
                    ) by {
                        assert(kept.deep_view()[i] == kept[i]@);
                        assert(in_ring(
                            req.bbox,
                            kept_in_ring(second, req.bbox, wanted as nat)[i].pos,
                        ));
                    }
                }
                kept
            },
            Err(err) => {
                let ghost message = err.message@;
                proof {
                    let kept = kept_inside(first, req.bbox, limit as nat);
                    assert(kept.len() == visible_places.len());
                    assert(wanted == (limit - kept.len()) as usize);
                    assert(index.may_answer(visible_query(req@), limit, Ok(first))
                        && kept.len() < limit && index.may_answer(
                        invisible_query(visible_query(req@)),
                        (limit - kept.len()) as usize,
                        Err(message),
                    ));
                }
                let e = index_failure(err);
                assert(is_index_failure(e, message));
                return Err(e);
            },
        }
    } else {
        Vec::new()
    };
    Ok((visible_places, invisible_places))
}

/// What `search` makes of the answers of the index to its two questions.
/// `invisible` is the answer to the second one, which is asked for as
/// many places as are missing up to `limit`, and only if any are.
pub fn search_results(
    bbox: &MapBbox,
    limit: usize,
    visible: Vec<IndexedPlace>,
    invisible: Vec<IndexedPlace>,
) -> (r: (Vec<IndexedPlace>, Vec<IndexedPlace>))
    ensures
        r.0.deep_view() == kept_inside(visible.deep_view(), *bbox, limit as nat),
        r.1.deep_view() == kept_in_ring(
            invisible.deep_view(),
            *bbox,
            (limit - r.0.len()) as nat,
        ),
        r.0.len() + r.1.len() <= limit,
{
    proof {
        lemma_kept_inside(visible.deep_view(), *bbox, limit as nat);
    }
    let first = keep_inside(visible, bbox, limit);
    let wanted = limit - first.len();
    proof {
        lemma_kept_in_ring(invisible.deep_view(), *bbox, wanted as nat);
    }
    let second = keep_in_ring(invisible, bbox, wanted);
    (first, second)
}

/// Searches by text alone, as the single input field of a search engine
/// does: tags, categories and the map play no part. The index is asked
/// the query for the text, for `limit` places, once; its answer is handed
/// on as it is, and a failure with its description.
pub fn global_search<I: PlaceIndex>(index: &I, txt: &str, limit: usize) -> (r: Result<
    Vec<IndexedPlace>,
    RepoError,
>)
    ensures
        match r {
            Ok(places) => index.may_answer(global_query(txt@), limit, Ok(places.deep_view())),
            Err(e) => exists|message: Seq<char>|
                {
                    &&& #[trigger] is_index_failure(e, message)
                    &&& index.may_answer(global_query(txt@), limit, Err(message))
                },
        },
{
    let index_query = global_places_query(txt);
    match index.query_places(&index_query, limit) {
        Ok(places) => Ok(places),
        Err(err) => {
            let ghost message = err.message@;
            let e = index_failure(err);
            assert(is_index_failure(e, message));
            Err(e)
        },
    }
}

} // verus!
