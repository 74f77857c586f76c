//! How often tags are used.

use crate::category::{lemma_with_all_unique, with_all_unique};
use crate::entities::{TagFrequency, TagFrequencyView};
use crate::store::{places_wf, PlaceRecordView, Store};
use crate::store_history::{page_len, page_start, Pagination};
use crate::text::{
    contains_str, distinct, lemma_lex_less_asymmetric, lex_less, none_empty, push_unique, str_less,
};
use vstd::prelude::*;

verus! {

/// The bounds between which the number of uses of a tag must lie, as far
/// as they are given. Both bounds belong to the range.
#[derive(Clone, Copy, Debug, PartialEq, Eq, Structural)]
pub struct MostPopularTagsParams {
    pub min_count: Option<u64>,
    pub max_count: Option<u64>,
}

/// Whether a place uses a tag: the place is shown, and its current
/// revision has the tag.
pub open spec fn uses_tag(record: PlaceRecordView, tag: Seq<char>) -> bool {
    record.visible() && record.current().place.tags.contains(tag)
}

/// How many places use a tag.
pub open spec fn tag_count(places: Seq<PlaceRecordView>, tag: Seq<char>) -> nat
    decreases places.len(),
{
    if places.len() == 0 {
        0
    } else {
        tag_count(places.drop_last(), tag) + if uses_tag(places.last(), tag) {
            1nat
        } else {
            0nat
        }
    }
}

/// The tags that are used, each once, in the order in which the places
/// and their tags are stored.
pub open spec fn used_tags(places: Seq<PlaceRecordView>) -> Seq<Seq<char>>
    decreases places.len(),
{
    if places.len() == 0 {
        Seq::empty()
    } else if places.last().visible() {
        with_all_unique(used_tags(places.drop_last()), places.last().current().place.tags)
    } else {
        used_tags(places.drop_last())
    }
}

/// Whether a number of uses is wanted: it is not 0 and lies in the range.
pub open spec fn count_wanted(count: nat, params: MostPopularTagsParams) -> bool {
    &&& count > 0
    &&& params.min_count matches Some(min) ==> count >= min
    &&& params.max_count matches Some(max) ==> count <= max
}

/// Whether a tag ranks before another: the one that is used more often
/// comes first, and of two that are used equally often the one that comes
/// first in the order of strings.
pub open spec fn ranks_before(a: TagFrequencyView, b: TagFrequencyView) -> bool {
    a.count > b.count || (a.count == b.count && lex_less(a.tag, b.tag))
}

/// Whether `all` ranks the tags that are used as often as wanted: each of
/// them once, with the number of its uses, and none before one that ranks
/// before it.
pub open spec fn is_tag_ranking(
    places: Seq<PlaceRecordView>,
    params: MostPopularTagsParams,
    all: Seq<TagFrequencyView>,
) -> bool {
    &&& forall|k: int|
        0 <= k < all.len() ==> {
            &&& (#[trigger] all[k]).tag.len() > 0
            &&& all[k].count == tag_count(places, all[k].tag)
            &&& count_wanted(all[k].count as nat, params)
        }
    &&& forall|k: int, m: int| 0 <= k < m < all.len() ==> (#[trigger] all[k]).tag != (#[trigger] all[m]).tag
    &&& forall|t: Seq<char>|
        t.len() > 0 && count_wanted(#[trigger] tag_count(places, t), params) ==> exists|k: int|
            0 <= k < all.len() && (#[trigger] all[k]).tag == t
    &&& forall|k: int|
        0 <= k && k + 1 < all.len() ==> !ranks_before(#[trigger] all[k + 1], all[k])
}

/// The tags that are used are those that are not empty and that a place
/// uses; none of them comes twice.
pub proof fn lemma_used_tags(places: Seq<PlaceRecordView>, t: Seq<char>)
    ensures
        used_tags(places).contains(t) <==> t.len() > 0 && tag_count(places, t) > 0,
        distinct(used_tags(places)),
        none_empty(used_tags(places)),
        tag_count(places, t) <= places.len(),
    decreases places.len(),
{
    if places.len() > 0 {
        let head = places.drop_last();
        lemma_used_tags(head, t);
        if places.last().visible() {
            lemma_with_all_unique(used_tags(head), places.last().current().place.tags, t);
        }
    }
}

/// No tag stands directly before one that ranks before it.
pub open spec fn ranked(all: Seq<TagFrequencyView>) -> bool {
    forall|k: int| 0 <= k && k + 1 < all.len() ==> !ranks_before(#[trigger] all[k + 1], all[k])
}

/// Whether `all` holds those of the first `j` tags of `names` that are
/// used as often as wanted, each once and with the number of its uses, and
/// nothing else.
pub open spec fn covers(
    places: Seq<PlaceRecordView>,
    params: MostPopularTagsParams,
    names: Seq<Seq<char>>,
    j: int,
    all: Seq<TagFrequencyView>,
) -> bool {
    &&& forall|k: int|
        0 <= k < all.len() ==> {
            &&& (#[trigger] all[k]).tag.len() > 0
            &&& all[k].count == tag_count(places, all[k].tag)
            &&& count_wanted(all[k].count as nat, params)
            &&& exists|c: int| 0 <= c < j && #[trigger] names[c] == all[k].tag
        }
    &&& forall|k: int, m: int| 0 <= k < m < all.len() ==> (#[trigger] all[k]).tag != (#[trigger] all[m]).tag
    &&& forall|c: int|
        0 <= c < j && count_wanted(tag_count(places, #[trigger] names[c]), params) ==> exists|k: int|
            0 <= k < all.len() && (#[trigger] all[k]).tag == names[c]
}

/// A tag that is not used as often as wanted is passed over.
proof fn lemma_covers_skip(
    places: Seq<PlaceRecordView>,
    params: MostPopularTagsParams,
    names: Seq<Seq<char>>,
    j: int,
    all: Seq<TagFrequencyView>,
)
    requires
        0 <= j < names.len(),
        covers(places, params, names, j, all),
        !count_wanted(tag_count(places, names[j]), params),
    ensures
        covers(places, params, names, j + 1, all),
{
    assert forall|k: int| 0 <= k < all.len() implies exists|c: int|
        0 <= c < j + 1 && #[trigger] names[c] == (#[trigger] all[k]).tag by {
        let c = choose|c: int| 0 <= c < j && #[trigger] names[c] == all[k].tag;
        assert(names[c] == all[k].tag);
    }
}

/// A tag that is used as often as wanted is taken up, wherever it is put.
proof fn lemma_covers_insert(
    places: Seq<PlaceRecordView>,
    params: MostPopularTagsParams,
    names: Seq<Seq<char>>,
    j: int,
    all: Seq<TagFrequencyView>,
    pos: int,
)
    requires
        0 <= j < names.len(),
        0 <= pos <= all.len(),
        distinct(names),
        none_empty(names),
        covers(places, params, names, j, all),
        count_wanted(tag_count(places, names[j]), params),
        tag_count(places, names[j]) <= u64::MAX,
    ensures
        covers(
            places,
            params,
            names,
            j + 1,
            all.insert(
                pos,
                TagFrequencyView { tag: names[j], count: tag_count(places, names[j]) as u64 },
            ),
        ),
{
    let item = TagFrequencyView { tag: names[j], count: tag_count(places, names[j]) as u64 };
    let after = all.insert(pos, item);
    assert forall|k: int| 0 <= k < after.len() implies after[k] == if k < pos {
        all[k]
    } else if k == pos {
        item
    } else {
        all[k - 1]
    } by {}
    assert forall|k: int| 0 <= k < all.len() implies (#[trigger] all[k]).tag != names[j] by {
        let c = choose|c: int| 0 <= c < j && #[trigger] names[c] == all[k].tag;
        assert(names[c] != names[j]);
    }
    assert forall|k: int| 0 <= k < after.len() implies {
        &&& (#[trigger] after[k]).tag.len() > 0
        &&& after[k].count == tag_count(places, after[k].tag)
        &&& count_wanted(after[k].count as nat, params)
        &&& exists|c: int| 0 <= c < j + 1 && #[trigger] names[c] == after[k].tag
    } by {
        if k == pos {
            assert(names[j] == after[k].tag);
        } else {
            let b = if k < pos {
                k
            } else {
                k - 1
            };
            assert(after[k] == all[b]);
            let c = choose|c: int| 0 <= c < j && #[trigger] names[c] == all[b].tag;
            assert(names[c] == after[k].tag);
        }
    }
    assert forall|k: int, m: int| 0 <= k < m < after.len() implies (#[trigger] after[k]).tag != (
    #[trigger] after[m]).tag by {
        let bk = if k < pos {
            k
        } else {
            k - 1
        };
        let bm = if m < pos {
            m
        } else {
            m - 1
        };
        if k != pos && m != pos {
            assert(after[k] == all[bk] && after[m] == all[bm]);
        } else if k == pos {
            assert(after[m] == all[bm]);
        } else {
            assert(after[k] == all[bk]);
        }
    }
    assert forall|c: int|
        0 <= c < j + 1 && count_wanted(tag_count(places, #[trigger] names[c]), params) implies exists|
        k: int,
    | 0 <= k < after.len() && (#[trigger] after[k]).tag == names[c] by {
        if c < j {
            let k = choose|k: int| 0 <= k < all.len() && (#[trigger] all[k]).tag == names[c];
            if k < pos {
                assert(after[k].tag == names[c]);
            } else {
                assert(after[k + 1].tag == names[c]);
            }
        } else {
            assert(after[pos].tag == names[c]);
        }
    }
}

/// When every tag that is used has been looked at, the tags that were
/// taken up are the ranking, if they are in order.
proof fn lemma_covers_all(
    places: Seq<PlaceRecordView>,
    params: MostPopularTagsParams,
    names: Seq<Seq<char>>,
    all: Seq<TagFrequencyView>,
)
    requires
        names == used_tags(places),
        covers(places, params, names, names.len() as int, all),
        ranked(all),
    ensures
        is_tag_ranking(places, params, all),
{
    assert forall|t: Seq<char>|
        t.len() > 0 && count_wanted(#[trigger] tag_count(places, t), params) implies exists|k: int|
        0 <= k < all.len() && (#[trigger] all[k]).tag == t by {
        lemma_used_tags(places, t);
        let c = choose|c: int| 0 <= c < names.len() && names[c] == t;
        assert(count_wanted(tag_count(places, names[c]), params));
    }
}

/// Puts a tag into a ranking, before the first tag before which it ranks.
fn insert_ranked(all: &mut Vec<TagFrequency>, item: TagFrequency) -> (pos: usize)
    requires
        ranked(old(all).deep_view()),
    ensures
        pos <= old(all).len(),
        final(all).deep_view() == old(all).deep_view().insert(pos as int, item@),
        ranked(final(all).deep_view()),
{
    let ghost before = all.deep_view();
    let mut pos: usize = 0;
    while pos < all.len() && !(item.count > all[pos].count || (item.count == all[pos].count
        && str_less(item.tag.as_str(), all[pos].tag.as_str())))
        invariant
            pos <= all.len(),
            before == all.deep_view(),
            forall|p: int| 0 <= p < pos ==> !ranks_before(item@, #[trigger] before[p]),
        decreases all.len() - pos,
    {
        proof {
            assert(before[pos as int] == all[pos as int]@);
        }
        pos += 1;
    }
    proof {
        if pos < all.len() {
            assert(before[pos as int] == all[pos as int]@);
            assert(ranks_before(item@, before[pos as int]));
            if item@.count == before[pos as int].count {
                lemma_lex_less_asymmetric(item@.tag, before[pos as int].tag);
            }
        }
    }
    all.insert(pos, item);
    proof {
        let after = all.deep_view();
        assert(after =~= before.insert(pos as int, item@));
        assert forall|k: int| 0 <= k && k + 1 < after.len() implies !ranks_before(
            #[trigger] after[k + 1],
            after[k],
        ) by {
            if k + 1 < pos {
                assert(after[k] == before[k] && after[k + 1] == before[k + 1]);
            } else if k + 1 == pos {
                assert(after[k] == before[k]);
            } else if k == pos {
                assert(after[k + 1] == before[k]);
            } else {
                assert(after[k] == before[k - 1] && after[k + 1] == before[k]);
                assert(!ranks_before(before[(k - 1) + 1], before[k - 1]));
            }
        }
    }
    pos
}

impl Clone for TagFrequency {
    fn clone(&self) -> (r: TagFrequency)
        ensures
            r@ == self@,
    {
        TagFrequency { tag: self.tag.clone(), count: self.count }
    }
}

impl Store {
    /// The tags that are used, each once.
    pub fn all_used_tags(&self) -> (out: Vec<String>)
        requires
            self.wf(),
        ensures
            out.deep_view() == used_tags(self@.places),
    {
        let ghost places = self@.places;
        let mut out: Vec<String> = Vec::new();
        let mut i: usize = 0;
        proof {
            assert(places.take(0) == Seq::<PlaceRecordView>::empty());
            assert(out.deep_view() == Seq::<Seq<char>>::empty());
        }
        while i < self.places.len()
            invariant
                i <= self.places.len(),
                places == self@.places,
                places_wf(places),
                out.deep_view() == used_tags(places.take(i as int)),
            decreases self.places.len() - i,
        {
            proof {
                assert(places.take(i as int + 1).drop_last() == places.take(i as int));
                assert(places.take(i as int + 1).last() == places[i as int]);
                assert(places[i as int].wf());
            }
            let revision = self.current_of(i);
            if revision.status.is_existent() {
                let tags = &revision.place.tags;
                let ghost start = out.deep_view();
                let mut k: usize = 0;
                proof {
                    assert(tags.deep_view().take(0) == Seq::<Seq<char>>::empty());
                }
                while k < tags.len()
                    invariant
                        k <= tags.len(),
                        out.deep_view() == with_all_unique(start, tags.deep_view().take(k as int)),
                    decreases tags.len() - k,
                {
                    proof {
                        assert(tags.deep_view().take(k as int + 1).drop_last()
                            == tags.deep_view().take(k as int));
                        assert(tags.deep_view().take(k as int + 1).last() == tags[k as int]@);
                    }
                    push_unique(&mut out, tags[k].clone());
                    k += 1;
                }
                proof {
                    assert(tags.deep_view().take(tags.len() as int) == tags.deep_view());
                }
            }
            i += 1;
        }
        proof {
            assert(places.take(places.len() as int) == places);
        }
        out
    }

    /// How many places use a tag.
    pub fn count_tag_uses(&self, tag: &str) -> (count: u64)
        requires
            self.wf(),
        ensures
            count == tag_count(self@.places, tag@),
    {
        let ghost places = self@.places;
        let mut count: u64 = 0;
        let mut i: usize = 0;
        proof {
            assert(places.take(0) == Seq::<PlaceRecordView>::empty());
        }
        while i < self.places.len()
            invariant
                i <= self.places.len(),
                places == self@.places,
                places_wf(places),
                count <= i,
                count == tag_count(places.take(i as int), tag@),
            decreases self.places.len() - i,
        {
            proof {
                assert(places.take(i as int + 1).drop_last() == places.take(i as int));
                assert(places.take(i as int + 1).last() == places[i as int]);
                assert(places[i as int].wf());
            }
            let revision = self.current_of(i);
            if revision.status.is_existent() && contains_str(&revision.place.tags, tag) {
                count += 1;
            }
            i += 1;
        }
        proof {
            assert(places.take(places.len() as int) == places);
        }
        count
    }

    /// The tags that are used as often as wanted, the most popular first,
    /// and of these one page.
    pub fn most_popular_place_tags(&self, params: &MostPopularTagsParams, pagination: &Pagination) -> (out:
        Vec<TagFrequency>)
        requires
            self.wf(),
        ensures
            exists|all: Seq<TagFrequencyView>|
                {
                    &&& is_tag_ranking(self@.places, *params, all)
                    &&& out.len() == page_len(all.len(), *pagination)
                    &&& forall|k: int|
                        0 <= k < out.len() ==> (#[trigger] out[k])@ == all[page_start(*pagination)
                            + k]
                },
    {
        let ghost places = self@.places;
        let candidates = self.all_used_tags();
        let ghost names = candidates.deep_view();
        let mut all: Vec<TagFrequency> = Vec::new();
        let mut j: usize = 0;
        proof {
            lemma_used_tags(places, Seq::empty());
            assert(all.deep_view() == Seq::<TagFrequencyView>::empty());
        }
        while j < candidates.len()
            invariant
                j <= candidates.len(),
                self.wf(),
                places == self@.places,
                names == candidates.deep_view(),
                distinct(names),
                none_empty(names),
                covers(places, *params, names, j as int, all.deep_view()),
                ranked(all.deep_view()),
            decreases candidates.len() - j,
        {
            let tag = &candidates[j];
            proof {
                assert(names[j as int] == tag@);
            }
            let count = self.count_tag_uses(tag.as_str());
            let low_enough = match params.max_count {
                Some(max) => count <= max,
                None => true,
            };
            let high_enough = match params.min_count {
                Some(min) => count >= min,
                None => true,
            };
            let ghost before = all.deep_view();
            if count > 0 && low_enough && high_enough {
                let item = TagFrequency { tag: tag.clone(), count };
                let pos = insert_ranked(&mut all, item);
                proof {
                    lemma_covers_insert(places, *params, names, j as int, before, pos as int);
                }
            } else {
                proof {
                    lemma_covers_skip(places, *params, names, j as int, before);
                }
            }
            j += 1;
        }
        let ghost ranking = all.deep_view();
        proof {
            lemma_covers_all(places, *params, names, ranking);
        }
        let offset: usize = match pagination.offset {
            Some(offset) => if offset < all.len() as u64 {
                offset as usize
            } else {
                all.len()
            },
            None => 0,
        };
        let rest = all.len() - offset;
        let count: usize = match pagination.limit {
            Some(limit) => if limit < rest as u64 {
                limit as usize
            } else {
                rest
            },
            None => rest,
        };
        let mut out: Vec<TagFrequency> = Vec::new();
        let mut k: usize = 0;
        while k < count
            invariant
                k <= count,
                offset + count <= all.len(),
                ranking == all.deep_view(),
                out.len() == k,
                forall|i: int| 0 <= i < k ==> (#[trigger] out[i])@ == ranking[offset + i],
            decreases count - k,
        {
            out.push(all[offset + k].clone());
            k += 1;
        }
        proof {
            if count > 0 {
                assert(page_start(*pagination) == offset);
            }
        }
        out
    }
}

} // verus!
