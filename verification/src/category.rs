//! Categories: a closed vocabulary of tags with fixed identifiers.

use crate::text::{add_unique, push_unique};
use vstd::prelude::*;

verus! {

pub const CATEGORY_UID_NON_PROFIT: &'static str = "2cd00bebec0c48ba9db761da48678134";

pub const CATEGORY_UID_COMMERCIAL: &'static str = "77b3c33a92554bcf8e8c2c86cedd6f6f";

pub const CATEGORY_UID_EVENT: &'static str = "c2dc278a2d6a4b9b8a50cb606fc017ed";

pub const CATEGORY_TAG_NON_PROFIT: &'static str = "non-profit";

pub const CATEGORY_TAG_COMMERCIAL: &'static str = "commercial";

pub const CATEGORY_TAG_EVENT: &'static str = "event";

/// A category: an identifier and the tag that stands for it.
#[derive(Debug, PartialEq, Eq)]
pub struct Category {
    pub uid: String,
    pub tag: String,
}

pub struct CategoryView {
    pub uid: Seq<char>,
    pub tag: Seq<char>,
}

impl View for Category {
    type V = CategoryView;

    open spec fn view(&self) -> CategoryView {
        CategoryView { uid: self.uid@, tag: self.tag@ }
    }
}

impl DeepView for Category {
    type V = CategoryView;

    open spec fn deep_view(&self) -> CategoryView {
        self@
    }
}

/// The tag that stands for the category with the given identifier.
pub open spec fn tag_of_uid(uid: Seq<char>) -> Option<Seq<char>> {
    if uid == CATEGORY_UID_NON_PROFIT@ {
        Some(CATEGORY_TAG_NON_PROFIT@)
    } else if uid == CATEGORY_UID_COMMERCIAL@ {
        Some(CATEGORY_TAG_COMMERCIAL@)
    } else if uid == CATEGORY_UID_EVENT@ {
        Some(CATEGORY_TAG_EVENT@)
    } else {
        None
    }
}

/// The identifier of the category for which the given tag stands.
pub open spec fn uid_of_tag(tag: Seq<char>) -> Option<Seq<char>> {
    if tag == CATEGORY_TAG_NON_PROFIT@ {
        Some(CATEGORY_UID_NON_PROFIT@)
    } else if tag == CATEGORY_TAG_COMMERCIAL@ {
        Some(CATEGORY_UID_COMMERCIAL@)
    } else if tag == CATEGORY_TAG_EVENT@ {
        Some(CATEGORY_UID_EVENT@)
    } else {
        None
    }
}

/// Identifiers and tags of categories correspond one to one.
pub proof fn lemma_category_table(s: Seq<char>)
    ensures
        tag_of_uid(s) matches Some(t) ==> uid_of_tag(t) == Some(s),
        uid_of_tag(s) matches Some(u) ==> tag_of_uid(u) == Some(s),
{
    reveal_strlit("2cd00bebec0c48ba9db761da48678134");
    reveal_strlit("77b3c33a92554bcf8e8c2c86cedd6f6f");
    reveal_strlit("c2dc278a2d6a4b9b8a50cb606fc017ed");
    reveal_strlit("non-profit");
    reveal_strlit("commercial");
    reveal_strlit("event");
    assert(CATEGORY_UID_NON_PROFIT@[0] != CATEGORY_UID_COMMERCIAL@[0]);
    assert(CATEGORY_UID_NON_PROFIT@[0] != CATEGORY_UID_EVENT@[0]);
    assert(CATEGORY_UID_COMMERCIAL@[0] != CATEGORY_UID_EVENT@[0]);
    assert(CATEGORY_TAG_NON_PROFIT@[0] != CATEGORY_TAG_COMMERCIAL@[0]);
    assert(CATEGORY_TAG_NON_PROFIT@[0] != CATEGORY_TAG_EVENT@[0]);
    assert(CATEGORY_TAG_COMMERCIAL@[0] != CATEGORY_TAG_EVENT@[0]);
}

/// The tags of a list that stand for no category, in their order.
pub open spec fn plain_tags(tags: Seq<Seq<char>>) -> Seq<Seq<char>>
    decreases tags.len(),
{
    if tags.len() == 0 {
        Seq::empty()
    } else if uid_of_tag(tags.last()) is Some {
        plain_tags(tags.drop_last())
    } else {
        plain_tags(tags.drop_last()).push(tags.last())
    }
}

/// The categories for which tags of a list stand, in the order of the tags.
pub open spec fn categories_of_tags(tags: Seq<Seq<char>>) -> Seq<CategoryView>
    decreases tags.len(),
{
    if tags.len() == 0 {
        Seq::empty()
    } else {
        match uid_of_tag(tags.last()) {
            Some(uid) => categories_of_tags(tags.drop_last()).push(
                CategoryView { uid, tag: tags.last() },
            ),
            None => categories_of_tags(tags.drop_last()),
        }
    }
}

/// The tags of the categories with the given identifiers, in the order of
/// the identifiers. An identifier of no category gives no tag.
pub open spec fn tags_of_uids(uids: Seq<Seq<char>>) -> Seq<Seq<char>>
    decreases uids.len(),
{
    if uids.len() == 0 {
        Seq::empty()
    } else {
        match tag_of_uid(uids.last()) {
            Some(tag) => tags_of_uids(uids.drop_last()).push(tag),
            None => tags_of_uids(uids.drop_last()),
        }
    }
}

/// A list of tags with each of `more` added that is neither empty nor in
/// the list already.
pub open spec fn with_all_unique(tags: Seq<Seq<char>>, more: Seq<Seq<char>>) -> Seq<Seq<char>>
    decreases more.len(),
{
    if more.len() == 0 {
        tags
    } else {
        add_unique(with_all_unique(tags, more.drop_last()), more.last())
    }
}

/// What a list of tags holds after others have been added: what it held
/// before, and those of the others that are not empty. Tags that were
/// distinct and not empty before are so afterwards.
pub proof fn lemma_with_all_unique(tags: Seq<Seq<char>>, more: Seq<Seq<char>>, t: Seq<char>)
    ensures
        with_all_unique(tags, more).contains(t) <==> tags.contains(t) || (more.contains(t)
            && t.len() > 0),
        crate::text::distinct(tags) ==> crate::text::distinct(with_all_unique(tags, more)),
        crate::text::none_empty(tags) ==> crate::text::none_empty(with_all_unique(tags, more)),
    decreases more.len(),
{
    if more.len() > 0 {
        let head = more.drop_last();
        let last = more.last();
        lemma_with_all_unique(tags, head, t);
        let before = with_all_unique(tags, head);
        let after = with_all_unique(tags, more);
        assert(after == add_unique(before, last));
        if crate::text::distinct(tags) && crate::text::none_empty(tags) {
            crate::text::lemma_add_unique_keeps(before, last);
        }
        if crate::text::distinct(tags) {
            assert forall|i: int, j: int| 0 <= i < j < after.len() implies after[i] != after[j] by {
                if j < before.len() {
                    assert(after[i] == before[i] && after[j] == before[j]);
                } else {
                    assert(after[i] == before[i]);
                    assert(before.contains(before[i]));
                }
            }
        }
        if crate::text::none_empty(tags) {
            assert forall|i: int| 0 <= i < after.len() implies (#[trigger] after[i]).len() > 0 by {
                if i < before.len() {
                    assert(after[i] == before[i]);
                }
            }
        }
        if after.contains(t) {
            let k = choose|k: int| 0 <= k < after.len() && after[k] == t;
            if k < before.len() {
                assert(after[k] == before[k]);
                assert(before.contains(t));
            } else {
                assert(t == last);
                assert(more[more.len() - 1] == t);
            }
            if more.contains(t) && !head.contains(t) {
            }
            if head.contains(t) {
                let m = choose|m: int| 0 <= m < head.len() && head[m] == t;
                assert(more[m] == t);
            }
        }
        if tags.contains(t) || (more.contains(t) && t.len() > 0) {
            if before.contains(t) {
                let k = choose|k: int| 0 <= k < before.len() && before[k] == t;
                assert(after[k] == t);
            } else {
                // `t` is the last of `more`, and new.
                if more.contains(t) && t.len() > 0 {
                    let m = choose|m: int| 0 <= m < more.len() && more[m] == t;
                    if m < head.len() {
                        assert(head[m] == t);
                        assert(head.contains(t));
                    } else {
                        assert(t == last);
                        assert(after == before.push(last));
                        assert(after[before.len() as int] == t);
                    }
                }
            }
        }
    }
}

impl Category {
    /// The tag of the category with the given identifier.
    pub fn tag_for_uid(uid: &str) -> (r: Option<&'static str>)
        ensures
            r.deep_view() == tag_of_uid(uid@),
    {
        if *uid == *CATEGORY_UID_NON_PROFIT {
            Some(CATEGORY_TAG_NON_PROFIT)
        } else if *uid == *CATEGORY_UID_COMMERCIAL {
            Some(CATEGORY_TAG_COMMERCIAL)
        } else if *uid == *CATEGORY_UID_EVENT {
            Some(CATEGORY_TAG_EVENT)
        } else {
            None
        }
    }

    /// The identifier of the category for which the given tag stands.
    pub fn uid_for_tag(tag: &str) -> (r: Option<&'static str>)
        ensures
            r.deep_view() == uid_of_tag(tag@),
    {
        if *tag == *CATEGORY_TAG_NON_PROFIT {
            Some(CATEGORY_UID_NON_PROFIT)
        } else if *tag == *CATEGORY_TAG_COMMERCIAL {
            Some(CATEGORY_UID_COMMERCIAL)
        } else if *tag == *CATEGORY_TAG_EVENT {
            Some(CATEGORY_UID_EVENT)
        } else {
            None
        }
    }

    /// The name under which the category is shown: its tag.
    pub fn name(&self) -> (r: String)
        ensures
            r@ == self.tag@,
    {
        self.tag.clone()
    }

    /// The tags of the categories with the given identifiers.
    pub fn tags_for_uids(uids: &Vec<String>) -> (out: Vec<String>)
        ensures
            out.deep_view() == tags_of_uids(uids.deep_view()),
    {
        let mut out: Vec<String> = Vec::new();
        let mut i: usize = 0;
        assert(uids.deep_view().take(0) == Seq::<Seq<char>>::empty());
        assert(out.deep_view() == Seq::<Seq<char>>::empty());
        while i < uids.len()
            invariant
                i <= uids.len(),
                out.deep_view() == tags_of_uids(uids.deep_view().take(i as int)),
            decreases uids.len() - i,
        {
            let ghost before = out.deep_view();
            proof {
                assert(uids.deep_view().take(i as int + 1).drop_last() == uids.deep_view().take(
                    i as int,
                ));
                assert(uids.deep_view().take(i as int + 1).last() == uids[i as int]@);
            }
            match Category::tag_for_uid(uids[i].as_str()) {
                Some(tag) => {
                    out.push(tag.to_owned());
                    assert(out.deep_view() == before.push(tag@));
                },
                None => {},
            }
            i += 1;
        }
        assert(uids.deep_view().take(uids.len() as int) == uids.deep_view());
        out
    }

    /// Adds to a list of tags those of the categories with the given
    /// identifiers, each one unless it is in the list already.
    pub fn merge_uids_into_tags(uids: &Vec<String>, tags: Vec<String>) -> (out: Vec<String>)
        ensures
            out.deep_view() == with_all_unique(
                tags.deep_view(),
                tags_of_uids(uids.deep_view()),
            ),
    {
        let more = Category::tags_for_uids(uids);
        let mut out = tags;
        let mut i: usize = 0;
        assert(more.deep_view().take(0) == Seq::<Seq<char>>::empty());
        while i < more.len()
            invariant
                i <= more.len(),
                out.deep_view() == with_all_unique(
                    tags.deep_view(),
                    more.deep_view().take(i as int),
                ),
            decreases more.len() - i,
        {
            proof {
                assert(more.deep_view().take(i as int + 1).drop_last() == more.deep_view().take(
                    i as int,
                ));
                assert(more.deep_view().take(i as int + 1).last() == more[i as int]@);
            }
            push_unique(&mut out, more[i].clone());
            i += 1;
        }
        assert(more.deep_view().take(more.len() as int) == more.deep_view());
        out
    }

    /// Parts a list of tags into those that stand for no category and the
    /// categories for which the others stand.
    pub fn split_from_tags(tags: Vec<String>) -> (r: (Vec<String>, Vec<Category>))
        ensures
            r.0.deep_view() == plain_tags(tags.deep_view()),
            r.1.deep_view() == categories_of_tags(tags.deep_view()),
    {
        let mut plain: Vec<String> = Vec::new();
        let mut categories: Vec<Category> = Vec::new();
        let mut i: usize = 0;
        assert(tags.deep_view().take(0) == Seq::<Seq<char>>::empty());
        assert(plain.deep_view() == Seq::<Seq<char>>::empty());
        assert(categories.deep_view() == Seq::<CategoryView>::empty());
        while i < tags.len()
            invariant
                i <= tags.len(),
                plain.deep_view() == plain_tags(tags.deep_view().take(i as int)),
                categories.deep_view() == categories_of_tags(tags.deep_view().take(i as int)),
            decreases tags.len() - i,
        {
            let ghost plain_before = plain.deep_view();
            let ghost categories_before = categories.deep_view();
            proof {
                assert(tags.deep_view().take(i as int + 1).drop_last() == tags.deep_view().take(
                    i as int,
                ));
                assert(tags.deep_view().take(i as int + 1).last() == tags[i as int]@);
            }
            match Category::uid_for_tag(tags[i].as_str()) {
                Some(uid) => {
                    let category = Category { uid: uid.to_owned(), tag: tags[i].clone() };
                    categories.push(category);
                    assert(categories.deep_view() == categories_before.push(category@));
                },
                None => {
                    let tag = tags[i].clone();
                    plain.push(tag);
                    assert(plain.deep_view() == plain_before.push(tag@));
                },
            }
            i += 1;
        }
        assert(tags.deep_view().take(tags.len() as int) == tags.deep_view());
        (plain, categories)
    }
}

} // verus!
