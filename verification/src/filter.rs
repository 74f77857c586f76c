//! What is read out of the free text of a search: hash tags, the text
//! that is left without them, and its words.

use crate::text::{
    add_unique, chars_of, lowercase_of, push_unique, split_tokens, string_of, tokens,
};
use vstd::prelude::*;

verus! {

/// Where the first `#` of a token stands at or after `i`; the token's
/// length if there is none.
pub open spec fn hash_pos(token: Seq<char>, i: int) -> int
    decreases token.len() - i,
{
    if i < 0 || i >= token.len() {
        token.len() as int
    } else if token[i] == '#' {
        i
    } else {
        hash_pos(token, i + 1)
    }
}

/// The hash tag that a token holds: what follows its first `#`, if
/// anything does.
pub open spec fn hash_tag_of(token: Seq<char>) -> Option<Seq<char>> {
    let i = hash_pos(token, 0);
    if i + 1 < token.len() {
        Some(token.skip(i + 1))
    } else {
        None
    }
}

/// What is left of a token without its hash tag.
pub open spec fn without_hash_tag(token: Seq<char>) -> Seq<char> {
    let i = hash_pos(token, 0);
    if i + 1 < token.len() {
        token.take(i)
    } else {
        token
    }
}

/// The hash tags of a list of tokens in lower case, each once, in the
/// order in which they first stand.
pub open spec fn hash_tags_of(toks: Seq<Seq<char>>) -> Seq<Seq<char>>
    decreases toks.len(),
{
    if toks.len() == 0 {
        Seq::empty()
    } else {
        match hash_tag_of(toks.last()) {
            Some(tag) => add_unique(hash_tags_of(toks.drop_last()), lowercase_of(tag)),
            None => hash_tags_of(toks.drop_last()),
        }
    }
}

/// A text with one more word at its end, after a space where it is not the
/// first. An empty word adds nothing.
pub open spec fn with_word(text: Seq<char>, word: Seq<char>) -> Seq<char> {
    if word.len() == 0 {
        text
    } else if text.len() == 0 {
        word
    } else {
        text.push(' ') + word
    }
}

/// The tokens of a list without their hash tags, with one space between
/// each two of them.
pub open spec fn text_without_hash_tags(toks: Seq<Seq<char>>) -> Seq<char>
    decreases toks.len(),
{
    if toks.len() == 0 {
        Seq::empty()
    } else {
        with_word(text_without_hash_tags(toks.drop_last()), without_hash_tag(toks.last()))
    }
}

/// The words of a text in lower case: what stands between white space,
/// commas and full stops.
pub open spec fn words_of(text: Seq<char>) -> Seq<Seq<char>> {
    Seq::new(tokens(text, true).len(), |i: int| lowercase_of(tokens(text, true)[i]))
}

/// Where the first `#` of a token stands.
fn find_hash(token: &Vec<char>) -> (i: usize)
    ensures
        i == hash_pos(token@, 0),
        i <= token.len(),
{
    let mut i: usize = 0;
    while i < token.len() && token[i] != '#'
        invariant
            i <= token.len(),
            hash_pos(token@, i as int) == hash_pos(token@, 0),
        decreases token.len() - i,
    {
        i += 1;
    }
    i
}

/// The hash tags that a text holds: of each part between white space what
/// follows its first `#`, in lower case, each tag once.
pub fn extract_hash_tags(text: &str) -> (out: Vec<String>)
    ensures
        out.deep_view() == hash_tags_of(tokens(text@, false)),
{
    let toks = split_tokens(text, false);
    let mut out: Vec<String> = Vec::new();
    let mut k: usize = 0;
    assert(toks.deep_view().take(0) == Seq::<Seq<char>>::empty());
    assert(out.deep_view() == Seq::<Seq<char>>::empty());
    while k < toks.len()
        invariant
            k <= toks.len(),
            out.deep_view() == hash_tags_of(toks.deep_view().take(k as int)),
        decreases toks.len() - k,
    {
        proof {
            assert(toks.deep_view().take(k as int + 1).drop_last() == toks.deep_view().take(
                k as int,
            ));
            assert(toks.deep_view().take(k as int + 1).last() == toks[k as int]@);
        }
        let chars = chars_of(toks[k].as_str());
        let i = find_hash(&chars);
        if i < chars.len() && i + 1 < chars.len() {
            let tag = string_of(&chars, i + 1, chars.len());
            assert(tag@ == chars@.skip(i as int + 1));
            push_unique(&mut out, tag.as_str().to_lowercase());
        }
        k += 1;
    }
    assert(toks.deep_view().take(toks.len() as int) == toks.deep_view());
    out
}

/// A text without its hash tags: what is left of each part between white
/// space, with one space between each two.
pub fn remove_hash_tags(text: &str) -> (out: String)
    ensures
        out@ == text_without_hash_tags(tokens(text@, false)),
{
    let toks = split_tokens(text, false);
    let mut out = String::new();
    let mut k: usize = 0;
    assert(toks.deep_view().take(0) == Seq::<Seq<char>>::empty());
    while k < toks.len()
        invariant
            k <= toks.len(),
            out@ == text_without_hash_tags(toks.deep_view().take(k as int)),
        decreases toks.len() - k,
    {
        proof {
            assert(toks.deep_view().take(k as int + 1).drop_last() == toks.deep_view().take(
                k as int,
            ));
            assert(toks.deep_view().take(k as int + 1).last() == toks[k as int]@);
        }
        let chars = chars_of(toks[k].as_str());
        let i = find_hash(&chars);
        let end = if i < chars.len() && i + 1 < chars.len() {
            i
        } else {
            chars.len()
        };
        let word = string_of(&chars, 0, end);
        assert(word@ == without_hash_tag(toks[k as int]@)) by {
            assert(chars@.subrange(0, end as int) == chars@.take(end as int));
            assert(chars@.take(chars@.len() as int) == chars@);
        }
        if !word.as_str().is_empty() {
            if !out.as_str().is_empty() {
                out.push(' ');
            }
            out.append(word.as_str());
        }
        k += 1;
    }
    assert(toks.deep_view().take(toks.len() as int) == toks.deep_view());
    out
}

/// The words of a text, in lower case.
pub fn split_text_to_words(text: &str) -> (out: Vec<String>)
    ensures
        out.deep_view() == words_of(text@),
{
    let toks = split_tokens(text, true);
    let mut out: Vec<String> = Vec::new();
    let mut k: usize = 0;
    while k < toks.len()
        invariant
            k <= toks.len(),
            toks.deep_view() == tokens(text@, true),
            out.len() == k,
            forall|j: int| 0 <= j < k ==> out[j]@ == lowercase_of(toks[j]@),
        decreases toks.len() - k,
    {
        out.push(toks[k].as_str().to_lowercase());
        k += 1;
    }
    assert(out.deep_view() =~= words_of(text@)) by {
        assert forall|j: int| 0 <= j < out.len() implies out.deep_view()[j] == words_of(text@)[j] by {
            assert(toks.deep_view()[j] == toks[j]@);
        }
    }
    out
}

} // verus!
