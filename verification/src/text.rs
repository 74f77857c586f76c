//! Character-level helpers on strings: equality, order, case, and the
//! splitting of free text into tokens.

use vstd::prelude::*;

verus! {

/// `str`'s equality compares the two strings character by character.
pub assume_specification[ <str as PartialEq>::eq ](a: &str, b: &str) -> (r: bool)
    ensures
        r == (a@ == b@),
;

/// `String::push` appends one character.
pub assume_specification[ String::push ](s: &mut String, ch: char)
    ensures
        final(s)@ == old(s)@.push(ch),
;

/// The lowercase form that `str::to_lowercase` gives a string: Unicode's
/// lowercase mapping, which depends on the characters alone.
pub uninterp spec fn lowercase_of(s: Seq<char>) -> Seq<char>;

/// `str::to_lowercase` returns the lowercase form of the whole string.
pub assume_specification[ str::to_lowercase ](s: &str) -> (r: String)
    ensures
        r@ == lowercase_of(s@),
;

/// The characters of a string, in order.
pub fn chars_of(s: &str) -> (v: Vec<char>)
    ensures
        v@ == s@,
{
    let mut v: Vec<char> = Vec::new();
    for c in it: s.chars()
        invariant
            v@ == it.seq().take(it.index()),
            it.seq() == s@,
    {
        v.push(c);
    }
    v
}

/// The string made of the characters `chars[from..to]`.
pub fn string_of(chars: &Vec<char>, from: usize, to: usize) -> (s: String)
    requires
        from <= to <= chars.len(),
    ensures
        s@ == chars@.subrange(from as int, to as int),
{
    let mut s = String::new();
    let mut i: usize = from;
    while i < to
        invariant
            from <= i <= to <= chars.len(),
            s@ == chars@.subrange(from as int, i as int),
        decreases to - i,
    {
        s.push(chars[i]);
        i += 1;
        assert(chars@.subrange(from as int, i as int) == chars@.subrange(
            from as int,
            i as int - 1,
        ).push(chars@[i as int - 1]));
    }
    s
}

/// Unicode's white space characters.
pub open spec fn is_space(c: char) -> bool {
    let n = c as u32;
    ||| 0x09 <= n <= 0x0D
    ||| n == 0x20
    ||| n == 0x85
    ||| n == 0xA0
    ||| n == 0x1680
    ||| 0x2000 <= n <= 0x200A
    ||| n == 0x2028
    ||| n == 0x2029
    ||| n == 0x202F
    ||| n == 0x205F
    ||| n == 0x3000
}

/// What ends a token: white space, and where `punctuation` is set also a
/// comma or a full stop.
pub open spec fn is_separator(c: char, punctuation: bool) -> bool {
    is_space(c) || (punctuation && (c == ',' || c == '.'))
}

pub fn char_is_space(c: char) -> (b: bool)
    ensures
        b == is_space(c),
{
    let n: u32 = c as u32;
    (0x09 <= n && n <= 0x0D) || n == 0x20 || n == 0x85 || n == 0xA0 || n == 0x1680 || (0x2000 <= n
        && n <= 0x200A) || n == 0x2028 || n == 0x2029 || n == 0x202F || n == 0x205F || n == 0x3000
}

pub fn char_is_separator(c: char, punctuation: bool) -> (b: bool)
    ensures
        b == is_separator(c, punctuation),
{
    char_is_space(c) || (punctuation && (c == ',' || c == '.'))
}

/// A text without a visible character.
pub open spec fn blank(s: Seq<char>) -> bool {
    forall|i: int| 0 <= i < s.len() ==> is_space(#[trigger] s[i])
}

/// Whether a text is empty or holds white space only.
pub fn is_blank(s: &str) -> (b: bool)
    ensures
        b == blank(s@),
{
    let chars = chars_of(s);
    let mut i: usize = 0;
    while i < chars.len()
        invariant
            i <= chars.len(),
            chars@ == s@,
            forall|j: int| 0 <= j < i ==> is_space(#[trigger] chars@[j]),
        decreases chars.len() - i,
    {
        if !char_is_space(chars[i]) {
            return false;
        }
        i += 1;
    }
    true
}

/// Where the run of characters that are no separators, starting at `i`,
/// ends.
pub open spec fn run_end(s: Seq<char>, punctuation: bool, i: int) -> int
    decreases s.len() - i,
{
    if i < 0 || i >= s.len() {
        i
    } else if is_separator(s[i], punctuation) {
        i
    } else {
        run_end(s, punctuation, i + 1)
    }
}

/// The tokens of `s` from position `i` on: the longest runs of characters
/// that are no separators, in the order in which they stand.
pub open spec fn tokens_from(s: Seq<char>, punctuation: bool, i: int) -> Seq<Seq<char>>
    decreases s.len() - i,
{
    if i < 0 || i >= s.len() {
        Seq::empty()
    } else if is_separator(s[i], punctuation) {
        tokens_from(s, punctuation, i + 1)
    } else {
        let j = run_end(s, punctuation, i);
        if i < j <= s.len() {
            seq![s.subrange(i, j)] + tokens_from(s, punctuation, j)
        } else {
            Seq::empty()
        }
    }
}

/// The tokens of a text.
pub open spec fn tokens(s: Seq<char>, punctuation: bool) -> Seq<Seq<char>> {
    tokens_from(s, punctuation, 0)
}

/// A run that starts at a character that is no separator is not empty and
/// ends inside the text.
pub proof fn lemma_run_end_bounds(s: Seq<char>, punctuation: bool, i: int)
    requires
        0 <= i <= s.len(),
    ensures
        i <= run_end(s, punctuation, i) <= s.len(),
        i < s.len() && !is_separator(s[i], punctuation) ==> i < run_end(s, punctuation, i),
        forall|k: int|
            i <= k < run_end(s, punctuation, i) ==> !is_separator(#[trigger] s[k], punctuation),
        run_end(s, punctuation, i) < s.len() ==> is_separator(
            s[run_end(s, punctuation, i)],
            punctuation,
        ),
    decreases s.len() - i,
{
    if i < s.len() && !is_separator(s[i], punctuation) {
        lemma_run_end_bounds(s, punctuation, i + 1);
    }
}

/// No token is empty, and none holds a separator.
pub proof fn lemma_tokens_are_runs(s: Seq<char>, punctuation: bool, i: int)
    requires
        0 <= i <= s.len(),
    ensures
        forall|k: int|
            0 <= k < tokens_from(s, punctuation, i).len() ==> (#[trigger] tokens_from(
                s,
                punctuation,
                i,
            )[k]).len() > 0,
        forall|k: int, m: int|
            0 <= k < tokens_from(s, punctuation, i).len() && 0 <= m < tokens_from(
                s,
                punctuation,
                i,
            )[k].len() ==> !is_separator(
                #[trigger] tokens_from(s, punctuation, i)[k][m],
                punctuation,
            ),
    decreases s.len() - i,
{
    let all = tokens_from(s, punctuation, i);
    if i < s.len() {
        if is_separator(s[i], punctuation) {
            lemma_tokens_are_runs(s, punctuation, i + 1);
            assert(all == tokens_from(s, punctuation, i + 1));
        } else {
            let j = run_end(s, punctuation, i);
            lemma_run_end_bounds(s, punctuation, i);
            lemma_tokens_are_runs(s, punctuation, j);
            let rest = tokens_from(s, punctuation, j);
            let first = s.subrange(i, j);
            assert(all == seq![first] + rest);
            assert forall|k: int| 0 <= k < all.len() implies (#[trigger] all[k]).len() > 0 by {
                if k > 0 {
                    assert(all[k] == rest[k - 1]);
                } else {
                    assert(all[0] == first);
                }
            }
            assert forall|k: int, m: int| 0 <= k < all.len() && 0 <= m < all[k].len() implies
                !is_separator(#[trigger] all[k][m], punctuation) by {
                if k > 0 {
                    assert(all[k] == rest[k - 1]);
                    assert(!is_separator(rest[k - 1][m], punctuation));
                } else {
                    assert(all[0] == first);
                    assert(first[m] == s[i + m]);
                }
            }
        }
    } else {
        assert(all.len() == 0);
    }
}

/// Splits a text into its tokens.
pub fn split_tokens(text: &str, punctuation: bool) -> (out: Vec<String>)
    ensures
        out.deep_view() == tokens(text@, punctuation),
{
    let chars = chars_of(text);
    let n = chars.len();
    let mut out: Vec<String> = Vec::new();
    let mut i: usize = 0;
    assert(out.deep_view() == Seq::<Seq<char>>::empty());
    while i < n
        invariant
            i <= n,
            n == chars.len(),
            chars@ == text@,
            out.deep_view() + tokens_from(chars@, punctuation, i as int) == tokens(
                chars@,
                punctuation,
            ),
        decreases n - i,
    {
        if char_is_separator(chars[i], punctuation) {
            i += 1;
        } else {
            let start = i;
            let ghost before = out.deep_view();
            while i < n && !char_is_separator(chars[i], punctuation)
                invariant
                    start <= i <= n,
                    n == chars.len(),
                    run_end(chars@, punctuation, i as int) == run_end(
                        chars@,
                        punctuation,
                        start as int,
                    ),
                decreases n - i,
            {
                i += 1;
            }
            proof {
                lemma_run_end_bounds(chars@, punctuation, start as int);
            }
            let token = string_of(&chars, start, i);
            out.push(token);
            proof {
                assert(out.deep_view() == before.push(token@));
                assert(before.push(token@) + tokens_from(chars@, punctuation, i as int) == before
                    + (seq![token@] + tokens_from(chars@, punctuation, i as int)));
            }
        }
    }
    proof {
        assert(out.deep_view() + Seq::<Seq<char>>::empty() == out.deep_view());
    }
    out
}

/// A list of strings with one more at its end, unless the new one is empty
/// or stands in the list already.
pub open spec fn add_unique(list: Seq<Seq<char>>, s: Seq<char>) -> Seq<Seq<char>> {
    if s.len() == 0 || list.contains(s) {
        list
    } else {
        list.push(s)
    }
}

/// Whether no string stands twice in a list.
pub open spec fn distinct(list: Seq<Seq<char>>) -> bool {
    forall|i: int, j: int| 0 <= i < j < list.len() ==> list[i] != list[j]
}

/// Whether no string of a list is empty.
pub open spec fn none_empty(list: Seq<Seq<char>>) -> bool {
    forall|i: int| 0 <= i < list.len() ==> (#[trigger] list[i]).len() > 0
}

/// Adding to a list of distinct strings without an empty one gives such a
/// list again.
pub proof fn lemma_add_unique_keeps(list: Seq<Seq<char>>, s: Seq<char>)
    requires
        distinct(list),
        none_empty(list),
    ensures
        distinct(add_unique(list, s)),
        none_empty(add_unique(list, s)),
{
}

/// Whether a list of strings holds the given one.
pub fn contains_str(list: &Vec<String>, s: &str) -> (b: bool)
    ensures
        b == list.deep_view().contains(s@),
{
    let mut i: usize = 0;
    while i < list.len()
        invariant
            i <= list.len(),
            forall|j: int| 0 <= j < i ==> list.deep_view()[j] != s@,
        decreases list.len() - i,
    {
        if *list[i].as_str() == *s {
            assert(list.deep_view()[i as int] == s@);
            return true;
        }
        i += 1;
    }
    false
}

/// Appends a string to a list unless it is empty or stands there already.
pub fn push_unique(list: &mut Vec<String>, s: String)
    ensures
        final(list).deep_view() == add_unique(old(list).deep_view(), s@),
{
    if s.as_str().is_empty() || contains_str(list, s.as_str()) {
    } else {
        let ghost before = list.deep_view();
        list.push(s);
        assert(list.deep_view() == before.push(s@));
    }
}

/// Whether `a` comes before `b` in the order of strings: the first
/// character in which they differ decides, and a proper prefix comes first.
pub open spec fn lex_less(a: Seq<char>, b: Seq<char>) -> bool
    decreases a.len(),
{
    if b.len() == 0 {
        false
    } else if a.len() == 0 {
        true
    } else if a[0] != b[0] {
        (a[0] as u32) < (b[0] as u32)
    } else {
        lex_less(a.drop_first(), b.drop_first())
    }
}

/// Of two strings at most one comes before the other.
pub proof fn lemma_lex_less_asymmetric(a: Seq<char>, b: Seq<char>)
    requires
        lex_less(a, b),
    ensures
        !lex_less(b, a),
    decreases a.len(),
{
    if a.len() > 0 && b.len() > 0 && a[0] == b[0] {
        lemma_lex_less_asymmetric(a.drop_first(), b.drop_first());
    }
}

/// Whether `a` comes before `b` in the order of strings.
pub fn str_less(a: &str, b: &str) -> (r: bool)
    ensures
        r == lex_less(a@, b@),
{
    let x = chars_of(a);
    let y = chars_of(b);
    let mut i: usize = 0;
    proof {
        assert(x@.skip(0) == x@);
        assert(y@.skip(0) == y@);
    }
    while i < x.len() && i < y.len()
        invariant
            i <= x.len(),
            i <= y.len(),
            x@ == a@,
            y@ == b@,
            lex_less(a@, b@) == lex_less(x@.skip(i as int), y@.skip(i as int)),
        decreases x.len() - i,
    {
        let c = x[i];
        let d = y[i];
        proof {
            assert(x@.skip(i as int)[0] == c);
            assert(y@.skip(i as int)[0] == d);
            assert(x@.skip(i as int).drop_first() == x@.skip(i as int + 1));
            assert(y@.skip(i as int).drop_first() == y@.skip(i as int + 1));
        }
        if c != d {
            return (c as u32) < (d as u32);
        }
        i += 1;
    }
    i < y.len()
}

} // verus!
