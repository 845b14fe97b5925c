//! Splitting a query into search tokens. A query with a CJK ideograph goes
//! to the dictionary segmenter; any other query is split at white space and
//! stripped of what is neither letter, digit, `_` nor `-`.

use vstd::prelude::*;
use crate::text::chars_of;
use crate::text::alnum_flags;
use crate::text::alnum_flags_of;
use crate::text::is_whitespace;
use crate::text::is_whitespace_char;
use crate::text::known_flag;
use crate::text::part_views;
use crate::text::slice_of;
use crate::text::string_views;
use crate::text::strings_of;

verus! {

/// The words that the dictionary segmenter cuts a sentence into in its
/// search mode, with its built-in dictionary and its model for unknown words.
pub uninterp spec fn search_segments(sentence: Seq<char>) -> Seq<Seq<char>>;

/// `jieba_rs::Jieba::cut_for_search` on a segmenter made by
/// `jieba_rs::Jieba::new`, with the model for unknown words switched on.
/// The words of the tokens it returns, in its order, are the segments of
/// the sentence. Nothing is claimed of what those segments are.
#[verifier::external_body]
pub(crate) fn cut_for_search(sentence: &str) -> (r: Vec<String>)
    ensures
        string_views(r@) == search_segments(sentence@),
{
    let segmenter = jieba_rs::Jieba::new();
    segmenter.cut_for_search(sentence, true).iter().map(|token| token.word.to_string()).collect()
}

/// CJK Unified Ideographs, their Extension A and their Extension B.
pub open spec fn is_cjk(c: char) -> bool {
    ||| 0x4E00 <= c as u32 <= 0x9FFF
    ||| 0x3400 <= c as u32 <= 0x4DBF
    ||| 0x20000 <= c as u32 <= 0x2A6DF
}

/// Whether some character of `text` is a CJK ideograph.
pub open spec fn has_cjk(text: Seq<char>) -> bool {
    exists|i: int| 0 <= i < text.len() && is_cjk(#[trigger] text[i])
}

/// Whether a token of a query without ideographs keeps the character
/// `c`, given whether it is a letter or a digit.
pub open spec fn keeps(c: char, alnum: bool) -> bool {
    alnum || c == '_' || c == '-'
}

/// The maximal runs of characters of `s` that are not white space, in order.
pub open spec fn words(s: Seq<char>) -> Seq<Seq<char>>
    decreases s.len(),
{
    if s.len() == 0 {
        Seq::empty()
    } else {
        let before = words(s.drop_last());
        if is_whitespace_char(s.last()) {
            before
        } else if s.len() >= 2 && !is_whitespace_char(s[s.len() - 2]) && before.len() > 0 {
            before.drop_last().push(before.last().push(s.last()))
        } else {
            before.push(seq![s.last()])
        }
    }
}

/// The first `n` characters of `w` that a token keeps, in order, where
/// `alnum` says of each character whether it is a letter or a digit; a
/// character beyond its end counts as neither.
pub open spec fn kept_chars(w: Seq<char>, alnum: Seq<bool>, n: int) -> Seq<char>
    decreases n,
{
    if n <= 0 {
        Seq::empty()
    } else if keeps(w[n - 1], known_flag(alnum, n - 1)) {
        kept_chars(w, alnum, n - 1).push(w[n - 1])
    } else {
        kept_chars(w, alnum, n - 1)
    }
}

/// The characters of `w` that a token keeps, in order: its letters and
/// digits, as the standard library classes them, `_` and `-`.
pub open spec fn word_chars(w: Seq<char>) -> Seq<char> {
    kept_chars(w, alnum_flags(w), w.len() as int)
}

/// How many characters of white space `w` begins with.
pub open spec fn leading_space(w: Seq<char>) -> nat
    decreases w.len(),
{
    if w.len() > 0 && is_whitespace_char(w[0]) {
        1 + leading_space(w.drop_first())
    } else {
        0
    }
}

/// How many characters of white space `w` ends with.
pub open spec fn trailing_space(w: Seq<char>) -> nat
    decreases w.len(),
{
    if w.len() > 0 && is_whitespace_char(w.last()) {
        1 + trailing_space(w.drop_last())
    } else {
        0
    }
}

/// `w` without the white space at its start and at its end.
pub open spec fn trimmed(w: Seq<char>) -> Seq<char> {
    let rest = w.skip(leading_space(w) as int);
    rest.take(rest.len() - trailing_space(rest))
}

/// The members of `ts` that are not empty, in order.
pub open spec fn non_empty(ts: Seq<Seq<char>>) -> Seq<Seq<char>>
    decreases ts.len(),
{
    if ts.len() == 0 {
        Seq::empty()
    } else if ts.last().len() > 0 {
        non_empty(ts.drop_last()).push(ts.last())
    } else {
        non_empty(ts.drop_last())
    }
}

/// The tokens that the segments of a sentence give: each segment without
/// the white space at its ends, empty ones left out.
pub open spec fn segment_tokens(segments: Seq<Seq<char>>) -> Seq<Seq<char>> {
    non_empty(segments.map_values(|w: Seq<char>| trimmed(w)))
}

/// The tokens that the words of a query give: each word with the
/// characters that a token keeps, empty ones left out.
pub open spec fn word_tokens(pieces: Seq<Seq<char>>) -> Seq<Seq<char>> {
    non_empty(pieces.map_values(|w: Seq<char>| word_chars(w)))
}

/// The tokens of a query.
pub open spec fn tokenize(query: Seq<char>) -> Seq<Seq<char>> {
    if has_cjk(query) {
        segment_tokens(search_segments(query))
    } else {
        word_tokens(words(query))
    }
}

/// Every member of `non_empty(ts)` has a character.
pub proof fn lemma_non_empty(ts: Seq<Seq<char>>)
    ensures
        forall|i: int| 0 <= i < non_empty(ts).len() ==> (#[trigger] non_empty(ts)[i]).len() > 0,
        non_empty(ts).len() <= ts.len(),
    decreases ts.len(),
{
    if ts.len() > 0 {
        lemma_non_empty(ts.drop_last());
    }
}

/// No token of a query is empty.
pub proof fn lemma_tokens_not_empty(query: Seq<char>)
    ensures
        forall|i: int| 0 <= i < tokenize(query).len() ==> (#[trigger] tokenize(query)[i]).len() > 0,
{
    lemma_non_empty(search_segments(query).map_values(|w: Seq<char>| trimmed(w)));
    lemma_non_empty(words(query).map_values(|w: Seq<char>| word_chars(w)));
}

/// Whether `c` is a CJK ideograph.
pub fn is_cjk_char(c: char) -> (r: bool)
    ensures
        r == is_cjk(c),
{
    let code: u32 = c as u32;
    (0x4E00 <= code && code <= 0x9FFF) || (0x3400 <= code && code <= 0x4DBF) || (0x20000 <= code
        && code <= 0x2A6DF)
}

/// Whether `text` holds a CJK ideograph.
pub fn contains_chinese(text: &str) -> (r: bool)
    ensures
        r == has_cjk(text@),
{
    let chars = chars_of(text);
    let mut i: usize = 0;
    while i < chars.len()
        invariant
            i <= chars.len(),
            chars@ == text@,
            forall|k: int| 0 <= k < i ==> !is_cjk(#[trigger] chars@[k]),
        decreases chars.len() - i,
    {
        if is_cjk_char(chars[i]) {
            return true;
        }
        i = i + 1;
    }
    false
}

/// The maximal runs of characters of `s` that are not white space.
pub fn split_words(s: &Vec<char>) -> (r: Vec<Vec<char>>)
    ensures
        part_views(r@) == words(s@),
{
    let mut out: Vec<Vec<char>> = Vec::new();
    let mut current: Vec<char> = Vec::new();
    let mut i: usize = 0;
    assert(s@.take(0) =~= Seq::<char>::empty());
    assert(part_views(out@) =~= Seq::<Seq<char>>::empty());
    while i < s.len()
        invariant
            i <= s.len(),
            current@.len() > 0 <==> i > 0 && !is_whitespace_char(s@[i - 1]),
            current@.len() > 0 ==> words(s@.take(i as int)) == part_views(out@).push(current@),
            current@.len() == 0 ==> words(s@.take(i as int)) == part_views(out@),
        decreases s.len() - i,
    {
        let c = s[i];
        let ghost seen = s@.take(i as int);
        let ghost next = s@.take(i + 1);
        proof {
            assert(next.drop_last() =~= seen);
            assert(next.last() == c);
            if i > 0 {
                assert(next[next.len() - 2] == s@[i - 1]);
            }
        }
        if is_whitespace(c) {
            if current.len() > 0 {
                let ghost before = part_views(out@);
                out.push(current);
                assert(part_views(out@) =~= before.push(current@));
                current = Vec::new();
            }
        } else {
            let ghost held = current@;
            proof {
                let before = words(seen);
                if held.len() > 0 {
                    assert(before.last() == held);
                    assert(before.drop_last() =~= part_views(out@));
                    assert(words(next) == part_views(out@).push(held.push(c)));
                } else {
                    assert(held.push(c) =~= seq![c]);
                    assert(words(next) == part_views(out@).push(seq![c]));
                }
            }
            current.push(c);
        }
        i = i + 1;
    }
    assert(s@.take(s.len() as int) =~= s@);
    if current.len() > 0 {
        let ghost before = part_views(out@);
        out.push(current);
        assert(part_views(out@) =~= before.push(current@));
    }
    out
}

/// The characters of `w` that a token keeps, where `alnum` says of each
/// character whether it is a letter or a digit; a character beyond its
/// end counts as neither.
pub fn clean_word_with(w: &Vec<char>, alnum: &Vec<bool>) -> (r: Vec<char>)
    ensures
        r@ == kept_chars(w@, alnum@, w.len() as int),
{
    let mut out: Vec<char> = Vec::new();
    let mut i: usize = 0;
    while i < w.len()
        invariant
            i <= w.len(),
            out@ == kept_chars(w@, alnum@, i as int),
        decreases w.len() - i,
    {
        let c = w[i];
        let flag = i < alnum.len() && alnum[i];
        if flag || c == '_' || c == '-' {
            out.push(c);
        }
        i = i + 1;
    }
    out
}

/// The characters of `w` that a token keeps.
pub fn clean_word(w: &Vec<char>) -> (r: Vec<char>)
    ensures
        r@ == word_chars(w@),
{
    clean_word_with(w, &alnum_flags_of(w))
}

/// `w` without the white space at its start and at its end.
pub fn trim_chars(w: &Vec<char>) -> (r: Vec<char>)
    ensures
        r@ == trimmed(w@),
{
    let mut start: usize = 0;
    assert(w@.skip(0) =~= w@);
    while start < w.len() && is_whitespace(w[start])
        invariant
            start <= w.len(),
            leading_space(w@) == start + leading_space(w@.skip(start as int)),
        decreases w.len() - start,
    {
        proof {
            assert(w@.skip(start as int).drop_first() =~= w@.skip(start + 1));
        }
        start = start + 1;
    }
    let ghost rest = w@.skip(start as int);
    let mut end: usize = w.len();
    assert(rest.take(rest.len() as int) =~= rest);
    while end > start && is_whitespace(w[end - 1])
        invariant
            start <= end <= w.len(),
            rest == w@.skip(start as int),
            trailing_space(rest) == (w.len() - end) + trailing_space(rest.take(end - start)),
        decreases end,
    {
        proof {
            let shown = rest.take(end - start);
            assert(shown.last() == w@[end - 1]);
            assert(shown.drop_last() =~= rest.take(end - start - 1));
        }
        end = end - 1;
    }
    proof {
        let shown = rest.take(end - start);
        if end > start {
            assert(shown.last() == w@[end - 1]);
        }
        assert(trailing_space(shown) == 0);
        assert(rest.take(rest.len() - trailing_space(rest)) =~= w@.subrange(
            start as int,
            end as int,
        ));
    }
    slice_of(w, start, end)
}

/// The tokens that the segments of a sentence give.
pub fn tokens_of_segments(segments: &Vec<String>) -> (r: Vec<Vec<char>>)
    ensures
        part_views(r@) == segment_tokens(string_views(segments@)),
{
    let mut tokens: Vec<Vec<char>> = Vec::new();
    let ghost all = string_views(segments@).map_values(|w: Seq<char>| trimmed(w));
    let mut i: usize = 0;
    assert(all.take(0) =~= Seq::<Seq<char>>::empty());
    assert(part_views(tokens@) =~= Seq::<Seq<char>>::empty());
    while i < segments.len()
        invariant
            i <= segments.len(),
            all == string_views(segments@).map_values(|w: Seq<char>| trimmed(w)),
            part_views(tokens@) == non_empty(all.take(i as int)),
        decreases segments.len() - i,
    {
        let word = trim_chars(&chars_of(segments[i].as_str()));
        proof {
            assert(all.take(i + 1).drop_last() =~= all.take(i as int));
            assert(string_views(segments@)[i as int] == segments@[i as int]@);
            assert(all.take(i + 1).last() == word@);
        }
        if word.len() > 0 {
            let ghost before = part_views(tokens@);
            tokens.push(word);
            assert(part_views(tokens@) =~= before.push(word@));
        }
        i = i + 1;
    }
    assert(all.take(segments.len() as int) =~= all);
    tokens
}

/// The tokens that the words of a query give.
pub fn tokens_of_words(pieces: &Vec<Vec<char>>) -> (r: Vec<Vec<char>>)
    ensures
        part_views(r@) == word_tokens(part_views(pieces@)),
{
    let mut tokens: Vec<Vec<char>> = Vec::new();
    let ghost all = part_views(pieces@).map_values(|w: Seq<char>| word_chars(w));
    let mut i: usize = 0;
    assert(all.take(0) =~= Seq::<Seq<char>>::empty());
    assert(part_views(tokens@) =~= Seq::<Seq<char>>::empty());
    while i < pieces.len()
        invariant
            i <= pieces.len(),
            all == part_views(pieces@).map_values(|w: Seq<char>| word_chars(w)),
            part_views(tokens@) == non_empty(all.take(i as int)),
        decreases pieces.len() - i,
    {
        let word = clean_word(&pieces[i]);
        proof {
            assert(all.take(i + 1).drop_last() =~= all.take(i as int));
            assert(part_views(pieces@)[i as int] == pieces@[i as int]@);
            assert(all.take(i + 1).last() == word@);
        }
        if word.len() > 0 {
            let ghost before = part_views(tokens@);
            tokens.push(word);
            assert(part_views(tokens@) =~= before.push(word@));
        }
        i = i + 1;
    }
    assert(all.take(pieces.len() as int) =~= all);
    tokens
}

/// Splits a query into its tokens.
///
/// The tokens come in the order of the query and none is empty.
pub fn tokenize_query(query: &str) -> (r: Vec<String>)
    ensures
        string_views(r@) == tokenize(query@),
        forall|i: int| 0 <= i < r.len() ==> (#[trigger] r@[i])@.len() > 0,
{
    let tokens = if contains_chinese(query) {
        tokens_of_segments(&cut_for_search(query))
    } else {
        tokens_of_words(&split_words(&chars_of(query)))
    };
    let out = strings_of(&tokens);
    proof {
        lemma_tokens_not_empty(query@);
        assert(string_views(out@) == tokenize(query@));
        assert forall|i: int| 0 <= i < out.len() implies (#[trigger] out@[i])@.len() > 0 by {
            assert(string_views(out@)[i] == out@[i]@);
            assert(tokenize(query@)[i].len() > 0);
        }
    }
    out
}

} // verus!
