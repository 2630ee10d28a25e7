use crate::normalize::{replace_all, replaced};
use regex::Regex;
use vstd::prelude::*;

verus! {

/// Whether `c` has the Unicode property `White_Space`.
pub open spec fn is_whitespace(c: char) -> bool {
    let u = c as u32;
    ||| 0x09 <= u <= 0x0D
    ||| u == 0x20
    ||| u == 0x85
    ||| u == 0xA0
    ||| u == 0x1680
    ||| 0x2000 <= u <= 0x200A
    ||| u == 0x2028
    ||| u == 0x2029
    ||| u == 0x202F
    ||| u == 0x205F
    ||| u == 0x3000
}

/// Whether `c` is whitespace.
pub fn is_whitespace_char(c: char) -> (b: bool)
    ensures
        b == is_whitespace(c),
{
    let u: u32 = c as u32;
    (0x09 <= u && u <= 0x0D) || u == 0x20 || u == 0x85 || u == 0xA0 || u == 0x1680 || (0x2000 <= u
        && u <= 0x200A) || u == 0x2028 || u == 0x2029 || u == 0x202F || u == 0x205F || u == 0x3000
}

/// The lower-case form of `s` as `str::to_lowercase` computes it.
pub uninterp spec fn lowercase(s: Seq<char>) -> Seq<char>;

/// `str::to_lowercase`. Believed without proof: the call returns, and what it
/// returns depends on the characters of `s` alone.
pub assume_specification[ str::to_lowercase ](s: &str) -> (out: String)
    ensures
        out@ == lowercase(s@),
;

/// `String::push`. Believed without proof: the call appends `ch` to the
/// string and leaves what was there.
pub assume_specification[ String::push ](s: &mut String, ch: char)
    ensures
        final(s)@ == old(s)@.push(ch),
;

/// Length of the longest prefix of `s` that holds no whitespace.
pub open spec fn word_len(s: Seq<char>) -> nat
    decreases s.len(),
{
    if s.len() == 0 || is_whitespace(s[0]) {
        0
    } else {
        1 + word_len(s.drop_first())
    }
}

/// The maximal runs of non-whitespace characters of `s`, from left to right.
pub open spec fn words(s: Seq<char>) -> Seq<Seq<char>>
    decreases s.len(),
    via words_decreases
{
    if s.len() == 0 {
        Seq::empty()
    } else if is_whitespace(s[0]) {
        words(s.drop_first())
    } else {
        seq![s.take(word_len(s) as int)] + words(s.skip(word_len(s) as int))
    }
}

#[via_fn]
proof fn words_decreases(s: Seq<char>) {
    lemma_word_len_bound(s);
}

/// A first word is no longer than the text, and not empty where the text
/// begins with a character that is not whitespace.
pub proof fn lemma_word_len_bound(s: Seq<char>)
    ensures
        word_len(s) <= s.len(),
        s.len() > 0 && !is_whitespace(s[0]) ==> word_len(s) >= 1,
    decreases s.len(),
{
    if s.len() > 0 && !is_whitespace(s[0]) {
        lemma_word_len_bound(s.drop_first());
    }
}

/// Every piece in lower case.
pub open spec fn lowercase_all(pieces: Seq<Seq<char>>) -> Seq<Seq<char>> {
    pieces.map_values(|w: Seq<char>| lowercase(w))
}

/// The pieces that are not empty, in their order.
pub open spec fn drop_empty(pieces: Seq<Seq<char>>) -> Seq<Seq<char>> {
    pieces.filter(|t: Seq<char>| t.len() > 0)
}

/// The tokens of an already normalized text: its words, each in lower case,
/// without those that are empty.
pub open spec fn tokens_of(normalized: Seq<char>) -> Seq<Seq<char>> {
    drop_empty(lowercase_all(words(normalized)))
}

/// The tokens of a raw text under the normalization rule `(re, replacement)`.
pub open spec fn tokens(re: Regex, replacement: Seq<char>, text: Seq<char>) -> Seq<Seq<char>> {
    tokens_of(replaced(re, replacement, text))
}

proof fn lemma_words_skip_whitespace(s: Seq<char>, i: int)
    requires
        0 <= i < s.len(),
        is_whitespace(s[i]),
    ensures
        words(s.skip(i)) == words(s.skip(i + 1)),
{
    assert(s.skip(i).drop_first() =~= s.skip(i + 1));
}

proof fn lemma_word_len_run(s: Seq<char>, i: int, j: int)
    requires
        0 <= i <= j <= s.len(),
        forall|k: int| i <= k < j ==> !is_whitespace(s[k]),
        j == s.len() || is_whitespace(s[j]),
    ensures
        word_len(s.skip(i)) == j - i,
    decreases j - i,
{
    if i < j {
        assert(s.skip(i).drop_first() =~= s.skip(i + 1));
        lemma_word_len_run(s, i + 1, j);
    }
}

proof fn lemma_words_take_word(s: Seq<char>, i: int, j: int)
    requires
        0 <= i < j <= s.len(),
        forall|k: int| i <= k < j ==> !is_whitespace(s[k]),
        j == s.len() || is_whitespace(s[j]),
    ensures
        words(s.skip(i)) == seq![s.subrange(i, j)] + words(s.skip(j)),
{
    lemma_word_len_run(s, i, j);
    assert(s.skip(i).take(j - i) =~= s.subrange(i, j));
    assert(s.skip(i).skip(j - i) =~= s.skip(j));
}

/// Every word is a non-empty run of characters that are not whitespace.
pub proof fn law_words_hold_no_whitespace(s: Seq<char>, k: int)
    requires
        0 <= k < words(s).len(),
    ensures
        words(s)[k].len() > 0,
        forall|i: int| 0 <= i < words(s)[k].len() ==> !is_whitespace(#[trigger] words(s)[k][i]),
    decreases s.len(),
{
    if s.len() == 0 {
    } else if is_whitespace(s[0]) {
        law_words_hold_no_whitespace(s.drop_first(), k);
    } else {
        let n = word_len(s) as int;
        lemma_word_len_bound(s);
        if k == 0 {
            lemma_word_is_clean(s);
        } else {
            law_words_hold_no_whitespace(s.skip(n), k - 1);
        }
    }
}

proof fn lemma_word_is_clean(s: Seq<char>)
    ensures
        forall|i: int| 0 <= i < word_len(s) ==> !is_whitespace(#[trigger] s[i]),
    decreases s.len(),
{
    if s.len() > 0 && !is_whitespace(s[0]) {
        lemma_word_is_clean(s.drop_first());
        lemma_word_len_bound(s);
        assert forall|i: int| 0 <= i < word_len(s) implies !is_whitespace(#[trigger] s[i]) by {
            if i > 0 {
                assert(s[i] == s.drop_first()[i - 1]);
            }
        }
    }
}

/// No token is empty.
pub proof fn law_tokens_are_not_empty(normalized: Seq<char>, k: int)
    requires
        0 <= k < tokens_of(normalized).len(),
    ensures
        tokens_of(normalized)[k].len() > 0,
{
    lowercase_all(words(normalized)).lemma_filter_pred(|t: Seq<char>| t.len() > 0, k);
}

/// Splits `text` at whitespace into its words.
pub fn split_words(text: &str) -> (out: Vec<String>)
    ensures
        out.deep_view() == words(text@),
{
    let mut out: Vec<String> = Vec::new();
    let mut word = String::new();
    let ghost s = text@;
    assert(s.skip(0) =~= s);
    assert(out.deep_view() + words(s) =~= words(s));
    for c in it: text.chars()
        invariant
            it.seq() == s,
            word@.len() <= it.index(),
            word@ == s.subrange(it.index() - word@.len(), it.index() as int),
            forall|k: int| 0 <= k < word@.len() ==> !is_whitespace(#[trigger] word@[k]),
            words(s) == out.deep_view() + words(s.skip(it.index() - word@.len())),
    {
        let ghost i = it.index() as int;
        let ghost start = i - word@.len();
        if is_whitespace_char(c) {
            if !word.as_str().is_empty() {
                proof {
                    assert forall|k: int| start <= k < i implies !is_whitespace(s[k]) by {
                        assert(s[k] == word@[k - start]);
                    }
                    lemma_words_take_word(s, start, i);
                    lemma_words_skip_whitespace(s, i);
                    assert(out.deep_view().push(word@) + words(s.skip(i + 1)) =~= out.deep_view()
                        + (seq![word@] + words(s.skip(i + 1))));
                }
                let ghost before = out.deep_view();
                out.push(word);
                word = String::new();
                assert(out.deep_view() =~= before.push(s.subrange(start, i)));
            } else {
                proof {
                    lemma_words_skip_whitespace(s, i);
                }
            }
            assert(word@ =~= s.subrange(i + 1, i + 1));
        } else {
            word.push(c);
            assert(word@ =~= s.subrange(start, i + 1));
        }
    }
    if !word.as_str().is_empty() {
        let ghost n = s.len() as int;
        let ghost start = n - word@.len();
        proof {
            assert forall|k: int| start <= k < n implies !is_whitespace(s[k]) by {
                assert(s[k] == word@[k - start]);
            }
            lemma_words_take_word(s, start, n);
            assert(words(s.skip(n)) =~= Seq::empty());
        }
        let ghost before = out.deep_view();
        out.push(word);
        assert(out.deep_view() =~= before.push(s.subrange(start, n)));
    } else {
        assert(s.skip(s.len() as int) =~= Seq::empty());
    }
    out
}

/// Tokenizes a text that the normalization rule has already been applied to.
pub fn tokenize_normalized(normalized: &str) -> (out: Vec<String>)
    ensures
        out.deep_view() == tokens_of(normalized@),
{
    let pieces = split_words(normalized);
    let mut out: Vec<String> = Vec::new();
    let ghost all = pieces.deep_view();
    proof {
        reveal(Seq::filter);
        assert(lowercase_all(all.take(0)) =~= Seq::empty());
    }
    for k in 0..pieces.len()
        invariant
            all == pieces.deep_view(),
            out.deep_view() == drop_empty(lowercase_all(all.take(k as int))),
    {
        let token = pieces[k].as_str().to_lowercase();
        proof {
            reveal(Seq::filter);
            let done = all.take(k as int);
            let next = all.take(k + 1);
            assert(next.drop_last() =~= done);
            assert(lowercase_all(next).drop_last() =~= lowercase_all(done));
            assert(lowercase_all(next).last() == lowercase(all[k as int]));
            assert(token@ == lowercase(all[k as int]));
        }
        let ghost before = out.deep_view();
        if !token.as_str().is_empty() {
            out.push(token);
            assert(out.deep_view() =~= before.push(lowercase(all[k as int])));
        }
    }
    assert(all.take(pieces.len() as int) =~= all);
    out
}

/// Tokenizes `text`: applies the normalization rule, splits the result at
/// whitespace, lower-cases every piece and drops the empty ones.
pub fn tokenize(text: &str, replacement: &str, re: &Regex) -> (out: Vec<String>)
    ensures
        out.deep_view() == tokens(*re, replacement@, text@),
{
    let normalized = replace_all(re, text, replacement);
    tokenize_normalized(normalized.as_str())
}

} // verus!
