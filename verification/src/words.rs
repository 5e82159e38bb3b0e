//! Splitting a command line into words.
//!
//! A command is cut at white space and nowhere else. There is no quoting and
//! no escaping: every maximal run of characters that are not white space is
//! one word, taken literally.

use vstd::prelude::*;

verus! {

/// Whether `c` is white space as `char::is_whitespace` of the standard
/// library decides it.
pub uninterp spec fn white_space(c: char) -> bool;

/// Calls `char::is_whitespace`. Trusted: the result is what the standard
/// library answers for this character, to which [`white_space`] gives a
/// name. Nothing is claimed about which characters those are.
#[verifier::external_body]
fn is_whitespace(c: char) -> (space: bool)
    ensures
        space == white_space(c),
{
    c.is_whitespace()
}

/// The words of `s`, in order. Read from the left one character at a time:
/// white space ends the word before it, any other character continues the
/// word that the character before it belongs to, or starts a new one.
pub open spec fn split_whitespace(s: Seq<char>) -> Seq<Seq<char>>
    decreases s.len(),
{
    if s.len() == 0 {
        Seq::empty()
    } else {
        let before = s.drop_last();
        let words = split_whitespace(before);
        if white_space(s.last()) {
            words
        } else if before.len() > 0 && !white_space(before.last()) && words.len() > 0 {
            words.drop_last().push(words.last().push(s.last()))
        } else {
            words.push(seq![s.last()])
        }
    }
}

/// The character sequences of a sequence of strings.
pub open spec fn texts(strings: Seq<String>) -> Seq<Seq<char>> {
    strings.map_values(|s: String| s@)
}

/// Whether `s[from..to]` is a word of `s` that is still open at `to`: it is
/// not empty, holds no white space, and no word character stands before it.
spec fn open_word(s: Seq<char>, from: int, to: int) -> bool {
    &&& 0 <= from < to <= s.len()
    &&& forall|k: int| from <= k < to ==> !white_space(#[trigger] s[k])
    &&& (from == 0 || white_space(s[from - 1]))
}

/// While a word is open at the end of `s`, it is the last word of `s`.
proof fn lemma_open_word_is_last(s: Seq<char>, from: int)
    requires
        open_word(s, from, s.len() as int),
    ensures
        split_whitespace(s).len() > 0,
        split_whitespace(s).last() == s.subrange(from, s.len() as int),
        split_whitespace(s).drop_last() == split_whitespace(s.subrange(0, from)),
    decreases s.len(),
{
    let before = s.drop_last();
    let n = s.len() as int;
    assert(!white_space(s[n - 1]));
    if from == n - 1 {
        assert(before =~= s.subrange(0, from));
        if before.len() > 0 {
            assert(before.last() == s[from - 1]);
        }
        let words = split_whitespace(before);
        assert(split_whitespace(s) == words.push(seq![s.last()]));
        assert(s.subrange(from, n) =~= seq![s.last()]);
        assert(words.push(seq![s.last()]).drop_last() =~= words);
    } else {
        assert(open_word(before, from, n - 1)) by {
            assert forall|k: int| from <= k < n - 1 implies !white_space(
                #[trigger] before[k],
            ) by {
                assert(before[k] == s[k]);
            }
            if from > 0 {
                assert(before[from - 1] == s[from - 1]);
            }
        }
        lemma_open_word_is_last(before, from);
        let words = split_whitespace(before);
        assert(before.last() == s[n - 2]);
        assert(split_whitespace(s) == words.drop_last().push(words.last().push(s.last())));
        assert(before.subrange(from, n - 1).push(s.last()) =~= s.subrange(from, n));
        assert(before.subrange(0, from) =~= s.subrange(0, from));
        assert(words.drop_last().push(words.last().push(s.last())).drop_last()
            =~= words.drop_last());
    }
}

/// Every word holds at least one character and no white space.
pub proof fn lemma_words_hold_no_space(s: Seq<char>, i: int)
    requires
        0 <= i < split_whitespace(s).len(),
    ensures
        split_whitespace(s)[i].len() > 0,
        forall|k: int|
            0 <= k < split_whitespace(s)[i].len() ==> !white_space(
                #[trigger] split_whitespace(s)[i][k],
            ),
    decreases s.len(),
{
    if s.len() > 0 {
        let before = s.drop_last();
        let words = split_whitespace(before);
        if white_space(s.last()) {
            lemma_words_hold_no_space(before, i);
        } else if before.len() > 0 && !white_space(before.last()) && words.len() > 0 {
            if i < words.len() - 1 {
                lemma_words_hold_no_space(before, i);
            } else {
                lemma_words_hold_no_space(before, words.len() - 1);
            }
        } else {
            if i < words.len() {
                lemma_words_hold_no_space(before, i);
            }
        }
    }
}

/// A command of white space alone, the empty command among them, has no
/// words.
pub proof fn lemma_blank_has_no_words(s: Seq<char>)
    ensures
        (forall|k: int| 0 <= k < s.len() ==> white_space(#[trigger] s[k])) ==> split_whitespace(
            s,
        ).len() == 0,
    decreases s.len(),
{
    if s.len() > 0 && (forall|k: int| 0 <= k < s.len() ==> white_space(#[trigger] s[k])) {
        let before = s.drop_last();
        assert forall|k: int| 0 <= k < before.len() implies white_space(#[trigger] before[k]) by {
            assert(before[k] == s[k]);
        }
        lemma_blank_has_no_words(before);
        assert(white_space(s[s.len() - 1]));
    }
}

/// A command without white space is a single word, itself, unless it is
/// empty.
pub proof fn lemma_unbroken_is_one_word(s: Seq<char>)
    ensures
        (s.len() > 0 && forall|k: int| 0 <= k < s.len() ==> !white_space(#[trigger] s[k]))
            ==> split_whitespace(s) == seq![s],
{
    if s.len() > 0 && (forall|k: int| 0 <= k < s.len() ==> !white_space(#[trigger] s[k])) {
        assert(open_word(s, 0, s.len() as int));
        lemma_open_word_is_last(s, 0);
        let words = split_whitespace(s);
        assert(s.subrange(0, s.len() as int) =~= s);
        assert(s.subrange(0, 0) =~= Seq::<char>::empty());
        assert(words.drop_last().len() == 0);
        assert(words =~= seq![s]);
    }
}

/// Cuts `command` into its words.
pub fn split_command(command: &str) -> (words: Vec<String>)
    ensures
        texts(words@) == split_whitespace(command@),
{
    let n: usize = command.unicode_len();
    let mut words: Vec<String> = Vec::new();
    let mut start: usize = 0;
    let mut inside: bool = false;
    let mut i: usize = 0;
    assert(command@.subrange(0, 0) =~= Seq::<char>::empty());
    assert(texts(words@) =~= Seq::<Seq<char>>::empty());
    while i < n
        invariant
            i <= n,
            n == command@.len(),
            inside ==> open_word(command@.subrange(0, i as int), start as int, i as int),
            inside ==> texts(words@) == split_whitespace(command@.subrange(0, start as int)),
            !inside ==> texts(words@) == split_whitespace(command@.subrange(0, i as int)),
            !inside ==> (i == 0 || white_space(command@[i - 1])),
        decreases n - i,
    {
        let c = command.get_char(i);
        let space = is_whitespace(c);
        let ghost read = command@.subrange(0, i as int);
        let ghost next = command@.subrange(0, i + 1);
        proof {
            assert(next.drop_last() =~= read);
            assert(next.last() == c);
            if i > 0 {
                assert(read.last() == command@[i - 1]);
            }
        }
        if space {
            if inside {
                let word = command.substring_char(start, i);
                proof {
                    lemma_open_word_is_last(read, start as int);
                    assert(read.subrange(0, start as int) =~= command@.subrange(0, start as int));
                    assert(read.subrange(start as int, i as int) =~= command@.subrange(
                        start as int,
                        i as int,
                    ));
                    let found = split_whitespace(read);
                    assert(found =~= found.drop_last().push(found.last()));
                }
                let ghost sofar = texts(words@);
                words.push(word.to_owned());
                assert(texts(words@) =~= sofar.push(word@));
                inside = false;
            }
            assert(split_whitespace(next) == split_whitespace(read));
        } else {
            if !inside {
                start = i;
                inside = true;
                assert(read =~= command@.subrange(0, start as int));
            }
            assert(open_word(next, start as int, i + 1)) by {
                assert forall|k: int| start <= k < i + 1 implies !white_space(
                    #[trigger] next[k],
                ) by {
                    if k < i {
                        assert(next[k] == read[k]);
                    }
                }
                if start > 0 {
                    assert(next[start - 1] == command@[start - 1]);
                    if start < i {
                        assert(read[start - 1] == command@[start - 1]);
                    }
                }
            }
        }
        i = i + 1;
    }
    assert(command@.subrange(0, n as int) =~= command@);
    if inside {
        let word = command.substring_char(start, n);
        proof {
            lemma_open_word_is_last(command@, start as int);
            let found = split_whitespace(command@);
            assert(found =~= found.drop_last().push(found.last()));
        }
        let ghost sofar = texts(words@);
        words.push(word.to_owned());
        assert(texts(words@) =~= sofar.push(word@));
    }
    words
}

} // verus!
