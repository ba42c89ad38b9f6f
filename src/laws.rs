use vstd::prelude::*;

use crate::checker::{decimal, letter_count, report_text, unknown_among};
use crate::dictionary::{lines_of, lines_of_texts};
use crate::text::{
    is_trailing_mark, join_spaced, normalized, placeholder, split_on_space, strip_all, tokens,
};

verus! {

/// Lower-case words of the letters `a` to `z`, one space between each two,
/// with no space at either end.
pub open spec fn is_clean_text(x: Seq<char>) -> bool {
    &&& x.len() > 0
    &&& forall|i: int| 0 <= i < x.len() ==> ('a' <= #[trigger] x[i] && x[i] <= 'z') || x[i] == ' '
    &&& x[0] != ' '
    &&& x.last() != ' '
    &&& forall|i: int| 0 <= i < x.len() - 1 && #[trigger] x[i] == ' ' ==> x[i + 1] != ' '
}

proof fn lemma_split_nonempty(s: Seq<char>)
    ensures
        split_on_space(s).len() >= 1,
    decreases s.len(),
{
    if s.len() > 0 {
        lemma_split_nonempty(s.drop_last());
    }
}

/// Splitting at spaces and putting one space after each piece gives the text
/// back with one more space at its end.
proof fn lemma_join_split(s: Seq<char>)
    ensures
        join_spaced(split_on_space(s)) == s.push(' '),
    decreases s.len(),
{
    if s.len() == 0 {
        let ws = split_on_space(s);
        assert(ws.drop_last() =~= Seq::<Seq<char>>::empty());
        assert(join_spaced(ws.drop_last()) == Seq::<char>::empty());
        assert(ws.last() == Seq::<char>::empty());
        assert(join_spaced(ws) == join_spaced(ws.drop_last()) + ws.last() + seq![' ']);
        assert(join_spaced(ws) =~= s.push(' '));
    } else {
        let p = s.drop_last();
        let c = s.last();
        let prev = split_on_space(p);
        lemma_join_split(p);
        lemma_split_nonempty(p);
        if c == ' ' {
            let q = prev.push(Seq::<char>::empty());
            assert(q.drop_last() =~= prev);
            assert(join_spaced(q) =~= s.push(' '));
        } else {
            let q = prev.update(prev.len() - 1, prev.last().push(c));
            assert(q.drop_last() =~= prev.drop_last());
            let head = join_spaced(prev.drop_last()) + prev.last();
            assert(head + seq![' '] == p.push(' '));
            assert(head =~= p) by {
                assert((head + seq![' ']).drop_last() =~= head);
                assert(p.push(' ').drop_last() =~= p);
            }
            assert(q.last() == prev.last().push(c));
            assert(join_spaced(q) == join_spaced(q.drop_last()) + q.last() + seq![' ']);
            assert(join_spaced(q) == head.push(c) + seq![' ']) by {
                assert(join_spaced(prev.drop_last()) + prev.last().push(c) =~= head.push(c));
            }
            assert(split_on_space(s) == q);
            assert(p.push(c) =~= s);
            assert(join_spaced(q) =~= s.push(' '));
        }
    }
}

/// A text without marks splits into pieces without marks.
proof fn lemma_split_keeps_no_marks(s: Seq<char>)
    requires
        forall|i: int| 0 <= i < s.len() ==> !is_trailing_mark(#[trigger] s[i]),
    ensures
        forall|k: int, j: int|
            0 <= k < split_on_space(s).len() && 0 <= j < split_on_space(s)[k].len()
                ==> !is_trailing_mark(#[trigger] split_on_space(s)[k][j]),
    decreases s.len(),
{
    if s.len() > 0 {
        let p = s.drop_last();
        assert forall|i: int| 0 <= i < p.len() implies !is_trailing_mark(#[trigger] p[i]) by {
            assert(p[i] == s[i]);
        }
        lemma_split_keeps_no_marks(p);
        lemma_split_nonempty(p);
        let prev = split_on_space(p);
        if s.last() != ' ' {
            let q = split_on_space(s);
            assert forall|k: int, j: int| 0 <= k < q.len() && 0 <= j < q[k].len() implies
                !is_trailing_mark(#[trigger] q[k][j]) by {
                if k == prev.len() - 1 && j == prev.last().len() {
                    assert(q[k][j] == s.last());
                    assert(s.last() == s[s.len() - 1]);
                } else if k == prev.len() - 1 {
                    assert(q[k][j] == prev[k][j]);
                } else {
                    assert(q[k] == prev[k]);
                }
            }
        } else {
            let q = split_on_space(s);
            assert forall|k: int, j: int| 0 <= k < q.len() && 0 <= j < q[k].len() implies
                !is_trailing_mark(#[trigger] q[k][j]) by {
                if k < prev.len() {
                    assert(q[k] == prev[k]);
                }
            }
        }
    }
}

proof fn lemma_clean_text_normalizes_to_itself(x: Seq<char>)
    requires
        is_clean_text(x),
    ensures
        normalized(x) == x.push(' '),
{
    assert(crate::text::trim_view(x) == x);
    assert(crate::text::lower_view(x) =~= x);
    let ws = split_on_space(x);
    lemma_split_keeps_no_marks(x);
    assert(strip_all(ws) =~= ws) by {
        assert forall|k: int| 0 <= k < ws.len() implies #[trigger] strip_all(ws)[k] == ws[k] by {
            if ws[k].len() > 0 {
                assert(!is_trailing_mark(ws[k][ws[k].len() - 1]));
            }
        }
    }
    lemma_join_split(x);
}

/// Normalizing clean text, lower-case words with single spaces between them,
/// puts one space after it; normalizing that again changes nothing.
pub proof fn lemma_normalize_idempotent(x: Seq<char>)
    requires
        is_clean_text(x),
    ensures
        normalized(x) == x.push(' '),
        normalized(normalized(x)) == normalized(x),
{
    lemma_clean_text_normalizes_to_itself(x);
    let y = x.push(' ');
    assert(y.drop_last() =~= x);
    assert(crate::text::trim_view(y) == x);
    assert(tokens(y) == tokens(x));
}

/// For an empty input the report, without a count, is the placeholder,
/// whatever the dictionary knows.
pub proof fn lemma_empty_input_shows_placeholder(known: Set<Seq<char>>)
    ensures
        report_text(known, Seq::<char>::empty(), false) == placeholder(),
{
}

proof fn lemma_all_known_lists_nothing(known: Set<Seq<char>>, toks: Seq<Seq<char>>)
    requires
        forall|i: int| 0 <= i < toks.len() ==> known.contains(#[trigger] toks[i]),
    ensures
        unknown_among(known, toks).len() == 0,
    decreases toks.len(),
{
    if toks.len() > 0 {
        let p = toks.drop_last();
        assert forall|i: int| 0 <= i < p.len() implies known.contains(#[trigger] p[i]) by {
            assert(p[i] == toks[i]);
        }
        lemma_all_known_lists_nothing(known, p);
        assert(known.contains(toks[toks.len() - 1]));
    }
}

/// When the dictionary knows every token of the input, the report, without a
/// count, is the placeholder rather than an empty text.
pub proof fn lemma_all_known_shows_placeholder(known: Set<Seq<char>>, input: Seq<char>)
    requires
        forall|i: int| 0 <= i < tokens(input).len() ==> known.contains(#[trigger] tokens(input)[i]),
    ensures
        report_text(known, input, false) == placeholder(),
{
    lemma_all_known_lists_nothing(known, tokens(input));
}

/// The letter count appended to a report is that of the raw input, whatever
/// the dictionary knows.
pub proof fn lemma_count_does_not_depend_on_words(known: Set<Seq<char>>, input: Seq<char>)
    ensures
        report_text(known, input, true) == report_text(known, input, false)
            + ": letter_count = "@ + decimal(letter_count(input)),
{
}

/// A dictionary that knows no word lists every token of the input as unknown.
pub proof fn lemma_empty_set_lists_every_token(toks: Seq<Seq<char>>)
    ensures
        unknown_among(Set::<Seq<char>>::empty(), toks) == toks,
    decreases toks.len(),
{
    if toks.len() > 0 {
        lemma_empty_set_lists_every_token(toks.drop_last());
        assert(toks.drop_last().push(toks.last()) =~= toks);
    }
}

/// Every line of a word list text is a member of the set built from it, by
/// exact match.
pub proof fn lemma_loaded_lines_are_known(texts: Seq<String>, i: int, j: int)
    requires
        0 <= i < texts.len(),
        0 <= j < lines_of(texts[i]@).len(),
    ensures
        lines_of_texts(texts).to_set().contains(lines_of(texts[i]@)[j]),
    decreases texts.len(),
{
    let head = lines_of_texts(texts.drop_last());
    let all = lines_of_texts(texts);
    if i == texts.len() - 1 {
        assert(all[head.len() + j] == lines_of(texts[i]@)[j]);
    } else {
        assert(texts.drop_last()[i] == texts[i]);
        lemma_loaded_lines_are_known(texts.drop_last(), i, j);
        let k = choose|k: int| 0 <= k < head.len() && head[k] == lines_of(texts[i]@)[j];
        assert(all[k] == head[k]);
    }
}

} // verus!
