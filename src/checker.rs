use vstd::prelude::*;

use crate::dictionary::WordSet;
use crate::text::{placeholder, placeholder_text, string_of, tokens, tokens_of, views};

verus! {

/// The tokens that `known` lacks, in input order, duplicates kept.
pub open spec fn unknown_among(known: Set<Seq<char>>, toks: Seq<Seq<char>>) -> Seq<Seq<char>>
    decreases toks.len(),
{
    if toks.len() == 0 {
        Seq::<Seq<char>>::empty()
    } else {
        let prev = unknown_among(known, toks.drop_last());
        if known.contains(toks.last()) {
            prev
        } else {
            prev.push(toks.last())
        }
    }
}

/// The words with one comma between each two.
pub open spec fn join_commas(ws: Seq<Seq<char>>) -> Seq<char>
    decreases ws.len(),
{
    if ws.len() == 0 {
        Seq::<char>::empty()
    } else if ws.len() == 1 {
        ws[0]
    } else {
        join_commas(ws.drop_last()) + seq![','] + ws.last()
    }
}

/// The unknown tokens of a raw input, joined by commas.
pub open spec fn unknown_text(known: Set<Seq<char>>, input: Seq<char>) -> Seq<char> {
    join_commas(unknown_among(known, tokens(input)))
}

/// The number of characters of `s` that are not a space.
pub open spec fn letter_count(s: Seq<char>) -> nat
    decreases s.len(),
{
    if s.len() == 0 {
        0
    } else {
        letter_count(s.drop_last()) + if s.last() == ' ' {
            0nat
        } else {
            1nat
        }
    }
}

/// The decimal digit of `d`, below ten.
pub open spec fn digit_char(d: nat) -> char {
    if d == 0 { '0' } else if d == 1 { '1' } else if d == 2 { '2' } else if d == 3 { '3' }
    else if d == 4 { '4' } else if d == 5 { '5' } else if d == 6 { '6' } else if d == 7 { '7' }
    else if d == 8 { '8' } else { '9' }
}

/// The decimal digit of `d`.
pub fn digit(d: usize) -> (r: char)
    requires
        d < 10,
    ensures
        r == digit_char(d as nat),
{
    if d == 0 { '0' } else if d == 1 { '1' } else if d == 2 { '2' } else if d == 3 { '3' }
    else if d == 4 { '4' } else if d == 5 { '5' } else if d == 6 { '6' } else if d == 7 { '7' }
    else if d == 8 { '8' } else { '9' }
}

/// The decimal digits of `n`, most significant first.
pub open spec fn decimal(n: nat) -> Seq<char>
    decreases n,
{
    if n < 10 {
        seq![digit_char(n)]
    } else {
        decimal(n / 10).push(digit_char(n % 10))
    }
}

/// The text shown for a check: the unknown tokens, or the placeholder when
/// the input is empty or nothing is listed; with the letter count appended
/// when it is asked for.
pub open spec fn report_text(known: Set<Seq<char>>, input: Seq<char>, include_count: bool) -> Seq<
    char,
> {
    let listed = unknown_text(known, input);
    let shown = if input.len() == 0 || listed.len() == 0 {
        placeholder()
    } else {
        listed
    };
    if include_count {
        shown + ": letter_count = "@ + decimal(letter_count(input))
    } else {
        shown
    }
}

proof fn lemma_letter_count_bound(s: Seq<char>)
    ensures
        letter_count(s) <= s.len(),
    decreases s.len(),
{
    if s.len() > 0 {
        lemma_letter_count_bound(s.drop_last());
    }
}

/// The unknown tokens of `input`, joined by commas.
pub fn check_spelling_and_return_string_of_wrong_spelled_words(dic: WordSet, input: &String) -> (r:
    String)
    ensures
        r@ == unknown_text(dic@, input@),
{
    let words = tokens_of(input);
    let ghost ws = views(words@);
    let mut out: Vec<char> = Vec::new();
    let mut listed: usize = 0;
    let mut i: usize = 0;
    while i < words.len()
        invariant
            i <= words.len(),
            ws == views(words@),
            ws == tokens(input@),
            listed == unknown_among(dic@, ws.subrange(0, i as int)).len(),
            out@ == join_commas(unknown_among(dic@, ws.subrange(0, i as int))),
        decreases words.len() - i,
    {
        let w = string_of(&words[i]);
        assert(ws.subrange(0, i + 1).drop_last() =~= ws.subrange(0, i as int));
        if !dic.contains(w.as_str()) {
            let ghost prev = unknown_among(dic@, ws.subrange(0, i as int));
            let ghost start = out@;
            if listed > 0 {
                out.push(',');
            }
            let cs = &words[i];
            let mut j: usize = 0;
            let ghost mid = out@;
            while j < cs.len()
                invariant
                    j <= cs.len(),
                    out@ == mid + cs@.subrange(0, j as int),
                decreases cs.len() - j,
            {
                out.push(cs[j]);
                j = j + 1;
                assert(out@ =~= mid + cs@.subrange(0, j as int));
            }
            assert(cs@.subrange(0, cs.len() as int) =~= cs@);
            let ghost now = prev.push(ws[i as int]);
            assert(now.drop_last() =~= prev);
            if listed == 0 {
                assert(prev.len() == 0);
                assert(out@ =~= join_commas(now));
            } else {
                assert(out@ =~= join_commas(now));
            }
            assert(listed < words.len()) by {
                lemma_unknown_len(dic@, ws.subrange(0, i as int));
            }
            listed = listed + 1;
        }
        i = i + 1;
    }
    assert(ws.subrange(0, words.len() as int) =~= ws);
    string_of(&out)
}

proof fn lemma_unknown_len(known: Set<Seq<char>>, toks: Seq<Seq<char>>)
    ensures
        unknown_among(known, toks).len() <= toks.len(),
    decreases toks.len(),
{
    if toks.len() > 0 {
        lemma_unknown_len(known, toks.drop_last());
    }
}

/// The number of characters of `input` that are not a space.
pub fn count_letters(input: &String) -> (r: usize)
    ensures
        r == letter_count(input@),
{
    let cs = crate::text::chars_of(input.as_str());
    let mut n: usize = 0;
    let mut i: usize = 0;
    while i < cs.len()
        invariant
            i <= cs.len(),
            n == letter_count(cs@.subrange(0, i as int)),
        decreases cs.len() - i,
    {
        assert(cs@.subrange(0, i + 1).drop_last() =~= cs@.subrange(0, i as int));
        proof {
            lemma_letter_count_bound(cs@.subrange(0, i as int));
        }
        if cs[i] != ' ' {
            n = n + 1;
        }
        i = i + 1;
    }
    assert(cs@.subrange(0, cs.len() as int) =~= cs@);
    n
}

/// Appends the decimal digits of `n` to `out`.
pub fn push_decimal(out: &mut Vec<char>, n: usize)
    ensures
        final(out)@ == old(out)@ + decimal(n as nat),
    decreases n,
{
    if n >= 10 {
        push_decimal(out, n / 10);
    }
    let ghost before = old(out)@;
    out.push(digit(n % 10));
    assert(out@ =~= before + decimal(n as nat));
}

/// The text shown for a check of `input` against `dic`: the unknown tokens
/// joined by commas, or the placeholder when the input is empty or nothing is
/// listed; followed, when `include_count` holds, by `": letter_count = "` and
/// the number of characters of the raw input that are not a space.
pub fn spelling_report(dic: WordSet, input: &String, include_count: bool) -> (r: String)
    ensures
        r@ == report_text(dic@, input@, include_count),
        input@.len() == 0 && !include_count ==> r@ == placeholder(),
{
    let listed = check_spelling_and_return_string_of_wrong_spelled_words(dic, input);
    let mut shown: Vec<char> = if input.as_str().is_empty() || listed.as_str().is_empty() {
        crate::text::chars_of(placeholder_text().as_str())
    } else {
        crate::text::chars_of(listed.as_str())
    };
    if include_count {
        let mut label = crate::text::chars_of(": letter_count = ");
        shown.append(&mut label);
        push_decimal(&mut shown, count_letters(input));
    }
    string_of(&shown)
}

} // verus!
