use vstd::prelude::*;
use vstd::std_specs::iter::IteratorSpec;

verus! {

/// The characters that are dropped when they end a word.
pub open spec fn is_trailing_mark(c: char) -> bool {
    c == '.' || c == ',' || c == '!' || c == '?'
}

/// A word with one trailing mark removed, if it ends in one.
pub open spec fn strip_mark(w: Seq<char>) -> Seq<char> {
    if w.len() > 0 && is_trailing_mark(w.last()) {
        w.drop_last()
    } else {
        w
    }
}

/// The pieces of `s` between single spaces, as `str::split(" ")` yields them:
/// `n` spaces always give `n + 1` pieces, some of which may be empty.
pub open spec fn split_on_space(s: Seq<char>) -> Seq<Seq<char>>
    decreases s.len(),
{
    if s.len() == 0 {
        seq![Seq::<char>::empty()]
    } else {
        let prev = split_on_space(s.drop_last());
        if s.last() == ' ' {
            prev.push(Seq::<char>::empty())
        } else {
            prev.update(prev.len() - 1, prev.last().push(s.last()))
        }
    }
}

/// Each word followed by one space.
pub open spec fn join_spaced(ws: Seq<Seq<char>>) -> Seq<char>
    decreases ws.len(),
{
    if ws.len() == 0 {
        Seq::<char>::empty()
    } else {
        join_spaced(ws.drop_last()) + ws.last() + seq![' ']
    }
}

/// Each word with its trailing mark stripped.
pub open spec fn strip_all(ws: Seq<Seq<char>>) -> Seq<Seq<char>> {
    ws.map_values(|w: Seq<char>| strip_mark(w))
}

/// Characters that `str::trim` never removes.
pub open spec fn is_visible_ascii(c: char) -> bool {
    '!' <= c && c <= '~'
}

pub open spec fn is_ascii_text(s: Seq<char>) -> bool {
    forall|i: int| 0 <= i < s.len() ==> (s[i] as u32) < 128
}

pub open spec fn ascii_lower(c: char) -> char {
    if 'A' <= c && c <= 'Z' {
        ((c as u32) + 32) as char
    } else {
        c
    }
}

/// What `str::trim` returns, for texts on which it takes pages to say.
pub uninterp spec fn trimmed_of(s: Seq<char>) -> Seq<char>;

/// What `str::to_lowercase` returns, for texts on which it takes pages to say.
pub uninterp spec fn lowercase_of(s: Seq<char>) -> Seq<char>;

/// `str::trim`: spaces at either end go, a text that begins and ends in a
/// visible ASCII character stays as it is.
pub open spec fn trim_view(s: Seq<char>) -> Seq<char>
    decreases s.len(),
{
    if s.len() == 0 {
        s
    } else if s.last() == ' ' {
        trim_view(s.drop_last())
    } else if s[0] == ' ' {
        trim_view(s.drop_first())
    } else if is_visible_ascii(s[0]) && is_visible_ascii(s.last()) {
        s
    } else {
        trimmed_of(s)
    }
}

/// `str::to_lowercase`: on ASCII text, each capital letter becomes its small one.
pub open spec fn lower_view(s: Seq<char>) -> Seq<char> {
    if is_ascii_text(s) {
        s.map_values(|c: char| ascii_lower(c))
    } else {
        lowercase_of(s)
    }
}

/// The tokens of a raw input: trimmed, folded to lower case, split at single
/// spaces, each with one trailing mark stripped. An empty input has none.
pub open spec fn tokens(input: Seq<char>) -> Seq<Seq<char>> {
    if input.len() == 0 {
        Seq::<Seq<char>>::empty()
    } else {
        strip_all(split_on_space(lower_view(trim_view(input))))
    }
}

/// The text shown when there is nothing to report.
pub open spec fn placeholder() -> Seq<char> {
    "Nothing to see here 👀"@
}

/// The normalized input: every token followed by one space, or the
/// placeholder for an empty input.
pub open spec fn normalized(input: Seq<char>) -> Seq<char> {
    if input.len() == 0 {
        placeholder()
    } else {
        join_spaced(tokens(input))
    }
}

/// Relies on `str::trim`.
#[verifier::external_body]
fn trim_str(s: &str) -> (r: &str)
    ensures
        r@ == trimmed_of(s@),
        r@ == trim_view(s@),
{
    s.trim()
}

/// Relies on `str::to_lowercase`.
#[verifier::external_body]
fn lowercase_str(s: &str) -> (r: String)
    ensures
        r@ == lowercase_of(s@),
        r@ == lower_view(s@),
{
    s.to_lowercase()
}

/// Relies on `String::push`: the character is appended.
#[verifier::external_body]
pub(crate) fn push_char(s: &mut String, c: char)
    ensures
        final(s)@ == old(s)@.push(c),
{
    s.push(c)
}

/// The characters of `s`, in order.
pub fn chars_of(s: &str) -> (r: Vec<char>)
    ensures
        r@ == s@,
{
    broadcast use vstd::string::axiom_spec_iter, vstd::string::next_postcondition;
    let mut it = s.chars();
    let mut r: Vec<char> = Vec::new();
    loop
        invariant
            r@ + it.remaining() == s@,
            it.decrease() is Some,
        decreases it.decrease()->0,
    {
        match it.next() {
            Some(c) => {
                assert(r@.push(c) + it.remaining() =~= s@);
                r.push(c);
            },
            None => {
                assert(r@ =~= s@);
                return r;
            },
        }
    }
}

/// A `String` holding the characters `cs`.
pub fn string_of(cs: &Vec<char>) -> (r: String)
    ensures
        r@ == cs@,
{
    let mut r = String::new();
    let mut i: usize = 0;
    while i < cs.len()
        invariant
            i <= cs.len(),
            r@ == cs@.subrange(0, i as int),
        decreases cs.len() - i,
    {
        push_char(&mut r, cs[i]);
        i = i + 1;
        assert(r@ =~= cs@.subrange(0, i as int));
    }
    assert(cs@.subrange(0, cs.len() as int) =~= cs@);
    r
}

/// The words held in a vector of character vectors.
pub open spec fn views(ws: Seq<Vec<char>>) -> Seq<Seq<char>> {
    ws.map_values(|w: Vec<char>| w@)
}

/// `w` without a trailing mark.
pub fn stripped_word(w: Vec<char>) -> (r: Vec<char>)
    ensures
        r@ == strip_mark(w@),
{
    let mut w = w;
    if w.len() > 0 && is_trailing_mark_char(w[w.len() - 1]) {
        w.pop();
    }
    w
}

/// The pieces of `text` between single spaces, each with its trailing mark stripped.
pub fn split_words(text: &Vec<char>) -> (r: Vec<Vec<char>>)
    ensures
        views(r@) == strip_all(split_on_space(text@)),
{
    let mut r: Vec<Vec<char>> = Vec::new();
    let mut word: Vec<char> = Vec::new();
    let ghost mut done: Seq<Seq<char>> = Seq::empty();
    let mut i: usize = 0;
    assert(text@.subrange(0, 0) =~= Seq::<char>::empty());
    assert(done.push(word@) =~= seq![Seq::<char>::empty()]);
    assert(views(r@) =~= strip_all(done));
    while i < text.len()
        invariant
            i <= text.len(),
            split_on_space(text@.subrange(0, i as int)) == done.push(word@),
            views(r@) == strip_all(done),
        decreases text.len() - i,
    {
        let c = text[i];
        assert(text@.subrange(0, i + 1).drop_last() =~= text@.subrange(0, i as int));
        if c == ' ' {
            let ghost prev = views(r@);
            let ghost full = word@;
            let w = stripped_word(word);
            r.push(w);
            assert(views(r@) =~= prev.push(strip_mark(full)));
            assert(strip_all(done.push(full)) =~= strip_all(done).push(strip_mark(full)));
            proof {
                done = done.push(full);
            }
            word = Vec::new();
            assert(split_on_space(text@.subrange(0, i + 1)) =~= done.push(word@));
        } else {
            word.push(c);
            assert(split_on_space(text@.subrange(0, i + 1)) =~= done.push(word@));
        }
        i = i + 1;
    }
    assert(text@.subrange(0, text.len() as int) =~= text@);
    let ghost last = word@;
    let ghost prev = views(r@);
    let w = stripped_word(word);
    r.push(w);
    assert(views(r@) =~= prev.push(strip_mark(last)));
    assert(strip_all(done.push(last)) =~= strip_all(done).push(strip_mark(last)));
    assert(views(r@) =~= strip_all(done.push(last)));
    r
}

/// The tokens of a raw input.
pub fn tokens_of(input: &String) -> (r: Vec<Vec<char>>)
    ensures
        views(r@) == tokens(input@),
{
    if input.as_str().is_empty() {
        let r: Vec<Vec<char>> = Vec::new();
        assert(views(r@) =~= tokens(input@));
        return r;
    }
    let t = trim_str(input.as_str());
    let l = lowercase_str(t);
    let cs = chars_of(l.as_str());
    split_words(&cs)
}

/// The placeholder text.
pub fn placeholder_text() -> (r: String)
    ensures
        r@ == placeholder(),
{
    "Nothing to see here 👀".to_string()
}

/// Normalizes a raw input: every token followed by one space, or the
/// placeholder when the input is empty.
pub fn clean_input_to_check(input: &String) -> (r: String)
    ensures
        r@ == normalized(input@),
{
    if input.as_str().is_empty() {
        return placeholder_text();
    }
    let words = tokens_of(input);
    let ghost ws = views(words@);
    let mut out: Vec<char> = Vec::new();
    let mut i: usize = 0;
    while i < words.len()
        invariant
            i <= words.len(),
            ws == views(words@),
            out@ == join_spaced(ws.subrange(0, i as int)),
        decreases words.len() - i,
    {
        let w = &words[i];
        let mut j: usize = 0;
        let ghost start = out@;
        while j < w.len()
            invariant
                j <= w.len(),
                out@ == start + w@.subrange(0, j as int),
            decreases w.len() - j,
        {
            out.push(w[j]);
            j = j + 1;
            assert(out@ =~= start + w@.subrange(0, j as int));
        }
        out.push(' ');
        assert(ws.subrange(0, i + 1).drop_last() =~= ws.subrange(0, i as int));
        assert(w@.subrange(0, w.len() as int) =~= w@);
        assert(out@ =~= join_spaced(ws.subrange(0, i + 1)));
        i = i + 1;
    }
    assert(ws.subrange(0, words.len() as int) =~= ws);
    string_of(&out)
}

/// Tells whether `c` is one of the marks that are dropped at the end of a word.
pub fn is_trailing_mark_char(c: char) -> (r: bool)
    ensures
        r == is_trailing_mark(c),
{
    c == '.' || c == ',' || c == '!' || c == '?'
}

} // verus!
