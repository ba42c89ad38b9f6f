use vstd::hash_set::StringHashSet;
use vstd::prelude::*;

use crate::text::chars_of;

verus! {

/// The languages that have a word list.
#[derive(Clone, Copy, Debug, PartialEq, Eq, Structural)]
pub enum Language {
    English,
    German,
}

/// The language that a tag names, if any.
pub open spec fn tag_language(tag: Seq<char>) -> Option<Language> {
    if tag == "english"@ {
        Some(Language::English)
    } else if tag == "german"@ {
        Some(Language::German)
    } else {
        None
    }
}

/// The language that `tag` names; `None` for a tag that has no word list.
pub fn language_from_tag(tag: &String) -> (r: Option<Language>)
    ensures
        r == tag_language(tag@),
{
    if *tag == "english".to_string() {
        Some(Language::English)
    } else if *tag == "german".to_string() {
        Some(Language::German)
    } else {
        None
    }
}

/// Whether a file of a word list folder is read as a word list: hidden files,
/// which file managers leave behind, are not.
pub open spec fn is_word_list_name(name: Seq<char>) -> bool {
    !(name.len() > 0 && name[0] == '.')
}

/// Tells whether the file called `name` is read as a word list.
pub fn is_word_list_file(name: &String) -> (r: bool)
    ensures
        r == is_word_list_name(name@),
{
    let cs = chars_of(name.as_str());
    !(cs.len() > 0 && cs[0] == '.')
}

/// Whether `w` is one of the first `n` lines.
pub open spec fn is_one_of_first(lines: Seq<String>, n: int, w: Seq<char>) -> bool {
    exists|k: int| 0 <= k < n && #[trigger] lines[k]@ == w
}

/// The words that a list of lines holds: each line, verbatim.
pub open spec fn words_of_lines(lines: Seq<String>) -> Set<Seq<char>> {
    Set::new(|w: Seq<char>| is_one_of_first(lines, lines.len() as int, w))
}

/// The known words of one language.
pub struct WordSet {
    words: StringHashSet,
}

impl View for WordSet {
    type V = Set<Seq<char>>;

    closed spec fn view(&self) -> Set<Seq<char>> {
        self.words@
    }
}

impl WordSet {
    /// A set that knows no word.
    pub fn new() -> (r: WordSet)
        ensures
            r@ == Set::<Seq<char>>::empty(),
    {
        WordSet { words: StringHashSet::new() }
    }

    /// Adds `word`; a word that is there already stays once.
    pub fn insert(&mut self, word: String)
        ensures
            final(self)@ == old(self)@.insert(word@),
    {
        self.words.insert(word);
    }

    /// Whether `word` is known, by exact match.
    pub fn contains(&self, word: &str) -> (r: bool)
        ensures
            r == self@.contains(word@),
    {
        self.words.contains(word)
    }

    /// A set that knows each of `lines`, verbatim, and nothing else.
    pub fn from_lines(lines: &Vec<String>) -> (r: WordSet)
        ensures
            r@ == words_of_lines(lines@),
    {
        let mut r = WordSet::new();
        let mut i: usize = 0;
        assert(r@ =~= Set::<Seq<char>>::empty());
        while i < lines.len()
            invariant
                i <= lines.len(),
                forall|w: Seq<char>| #[trigger] r@.contains(w) == is_one_of_first(lines@, i as int, w),
            decreases lines.len() - i,
        {
            let line = lines[i].clone();
            r.insert(line);
            i = i + 1;
            assert forall|w: Seq<char>| #[trigger]
                r@.contains(w) == is_one_of_first(lines@, i as int, w) by {
                if w == lines@[i - 1]@ {
                    assert(is_one_of_first(lines@, i as int, w));
                }
                if is_one_of_first(lines@, i as int, w) && w != lines@[i - 1]@ {
                    let k = choose|k: int| 0 <= k < i && #[trigger] lines@[k]@ == w;
                    assert(is_one_of_first(lines@, i - 1, w));
                }
            }
        }
        assert(r@ =~= words_of_lines(lines@));
        r
    }
}

/// The pieces of `s` between newlines: `n` newlines give `n + 1` pieces.
pub open spec fn split_on_newline(s: Seq<char>) -> Seq<Seq<char>>
    decreases s.len(),
{
    if s.len() == 0 {
        seq![Seq::<char>::empty()]
    } else {
        let prev = split_on_newline(s.drop_last());
        if s.last() == '\n' {
            prev.push(Seq::<char>::empty())
        } else {
            prev.update(prev.len() - 1, prev.last().push(s.last()))
        }
    }
}

/// A piece that a newline ended, without the carriage return before it.
pub open spec fn without_return(p: Seq<char>) -> Seq<char> {
    if p.len() > 0 && p.last() == '\r' {
        p.drop_last()
    } else {
        p
    }
}

/// The lines of a text, as `str::lines` yields them: split at `\n` or `\r\n`,
/// with no empty line after a final line ending.
pub open spec fn lines_of(s: Seq<char>) -> Seq<Seq<char>> {
    let ps = split_on_newline(s);
    let ended = ps.drop_last().map_values(|p: Seq<char>| without_return(p));
    if ps.last().len() == 0 {
        ended
    } else {
        ended.push(ps.last())
    }
}

/// The lines of every text, in order.
pub open spec fn lines_of_texts(texts: Seq<String>) -> Seq<Seq<char>>
    decreases texts.len(),
{
    if texts.len() == 0 {
        Seq::<Seq<char>>::empty()
    } else {
        lines_of_texts(texts.drop_last()) + lines_of(texts.last()@)
    }
}

pub open spec fn string_views(ss: Seq<String>) -> Seq<Seq<char>> {
    ss.map_values(|x: String| x@)
}

/// Relies on `str::lines`, each line copied into a `String`.
#[verifier::external_body]
fn lines_in(text: &str) -> (r: Vec<String>)
    ensures
        string_views(r@) == lines_of(text@),
{
    text.lines().map(|l| l.to_string()).collect()
}

/// The lines of all `texts`, in order.
pub fn all_lines(texts: &Vec<String>) -> (r: Vec<String>)
    ensures
        string_views(r@) == lines_of_texts(texts@),
{
    let mut all: Vec<String> = Vec::new();
    let mut i: usize = 0;
    assert(string_views(all@) =~= lines_of_texts(texts@.subrange(0, 0)));
    while i < texts.len()
        invariant
            i <= texts.len(),
            string_views(all@) == lines_of_texts(texts@.subrange(0, i as int)),
        decreases texts.len() - i,
    {
        let mut ls = lines_in(texts[i].as_str());
        let ghost before = all@;
        let ghost added = ls@;
        all.append(&mut ls);
        assert(texts@.subrange(0, i + 1).drop_last() =~= texts@.subrange(0, i as int));
        assert(string_views(all@) =~= string_views(before) + string_views(added));
        i = i + 1;
    }
    assert(texts@.subrange(0, texts.len() as int) =~= texts@);
    all
}

/// The word set for the language that `language` names, holding every line of
/// `texts`, the contents of its word list files; for a tag with no word list,
/// the set that knows no word.
pub fn create_dictionary_set(language: &String, texts: &Vec<String>) -> (r: WordSet)
    ensures
        tag_language(language@) is None ==> r@ == Set::<Seq<char>>::empty(),
        tag_language(language@) is Some ==> r@ == lines_of_texts(texts@).to_set(),
{
    match language_from_tag(language) {
        Some(_) => {
            let lines = all_lines(texts);
            let r = WordSet::from_lines(&lines);
            let ghost ls = lines_of_texts(texts@);
            assert forall|w: Seq<char>| #[trigger] r@.contains(w) == ls.to_set().contains(w) by {
                if r@.contains(w) {
                    let k = choose|k: int| 0 <= k < lines@.len() && #[trigger] lines@[k]@ == w;
                    assert(string_views(lines@)[k] == w);
                }
                if ls.contains(w) {
                    let k = choose|k: int| 0 <= k < ls.len() && ls[k] == w;
                    assert(string_views(lines@)[k] == lines@[k]@);
                    assert(is_one_of_first(lines@, lines@.len() as int, w));
                }
            }
            assert(r@ =~= ls.to_set());
            r
        },
        None => WordSet::new(),
    }
}

} // verus!
