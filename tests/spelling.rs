use spellinator::checker::{
    check_spelling_and_return_string_of_wrong_spelled_words, count_letters, spelling_report,
};
use spellinator::dictionary::{
    all_lines, create_dictionary_set, is_word_list_file, language_from_tag, Language, WordSet,
};
use spellinator::text::clean_input_to_check;

fn set_of(words: &[&str]) -> WordSet {
    let lines: Vec<String> = words.iter().map(|w| w.to_string()).collect();
    WordSet::from_lines(&lines)
}

const PLACEHOLDER: &str = "Nothing to see here 👀";

#[test]
fn test_clean_input() {
    let input = "hello. my. cutie pie".to_string();
    let cleaned_input = clean_input_to_check(&input);
    assert_eq!(cleaned_input, "hello my cutie pie ".to_string());
}

#[test]
fn punctuation_is_stripped_from_word_ends() {
    let cleaned = clean_input_to_check(&"hello. my. cutie pie".to_string());
    let words: Vec<&str> = cleaned.split_whitespace().collect();
    assert_eq!(words, vec!["hello", "my", "cutie", "pie"]);
}

#[test]
fn only_the_last_mark_of_a_word_goes() {
    let cleaned = clean_input_to_check(&"wait?! e.g. a,b".to_string());
    assert_eq!(cleaned, "wait? e.g a,b ".to_string());
}

#[test]
fn clean_text_normalizes_twice_the_same() {
    let once = clean_input_to_check(&"the quick brown fox".to_string());
    let twice = clean_input_to_check(&once);
    assert_eq!(once, "the quick brown fox ".to_string());
    assert_eq!(twice, once);
}

#[test]
fn input_is_trimmed_and_folded_to_lower_case() {
    let cleaned = clean_input_to_check(&"  Hello WORLD!  ".to_string());
    assert_eq!(cleaned, "hello world ".to_string());
}

#[test]
fn non_ascii_input_is_folded_to_lower_case() {
    let cleaned = clean_input_to_check(&"Straße ÜBER".to_string());
    assert_eq!(cleaned, "straße über ".to_string());
}

#[test]
fn empty_input_normalizes_to_the_placeholder() {
    assert_eq!(clean_input_to_check(&String::new()), PLACEHOLDER.to_string());
}

#[test]
fn unknown_words_in_input_order() {
    let dict = set_of(&["hello", "how", "are", "a"]);
    let listed = check_spelling_and_return_string_of_wrong_spelled_words(
        dict,
        &"hello woorld how are yoouuu".to_string(),
    );
    assert_eq!(listed, "woorld,yoouuu".to_string());
}

#[test]
fn repeated_unknown_words_are_all_listed() {
    let dict = set_of(&["cat"]);
    let listed =
        check_spelling_and_return_string_of_wrong_spelled_words(dict, &"dog cat dog".to_string());
    assert_eq!(listed, "dog,dog".to_string());
}

#[test]
fn double_space_gives_an_empty_unknown_token() {
    let dict = set_of(&["cat", "dog"]);
    let listed =
        check_spelling_and_return_string_of_wrong_spelled_words(dict, &"cat  dog x".to_string());
    assert_eq!(listed, ",x".to_string());
}

#[test]
fn empty_input_report_is_the_placeholder() {
    let dict = set_of(&["cat"]);
    assert_eq!(spelling_report(dict, &String::new(), false), PLACEHOLDER.to_string());
    let empty = WordSet::new();
    assert_eq!(spelling_report(empty, &String::new(), false), PLACEHOLDER.to_string());
}

#[test]
fn all_known_report_is_the_placeholder() {
    let dict = set_of(&["cat", "dog"]);
    assert_eq!(spelling_report(dict, &"Cat dog.".to_string(), false), PLACEHOLDER.to_string());
}

#[test]
fn letter_count_of_cat_dog_is_six() {
    let known = set_of(&["cat", "dog"]);
    assert_eq!(
        spelling_report(known, &"cat dog".to_string(), true),
        format!("{}: letter_count = 6", PLACEHOLDER)
    );
    let unknown = WordSet::new();
    assert_eq!(
        spelling_report(unknown, &"cat dog".to_string(), true),
        "cat,dog: letter_count = 6".to_string()
    );
}

#[test]
fn letter_count_with_two_digits() {
    assert_eq!(count_letters(&"hello, my dear".to_string()), 12);
    let dict = set_of(&["hello", "my"]);
    assert_eq!(
        spelling_report(dict, &"hello, my dear".to_string(), true),
        "dear: letter_count = 12".to_string()
    );
}

#[test]
fn letter_count_of_empty_input() {
    let dict = WordSet::new();
    assert_eq!(
        spelling_report(dict, &String::new(), true),
        format!("{}: letter_count = 0", PLACEHOLDER)
    );
}

#[test]
fn unknown_language_knows_no_word() {
    let texts = vec!["any\ntext\n".to_string()];
    let dict = create_dictionary_set(&"klingon".to_string(), &texts);
    assert!(!dict.contains("any"));
    let listed =
        check_spelling_and_return_string_of_wrong_spelled_words(dict, &"any text".to_string());
    assert_eq!(listed, "any,text".to_string());
}

#[test]
fn language_tags() {
    assert_eq!(language_from_tag(&"english".to_string()), Some(Language::English));
    assert_eq!(language_from_tag(&"german".to_string()), Some(Language::German));
    assert_eq!(language_from_tag(&"English".to_string()), None);
    assert_eq!(language_from_tag(&"klingon".to_string()), None);
}

#[test]
fn loaded_lines_are_members() {
    let texts = vec!["hallo\nwelt\r\n".to_string(), "hallo\n x\nende".to_string()];
    let dict = create_dictionary_set(&"german".to_string(), &texts);
    assert!(dict.contains("hallo"));
    assert!(dict.contains("welt"));
    assert!(dict.contains(" x"));
    assert!(dict.contains("ende"));
    assert!(!dict.contains("welt\r"));
    assert!(!dict.contains("x"));
    assert!(!dict.contains("Hallo"));
    assert!(!dict.contains(""));
}

#[test]
fn word_list_lines_are_split_as_std_does() {
    let texts = vec!["a\r\nb\n\nc\r".to_string(), String::new()];
    let lines = all_lines(&texts);
    assert_eq!(lines, vec!["a".to_string(), "b".to_string(), String::new(), "c\r".to_string()]);
}

#[test]
fn inserted_word_is_known() {
    let mut dict = WordSet::new();
    assert!(!dict.contains("a"));
    dict.insert("a".to_string());
    assert!(dict.contains("a"));
}

#[test]
fn hidden_files_are_not_word_lists() {
    assert!(!is_word_list_file(&".DS_Store".to_string()));
    assert!(is_word_list_file(&"words.txt".to_string()));
}
