use utilify::matching::{levenshtein, name_key, normalize_title, primary_artist_key, strip_brackets};

#[test]
fn strips_edition_noise() {
    assert_eq!(normalize_title("Blinding Lights - Remastered 2021"), "blinding lights");
    assert_eq!(normalize_title("Sunflower (feat. Swae Lee)"), "sunflower");
    assert_eq!(normalize_title("Sunflower feat. Swae Lee"), "sunflower");
    assert_eq!(normalize_title("Hey Jude [Live]"), "hey jude");
    assert_eq!(normalize_title("  Don't   Stop Me Now!! "), "don t stop me now");
}

#[test]
fn name_key_groups_versions() {
    assert_eq!(
        name_key("Bohemian Rhapsody - 2011 Remaster", "Queen"),
        name_key("Bohemian Rhapsody", "Queen, Freddie Mercury")
    );
    assert_ne!(name_key("Hello", "Adele"), name_key("Hello", "Lionel Richie"));
}

#[test]
fn edit_distances_count_single_edits() {
    let c = |s: &str| s.chars().collect::<Vec<char>>();
    assert_eq!(levenshtein(&c("kitten"), &c("sitting")), 3);
    assert_eq!(levenshtein(&c(""), &c("abc")), 3);
    assert_eq!(levenshtein(&c("abc"), &c("abc")), 0);
    assert_eq!(levenshtein(&c("flaw"), &c("lawn")), 2);
}

#[test]
fn the_primary_artist_is_the_first_credit_lower_cased() {
    assert_eq!(primary_artist_key("Queen, Freddie Mercury"), "queen");
    assert_eq!(primary_artist_key("  Adele "), "adele");
}

#[test]
fn nested_brackets_are_stripped_whole() {
    let c = |s: &str| s.chars().collect::<Vec<char>>();
    let out: String = strip_brackets(&c("a (b (c) d) e"), '(', ')').into_iter().collect();
    assert_eq!(out, "a  e");
}

#[test]
fn an_ascii_title_normalizes_to_single_spaced_small_words() {
    assert_eq!(normalize_title("  Hello,   WORLD!! (Live) [2011] - Remaster"), "hello world");
    assert_eq!(normalize_title("A\tB\x0bC"), "a b c");
    assert_eq!(normalize_title("!!!"), "");
}
