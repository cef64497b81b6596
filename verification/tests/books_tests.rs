use bible_mcp::books::{book_name, canonical_books};
use bible_mcp::books::{best_match, book_filter, normalize_ordinals, resolve_book};

#[test]
fn exact_match() {
    let (num, name) = resolve_book("Genesis").unwrap();
    assert_eq!(num, 1);
    assert_eq!(name, "Genesis");
}

#[test]
fn case_insensitive() {
    let (num, name) = resolve_book("genesis").unwrap();
    assert_eq!(num, 1);
    assert_eq!(name, "Genesis");
}

#[test]
fn abbreviated_gen() {
    let (num, _) = resolve_book("Gen").unwrap();
    assert_eq!(num, 1);
}

#[test]
fn fuzzy_first_kings() {
    let (num, name) = resolve_book("First Kings").unwrap();
    assert_eq!(num, 11);
    assert_eq!(name, "1 Kings");
}

#[test]
fn unknown_book_returns_error() {
    assert!(resolve_book("Hezekiah").is_err());
}

#[test]
fn revelation() {
    let (num, _) = resolve_book("Rev").unwrap();
    assert_eq!(num, 66);
}

#[test]
fn gen_variants() {
    for input in &["Genesis", "genesis", "Gen", "gen"] {
        let (num, name) = resolve_book(input).unwrap();
        assert_eq!(num, 1, "failed on '{input}'");
        assert_eq!(name, "Genesis");
    }
}

#[test]
fn numbered_books() {
    assert_eq!(resolve_book("1 Kings").unwrap().0, 11);
    assert_eq!(resolve_book("2 Kings").unwrap().0, 12);
    assert_eq!(resolve_book("1 Corinthians").unwrap().0, 46);
    assert_eq!(resolve_book("Revelation").unwrap().0, 66);
}

#[test]
fn fuzzy_variants() {
    assert_eq!(resolve_book("Psalms").unwrap().0, 19);
    assert_eq!(resolve_book("Psalm").unwrap().0, 19);
    assert_eq!(resolve_book("Rev").unwrap().0, 66);
    assert_eq!(resolve_book("Matt").unwrap().0, 40);
}

#[test]
fn completely_unknown_fails() {
    assert!(resolve_book("Hezekiah").is_err());
    assert!(resolve_book("xyz123").is_err());
}

#[test]
fn normalize_ordinals_writes_numbers() {
    assert_eq!(normalize_ordinals("First Kings"), "1 kings");
    assert_eq!(normalize_ordinals("Second Samuel"), "2 samuel");
    assert_eq!(normalize_ordinals("THIRD John"), "3 john");
    assert_eq!(normalize_ordinals("1st Cor"), "1 cor");
    assert_eq!(normalize_ordinals("2nd Peter"), "2 peter");
    assert_eq!(normalize_ordinals("3rd John"), "3 john");
    assert_eq!(normalize_ordinals("Genesis"), "genesis");
    assert_eq!(normalize_ordinals("first"), "first");
}

#[test]
fn ordinal_forms_resolve_exactly() {
    assert_eq!(resolve_book("Second Corinthians").unwrap(), (47, "2 Corinthians"));
    assert_eq!(resolve_book("1st Timothy").unwrap(), (54, "1 Timothy"));
    assert_eq!(resolve_book("3rd John").unwrap(), (64, "3 John"));
    assert_eq!(resolve_book("SONG OF SOLOMON").unwrap(), (22, "Song of Solomon"));
}

#[test]
fn unknown_book_message_names_the_input() {
    let err = resolve_book("Pizza").unwrap_err();
    assert_eq!(err.input, "Pizza");
    assert_eq!(
        err.message(),
        "Unknown book: 'Pizza'. Try a standard Bible book name."
    );
}

#[test]
fn every_canonical_name_resolves_to_itself() {
    let names = [
        "Genesis", "Exodus", "Leviticus", "Numbers", "Deuteronomy", "Joshua", "Judges", "Ruth",
        "1 Samuel", "2 Samuel", "1 Kings", "2 Kings", "1 Chronicles", "2 Chronicles", "Ezra",
        "Nehemiah", "Esther", "Job", "Psalms", "Proverbs", "Ecclesiastes", "Song of Solomon",
        "Isaiah", "Jeremiah", "Lamentations", "Ezekiel", "Daniel", "Hosea", "Joel", "Amos",
        "Obadiah", "Jonah", "Micah", "Nahum", "Habakkuk", "Zephaniah", "Haggai", "Zechariah",
        "Malachi", "Matthew", "Mark", "Luke", "John", "Acts", "Romans", "1 Corinthians",
        "2 Corinthians", "Galatians", "Ephesians", "Philippians", "Colossians",
        "1 Thessalonians", "2 Thessalonians", "1 Timothy", "2 Timothy", "Titus", "Philemon",
        "Hebrews", "James", "1 Peter", "2 Peter", "1 John", "2 John", "3 John", "Jude",
        "Revelation",
    ];
    for (i, name) in names.iter().enumerate() {
        assert_eq!(resolve_book(name).unwrap(), ((i + 1) as u32, *name));
    }
}

#[test]
fn empty_name_is_unknown() {
    assert!(resolve_book("").is_err());
}

#[test]
fn readme_examples_resolve() {
    assert_eq!(resolve_book("Gen").unwrap(), (1, "Genesis"));
    assert_eq!(resolve_book("First Kings").unwrap(), (11, "1 Kings"));
    assert_eq!(resolve_book("1st Cor").unwrap(), (46, "1 Corinthians"));
}

#[test]
fn best_match_takes_the_last_greatest_score() {
    let s = |x: f64| x.to_bits();
    assert_eq!(best_match(&[s(0.5), s(0.9), s(0.7)]), Some(1));
    assert_eq!(best_match(&[s(0.9), s(0.5), s(0.9)]), Some(2));
    assert_eq!(best_match(&[s(0.8)]), Some(0));
    assert_eq!(best_match(&[s(0.79), s(0.1)]), None);
    assert_eq!(best_match(&[]), None);
}

#[test]
fn book_filter_resolves_or_refuses() {
    assert_eq!(book_filter(None).unwrap(), None);
    assert_eq!(book_filter(Some("john")).unwrap(), Some(43));
    assert_eq!(book_filter(Some("Pizza")).unwrap_err().input, "Pizza");
}

#[test]
fn canonical_book_list() {
    let books = canonical_books();
    assert_eq!(books.len(), 66);
    assert_eq!(books[0], (1, "Genesis"));
    assert_eq!(books[10], (11, "1 Kings"));
    assert_eq!(books[65], (66, "Revelation"));
    assert_eq!(book_name(42), "John");
}

#[test]
fn ascii_case_does_not_matter() {
    assert_eq!(resolve_book("JOHN").unwrap(), (43, "John"));
    assert_eq!(resolve_book("1 john").unwrap(), (62, "1 John"));
    assert_eq!(resolve_book("song of solomon").unwrap(), (22, "Song of Solomon"));
    assert_eq!(normalize_ordinals("Firstborn"), "firstborn");
    assert_eq!(normalize_ordinals("Song of Solomon"), "song of solomon");
}

#[test]
fn normalizing_twice_is_normalizing_once() {
    for input in &["First Second Kings", "1st 2nd 3rd John", "THIRD firstborn", "Song of Solomon"] {
        let once = normalize_ordinals(input);
        assert_eq!(normalize_ordinals(&once), once, "failed on '{input}'");
    }
    assert_eq!(normalize_ordinals("First Second Kings"), "1 2 kings");
}
