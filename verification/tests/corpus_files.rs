use feature_refining::corpus_files::{
    assemble, count_entry, find_pronunciation, old_pronunciation_entry, pronunciation_entry,
    sounds_entry, spelling_of, Counted, CountedWord, Spoken,
};
use feature_refining::glyphs::Glyph::{Ae, Dh, Schwa, A, E, H, K, T};
use feature_refining::text::{chars_of, parse_i32};

fn number(text: &str) -> Option<i32> {
    let v = chars_of(text);
    parse_i32(&v, 0, v.len())
}

#[test]
fn signed_numbers() {
    for text in [
        "0", "7", "+7", "-7", "-0", "0012", "2147483647", "2147483648", "-2147483648",
        "-2147483649", "", "+", "-", "+-1", "-+1", "--1", "1 ", " 1", "1a", "a", "99999999999",
    ] {
        assert_eq!(number(text), text.parse::<i32>().ok(), "{:?}", text);
    }
    assert_eq!(number("-2147483648"), Some(i32::MIN));
    assert_eq!(number("2147483647"), Some(i32::MAX));
    assert_eq!(number("2147483648"), None);
}

#[test]
fn a_line_of_pronunciations() {
    assert_eq!(
        pronunciation_entry("the \u{3d1}\u{259}"),
        Some(Spoken { word: chars_of("the"), pronunciation: vec![Dh, Schwa] })
    );
    assert_eq!(
        pronunciation_entry("cat k\u{e6}t more"),
        Some(Spoken { word: chars_of("cat"), pronunciation: vec![K, Ae, T] })
    );
    assert_eq!(
        pronunciation_entry("cat\t \t"),
        Some(Spoken { word: chars_of("cat"), pronunciation: vec![] })
    );
    assert_eq!(pronunciation_entry("cat"), None);
    assert_eq!(pronunciation_entry(""), None);
}

#[test]
fn a_line_of_counts() {
    assert_eq!(
        count_entry("1 the 23135851162"),
        Some(Counted { word: chars_of("the"), count: chars_of("23135851162") })
    );
    assert_eq!(
        count_entry("2 of 13151942776 more"),
        Some(Counted { word: chars_of("of"), count: chars_of("13151942776") })
    );
    assert_eq!(count_entry("1  7"), Some(Counted { word: chars_of(""), count: chars_of("7") }));
    assert_eq!(count_entry("1 the"), None);
    assert_eq!(count_entry(""), None);
}

#[test]
fn a_line_of_sounds() {
    assert_eq!(
        old_pronunciation_entry("cat K AE1 T"),
        Some(Spoken { word: chars_of("cat"), pronunciation: vec![K, Ae, T] })
    );
    assert_eq!(
        old_pronunciation_entry("cat K AE1 T # as in hat"),
        Some(Spoken { word: chars_of("cat"), pronunciation: vec![K, Ae, T] })
    );
    assert_eq!(
        old_pronunciation_entry("cat"),
        Some(Spoken { word: chars_of("cat"), pronunciation: vec![] })
    );
    assert_eq!(old_pronunciation_entry("cat K QQ T"), None);
    assert_eq!(old_pronunciation_entry("cat K  T"), None);
    assert_eq!(sounds_entry("cat K AE1 T # as in hat"), None);
    assert_eq!(
        sounds_entry("the DH AH0"),
        old_pronunciation_entry("the DH AH0#the most common word")
    );
}

#[test]
fn letters_as_glyphs() {
    assert_eq!(spelling_of(&chars_of("the")), Some(vec![T, H, E]));
    assert_eq!(spelling_of(&chars_of("")), Some(vec![]));
    assert_eq!(spelling_of(&chars_of("th\u{e9}")), None);
    assert_eq!(spelling_of(&chars_of("The")), None);
}

#[test]
fn the_last_pronunciation_stands() {
    let table = vec![
        Spoken { word: chars_of("a"), pronunciation: vec![Schwa] },
        Spoken { word: chars_of("the"), pronunciation: vec![Dh, Schwa] },
        Spoken { word: chars_of("a"), pronunciation: vec![A] },
    ];
    assert_eq!(find_pronunciation(&table, &chars_of("a")), Some(vec![A]));
    assert_eq!(find_pronunciation(&table, &chars_of("the")), Some(vec![Dh, Schwa]));
    assert_eq!(find_pronunciation(&table, &chars_of("of")), None);
    assert_eq!(find_pronunciation(&Vec::new(), &chars_of("a")), None);
}

#[test]
fn words_put_together() {
    let table = vec![
        Spoken { word: chars_of("the"), pronunciation: vec![Dh, Schwa] },
        Spoken { word: chars_of("at"), pronunciation: vec![Ae, T] },
        Spoken { word: chars_of("caf\u{e9}"), pronunciation: vec![K] },
    ];
    let counted = |word: &str, count: &str| Counted { word: chars_of(word), count: chars_of(count) };
    assert_eq!(
        assemble(&table, &vec![counted("the", "30"), counted("of", "many"), counted("at", "10")]),
        Some(vec![
            CountedWord { spelling: vec![T, H, E], pronunciation: vec![Dh, Schwa], count: 30 },
            CountedWord { spelling: vec![A, T], pronunciation: vec![Ae, T], count: 10 },
        ])
    );
    assert_eq!(assemble(&table, &vec![counted("the", "30"), counted("at", "many")]), None);
    assert_eq!(assemble(&table, &vec![counted("caf\u{e9}", "3"), counted("at", "1")]), None);
    assert_eq!(assemble(&table, &Vec::new()), Some(vec![]));
    assert_eq!(assemble(&Vec::new(), &vec![counted("the", "30")]), Some(vec![]));
}
