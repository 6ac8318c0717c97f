use feature_refining::seqs::{copy_range, copy_vec, splice};
use feature_refining::text::{
    char_is_whitespace, chars_are, chars_equal, chars_of, count_of, find_char, has_char,
    parse_u32, push_chars, push_decimal, push_joined, push_lit, split_chars, string_of,
    trim_chars,
};

#[test]
fn characters_there_and_back() {
    let v = chars_of("sh\u{e6}w");
    assert_eq!(v, vec!['s', 'h', '\u{e6}', 'w']);
    assert_eq!(string_of(&v), "sh\u{e6}w");
    assert_eq!(string_of(&Vec::new()), "");
}

#[test]
fn numbers_in_decimal() {
    let mut out = chars_of("n=");
    push_decimal(&mut out, 0);
    push_lit(&mut out, ",");
    push_decimal(&mut out, 1000);
    push_lit(&mut out, ",");
    push_decimal(&mut out, u64::MAX);
    assert_eq!(string_of(&out), "n=0,1000,18446744073709551615");
}

#[test]
fn numbers_read_back() {
    let v = chars_of("x42y");
    assert_eq!(parse_u32(&v, 1, 3), Some(42));
    assert_eq!(parse_u32(&v, 0, 3), None);
    assert_eq!(parse_u32(&v, 1, 4), None);
    assert_eq!(parse_u32(&v, 1, 1), None);
    let plus = chars_of("+7");
    assert_eq!(parse_u32(&plus, 0, 2), Some(7));
    assert_eq!(parse_u32(&plus, 0, 1), None);
    let zeros = chars_of("0007");
    assert_eq!(parse_u32(&zeros, 0, 4), Some(7));
    let most = chars_of("4294967295");
    assert_eq!(parse_u32(&most, 0, most.len()), Some(u32::MAX));
    let too_much = chars_of("4294967296");
    assert_eq!(parse_u32(&too_much, 0, too_much.len()), None);
    let minus = chars_of("-1");
    assert_eq!(parse_u32(&minus, 0, 2), None);
}

#[test]
fn comparing_characters() {
    assert!(chars_equal(&chars_of("abc"), &chars_of("abc")));
    assert!(!chars_equal(&chars_of("abc"), &chars_of("abd")));
    assert!(!chars_equal(&chars_of("abc"), &chars_of("ab")));
    assert!(chars_are(&chars_of("sub"), "sub"));
    assert!(!chars_are(&chars_of("sub"), "by"));
}

#[test]
fn joining_parts() {
    let mut out = Vec::new();
    push_joined(&mut out, &vec![chars_of("a"), chars_of("bc"), chars_of("")], ", ");
    assert_eq!(string_of(&out), "a, bc, ");
    let mut one = chars_of("[");
    push_joined(&mut one, &vec![chars_of("x")], "-");
    push_chars(&mut one, &chars_of("]"));
    assert_eq!(string_of(&one), "[x]");
    let mut none = Vec::new();
    push_joined(&mut none, &Vec::new(), "-");
    assert!(none.is_empty());
}

#[test]
fn counting_and_finding() {
    let v = chars_of("a|b|c");
    assert_eq!(count_of(&v, '|'), 2);
    assert_eq!(count_of(&v, 'z'), 0);
    assert_eq!(find_char(&v, '|'), 1);
    assert_eq!(find_char(&v, 'z'), 5);
    assert!(has_char(&v, 'c'));
    assert!(!has_char(&v, 'z'));
}

#[test]
fn white_space_at_the_ends() {
    assert_eq!(string_of(&trim_chars(&chars_of("  a b\t\n"))), "a b");
    assert_eq!(string_of(&trim_chars(&chars_of(" \u{a0} "))), "");
    assert_eq!(string_of(&trim_chars(&chars_of("ab"))), "ab");
    for c in [' ', '\t', '\n', '\r', '\u{b}', '\u{c}', '\u{85}', '\u{a0}', '\u{2003}', '\u{3000}'] {
        assert!(char_is_whitespace(c));
        assert!(c.is_whitespace());
    }
    for c in ['a', '0', '_', '\u{200b}'] {
        assert!(!char_is_whitespace(c));
        assert!(!c.is_whitespace());
    }
}

#[test]
fn white_space_as_the_standard_library_has_it() {
    for n in 0..0x3100u32 {
        if let Some(c) = char::from_u32(n) {
            assert_eq!(char_is_whitespace(c), c.is_whitespace());
        }
    }
}

#[test]
fn splitting_at_a_character() {
    let parts = split_chars(&chars_of("a,,bc,"), ',');
    let texts: Vec<String> = parts.iter().map(string_of).collect();
    assert_eq!(texts, "a,,bc,".split(',').collect::<Vec<_>>());
    let whole = split_chars(&chars_of("abc"), ',');
    assert_eq!(whole, vec![chars_of("abc")]);
    let empty = split_chars(&Vec::new(), ',');
    assert_eq!(empty, vec![Vec::<char>::new()]);
}

#[test]
fn copying_and_splicing() {
    let v: Vec<u32> = vec![1, 2, 3, 4, 5];
    assert_eq!(copy_range(&v, 1, 3), vec![2, 3]);
    assert_eq!(copy_range(&v, 2, 2), Vec::<u32>::new());
    assert_eq!(copy_vec(&v), v);
    let mut w = v.clone();
    splice(&mut w, 1, 3, &vec![9, 9, 9]);
    assert_eq!(w, vec![1, 9, 9, 9, 4, 5]);
    splice(&mut w, 0, 0, &vec![7]);
    assert_eq!(w, vec![7, 1, 9, 9, 9, 4, 5]);
    splice(&mut w, 5, 7, &Vec::new());
    assert_eq!(w, vec![7, 1, 9, 9, 9]);
}
