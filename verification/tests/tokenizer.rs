use escpos_rust::Utils;

fn segs(input: &str) -> Vec<String> {
    Utils::separate_numbers_and_non_numbers(input)
}

fn owned(parts: &[&str]) -> Vec<String> {
    parts.iter().map(|p| p.to_string()).collect()
}

#[test]
fn splits_letters_digits_letters() {
    assert_eq!(segs("abc123def"), owned(&["abc", "123", "def"]));
}

#[test]
fn splits_digits_letters_digits() {
    assert_eq!(segs("123abc456"), owned(&["123", "abc", "456"]));
}

#[test]
fn empty_input_gives_one_empty_segment() {
    assert_eq!(segs(""), owned(&[""]));
}

#[test]
fn alternating_single_characters() {
    assert_eq!(segs("a1b2c3"), owned(&["a", "1", "b", "2", "c", "3"]));
}

#[test]
fn all_digits_is_one_segment() {
    assert_eq!(segs("20240229"), owned(&["20240229"]));
}

#[test]
fn all_non_digits_is_one_segment() {
    assert_eq!(segs("hello, world!"), owned(&["hello, world!"]));
}

#[test]
fn single_digit() {
    assert_eq!(segs("7"), owned(&["7"]));
}

#[test]
fn single_non_digit() {
    assert_eq!(segs("x"), owned(&["x"]));
}

#[test]
fn whitespace_and_punctuation_are_non_digits() {
    assert_eq!(segs(" 42 x"), owned(&[" ", "42", " x"]));
}

#[test]
fn non_ascii_codepoints_are_non_digits() {
    // U+0664 ARABIC-INDIC DIGIT FOUR is not one of the decimal digits 0-9.
    assert_eq!(segs("\u{0664}2a"), owned(&["\u{0664}", "2", "a"]));
    assert_eq!(segs("héllo42"), owned(&["héllo", "42"]));
}

#[test]
fn concatenation_rebuilds_the_input() {
    for input in ["abc123def", "123abc456", "", "a1b2c3", "¡ü9é8!", "  12  "] {
        let joined: String = segs(input).concat();
        assert_eq!(joined, input);
    }
}

#[test]
fn consecutive_segments_alternate_classification() {
    for input in ["abc123def", "123abc456", "a1b2c3", "x9y8z7", "--12ab34--"] {
        let parts = segs(input);
        let classes: Vec<bool> = parts
            .iter()
            .map(|p| p.chars().next().unwrap().is_ascii_digit())
            .collect();
        for pair in classes.windows(2) {
            assert_ne!(pair[0], pair[1]);
        }
    }
}

#[test]
fn segments_are_internally_uniform() {
    for input in ["abc123def", "123abc456", "a1b2c3", "width=80;height=24"] {
        for part in segs(input) {
            let first = part.chars().next().unwrap().is_ascii_digit();
            assert!(part.chars().all(|c| c.is_ascii_digit() == first));
        }
    }
}

#[test]
fn retokenizing_a_segment_returns_it_alone() {
    for input in ["abc123def", "123abc456", "", "a1b2c3"] {
        for part in segs(input) {
            assert_eq!(segs(&part), vec![part.clone()]);
        }
    }
}
