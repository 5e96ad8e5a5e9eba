use mandelbrot::pair::{pair_of, parse_pair, split_pair};

#[test]
fn test_parse_pair() {
    // Can't parse empty string
    assert_eq!(parse_pair::<i32>("", ','), None);
    // Missing second value
    assert_eq!(parse_pair::<i32>("10,", ','), None);
    // Missing first value
    assert_eq!(parse_pair::<i32>(",10", ','), None);
    // Missing separator
    assert_eq!(parse_pair::<i32>("1020", ','), None);
    // Can parse both numbers
    assert_eq!(parse_pair::<i32>("10,20", ','), Some((10, 20)));
    // Can't convert 20xy to i32, so the parsing fails
    assert_eq!(parse_pair::<i32>("10,20xy", ','), None);
    // Also works when separator is alphabetic
    assert_eq!(parse_pair::<i32>("20x10", 'x'), Some((20, 10)));
    // Missing second value
    assert_eq!(parse_pair::<f64>("0.5x", 'x'), None);
    // Also works with floats
    assert_eq!(parse_pair::<f64>("0.5x1.5", 'x'), Some((0.5, 1.5)));
}

#[test]
fn parse_pair_reads_image_sizes_and_corners() {
    assert_eq!(parse_pair::<usize>("1000x750", 'x'), Some((1000, 750)));
    assert_eq!(parse_pair::<f64>("-1.20,0.35", ','), Some((-1.20, 0.35)));
    assert_eq!(parse_pair::<f64>("-1,0.20", ','), Some((-1.0, 0.20)));
}

#[test]
fn parse_pair_splits_at_the_first_separator() {
    // The right half is "2,3", which is no number.
    assert_eq!(parse_pair::<i32>("1,2,3", ','), None);
    // The right half is a whole string, separators included.
    assert_eq!(
        parse_pair::<String>("a,b,c", ','),
        Some((String::from("a"), String::from("b,c")))
    );
}

#[test]
fn parse_pair_rejects_blanks_and_the_wrong_separator() {
    assert_eq!(parse_pair::<i32>("10, 20", ','), None);
    assert_eq!(parse_pair::<i32>("10x20", ','), None);
    assert_eq!(parse_pair::<u8>("10,256", ','), None);
    assert_eq!(parse_pair::<u8>("10,255", ','), Some((10, 255)));
}

#[test]
fn split_pair_cuts_at_the_first_separator() {
    assert_eq!(split_pair("10,20", ','), Some(("10", "20")));
    assert_eq!(split_pair("a,b,c", ','), Some(("a", "b,c")));
    assert_eq!(split_pair(",", ','), Some(("", "")));
    assert_eq!(split_pair(",10", ','), Some(("", "10")));
    assert_eq!(split_pair("10,", ','), Some(("10", "")));
}

#[test]
fn split_pair_without_separator_is_nothing() {
    assert_eq!(split_pair("", ','), None);
    assert_eq!(split_pair("1020", ','), None);
    assert_eq!(split_pair("10x20", ','), None);
}

#[test]
fn split_pair_counts_characters_not_bytes() {
    assert_eq!(split_pair("é,ü", ','), Some(("é", "ü")));
    assert_eq!(split_pair("1→2", '→'), Some(("1", "2")));
}

#[test]
fn pair_of_needs_both_sides() {
    assert_eq!(pair_of(Some(1), Some(2)), Some((1, 2)));
    assert_eq!(pair_of(Some(1), None), None);
    assert_eq!(pair_of(None, Some(2)), None);
    assert_eq!(pair_of::<i32>(None, None), None);
}
