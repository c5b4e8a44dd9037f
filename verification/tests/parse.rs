use mandelbrot::parse::{parse_pair, parse_pair_usize, parse_usize};

#[test]
fn test_parse_pair() {
    assert_eq!(parse_pair::<i32>("", ','), None);
    assert_eq!(parse_pair::<i32>("10,", ','), None);
    assert_eq!(parse_pair::<i32>(",10", ','), None);
    assert_eq!(parse_pair::<f64>("10.0,20.0", ','), Some((10.0, 20.0)));
    assert_eq!(parse_pair::<i32>("10,20xy", ','), None);
    assert_eq!(parse_pair::<f64>("0.5x", 'x'), None);
    assert_eq!(parse_pair::<f64>("0.5x1.5", 'x'), Some((0.5, 1.5)));
}

#[test]
fn test_parse_pair_usize_valid() {
    assert_eq!(parse_pair_usize("3x5", 'x'), Some((3, 5)));
    assert_eq!(parse_pair_usize("1000x750", 'x'), Some((1000, 750)));
    assert_eq!(parse_pair_usize("10,20", ','), Some((10, 20)));
    assert_eq!(parse_pair_usize("007x5", 'x'), Some((7, 5)));
}

#[test]
fn test_parse_pair_usize_invalid() {
    assert_eq!(parse_pair_usize("", 'x'), None);
    assert_eq!(parse_pair_usize("35", 'x'), None);
    assert_eq!(parse_pair_usize("3x", 'x'), None);
    assert_eq!(parse_pair_usize("x5", 'x'), None);
    assert_eq!(parse_pair_usize("10,20xy", ','), None);
    assert_eq!(parse_pair_usize("0.5x1.5", 'x'), None);
    assert_eq!(parse_pair_usize("3x5x7", 'x'), None);
}

#[test]
fn test_parse_usize_overflow() {
    assert_eq!(parse_usize("99999999999999999999999999999"), None);
    assert_eq!(parse_usize("12345"), Some(12345));
    assert_eq!(parse_usize(""), None);
    assert_eq!(parse_usize("12a45"), None);
}
