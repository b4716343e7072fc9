use std::collections::HashMap;

use gifmeta::parse_csv::{parse_csv, parse_keyval_csv};

#[test]
fn parses_plain_values() {
    assert_eq!(parse_csv("10,20,30").unwrap(), vec![10, 20, 30]);
    assert_eq!(parse_csv(" 7 ,\t8 , +9").unwrap(), vec![7, 8, 9]);
    assert_eq!(parse_csv("65535").unwrap(), vec![65535]);
}

#[test]
fn plain_value_errors_quote_the_piece() {
    assert_eq!(parse_csv("10,x,30").unwrap_err(), "Invalid value in list: 'x'");
    assert_eq!(parse_csv("1, 65536").unwrap_err(), "Invalid value in list: ' 65536'");
    assert_eq!(parse_csv("").unwrap_err(), "Invalid value in list: ''");
    assert_eq!(parse_csv("1,,2").unwrap_err(), "Invalid value in list: ''");
    assert_eq!(parse_csv("-1").unwrap_err(), "Invalid value in list: '-1'");
    assert_eq!(parse_csv("+").unwrap_err(), "Invalid value in list: '+'");
    assert_eq!(parse_csv("a,b").unwrap_err(), "Invalid value in list: 'a'");
}

#[test]
fn parses_key_value_pairs() {
    let map = parse_keyval_csv("1=50,2=100").unwrap();
    let mut expected = HashMap::new();
    expected.insert(1usize, 50u16);
    expected.insert(2usize, 100u16);
    assert_eq!(map, expected);
    let spaced = parse_keyval_csv(" 3 = 40 ").unwrap();
    assert_eq!(spaced.get(&3), Some(&40));
    assert_eq!(spaced.len(), 1);
}

#[test]
fn later_pair_replaces_earlier() {
    let map = parse_keyval_csv("1=5,1=7").unwrap();
    assert_eq!(map.len(), 1);
    assert_eq!(map.get(&1), Some(&7));
}

#[test]
fn key_value_errors_quote_the_part() {
    assert_eq!(parse_keyval_csv("abc").unwrap_err(), "Invalid format: 'abc'");
    assert_eq!(parse_keyval_csv("1=2,x=5").unwrap_err(), "Invalid frame index: 'x'");
    assert_eq!(parse_keyval_csv("1=x").unwrap_err(), "Invalid delay value: 'x'");
    assert_eq!(parse_keyval_csv("1=2=3").unwrap_err(), "Invalid delay value: '2=3'");
    assert_eq!(parse_keyval_csv("4=70000").unwrap_err(), "Invalid delay value: '70000'");
    assert_eq!(parse_keyval_csv("1=2,").unwrap_err(), "Invalid format: ''");
    assert_eq!(parse_keyval_csv("bad,1=x").unwrap_err(), "Invalid format: 'bad'");
}
