use polymarket::strmap::StrMap;
use polymarket::text::{join2, join3, parse_i64};

#[test]
fn insert_replaces_and_remove_deletes() {
    let mut m: StrMap<u32> = StrMap::new();
    assert_eq!(m.len(), 0);
    m.insert("a".to_string(), 1);
    m.insert("b".to_string(), 2);
    m.insert("a".to_string(), 3);
    assert_eq!(m.len(), 2);
    assert_eq!(m.get("a"), Some(&3));
    assert_eq!(m.get("c"), None);
    m.remove("a");
    assert!(!m.contains_key("a"));
    assert_eq!(m.len(), 1);
    m.remove("zz");
    assert_eq!(m.len(), 1);
    assert_eq!(m.keys(), vec!["b".to_string()]);
}

#[test]
fn texts_join_in_order() {
    assert_eq!(join2("ab", "cd"), "abcd");
    assert_eq!(join3("é", "", "ß"), "éß");
}

#[test]
fn integers_parse_like_the_standard_library() {
    let cases = [
        "0", "+5", "-5", "007", "", "-", "+", "12a", " 1", "+-1",
        "9223372036854775807", "9223372036854775808",
        "-9223372036854775808", "-9223372036854775809", "99999999999999999999", "١٢",
    ];
    for c in cases {
        assert_eq!(parse_i64(c), c.parse::<i64>().ok(), "{}", c);
    }
    assert_eq!(parse_i64("-9223372036854775808"), Some(i64::MIN));
}
