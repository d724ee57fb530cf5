use erlangrt::json::{collect_texts, Json, ObjectBuilder};
use erlangrt::util::assoc::AssocMap;
use erlangrt::util::text::{
    blank, chars_of, concat2, concat3, contains, find_char, find_in, parse_u64, rfind_char,
    split_on, starts_with, str_eq, strip_char, to_lower, trim, u64_to_hex, u64_to_text,
};

#[test]
fn texts_are_put_together_and_taken_apart() {
    assert!(str_eq("a", "a"));
    assert!(!str_eq("a", "b"));
    assert_eq!(concat2("a", "b"), "ab");
    assert_eq!(concat3("a", "-", "b"), "a-b");
    assert_eq!(split_on("a,b,,c", ','), vec!["a", "b", "", "c"]);
    assert_eq!(trim("  x y\t\n"), "x y");
    assert!(blank(" \t"));
    assert!(!blank(" x"));
    assert!(starts_with("abc", "ab"));
    assert!(!starts_with("a", "ab"));
    assert!(contains("hello", "ell"));
    assert_eq!(to_lower("AbC\u{e9}"), "abc\u{e9}");
    assert_eq!(strip_char("a-b-c", '-'), "abc");
    let v = chars_of("a{b}{c}");
    assert_eq!(find_char(&v, '{'), Some(1));
    assert_eq!(rfind_char(&v, '}'), Some(6));
    assert_eq!(find_in(&v, "}{", 0), Some(3));
    assert_eq!(find_in(&v, "xx", 0), None);
}

#[test]
fn numbers_are_written_and_read() {
    for n in [0u64, 7, 10, 123456789, u64::MAX] {
        assert_eq!(u64_to_text(n), n.to_string());
        assert_eq!(parse_u64(&u64_to_text(n)), Ok(n));
    }
    assert_eq!(parse_u64("+5"), Ok(5));
    assert!(parse_u64("").is_err());
    assert!(parse_u64("-1").is_err());
    assert!(parse_u64("1x").is_err());
    assert!(parse_u64("18446744073709551616").is_err());
    assert_eq!(u64_to_hex(0xbeef, 8), "0000beef");
}

#[test]
fn values_are_read_and_printed() {
    let v = Json::parse(r#" {"b": [1, -2, 1.5, "x\n", null, true], "a": {}} "#).unwrap();
    assert_eq!(v.to_text(), r#"{"a":{},"b":[1,-2,1.5,"x\n",null,true]}"#);
    assert!(v.to_pretty().contains('\n'));
    assert_eq!(Json::parse(&v.to_pretty()).unwrap(), v);
    assert_eq!(v.clone(), v);
    let b = v.get("b").unwrap().as_array().unwrap();
    assert_eq!(b[0].as_u64(), Some(1));
    assert_eq!(b[1].as_i64(), Some(-2));
    assert_eq!(b[1].as_u64(), None);
    assert_eq!(b[5].as_bool(), Some(true));
    assert_eq!(collect_texts(b), vec!["x\n"]);
    assert!(Json::parse("{").is_err());
    let mut o = ObjectBuilder::new();
    o.put_u64("n", 3);
    o.put_str("s", "t");
    let built = o.build();
    assert_eq!(built, Json::parse(r#"{"s": "t", "n": 3}"#).unwrap());
    assert_ne!(built, Json::parse(r#"{"s": "t", "n": 4}"#).unwrap());
}

#[test]
fn maps_hold_one_value_per_key() {
    let mut m: AssocMap<String, u64> = AssocMap::new();
    assert_eq!(m.insert("a".to_string(), 1), None);
    assert_eq!(m.insert("a".to_string(), 2), Some(1));
    assert_eq!(m.len(), 1);
    assert_eq!(m.get_str("a"), Some(&2));
    assert!(m.contains_str("a"));
    assert!(!m.contains_key(&"b".to_string()));
    assert_eq!(m.remove_str("a"), Some(2));
    assert_eq!(m.len(), 0);
}
