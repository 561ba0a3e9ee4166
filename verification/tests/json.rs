use mcpanel::json::{member, parse_json, Json};
use mcpanel::strmap::{NameSet, StrMap};
use mcpanel::text::{
    is_control, is_white_space, i64_text, same_text, string_between, text_before, trim, u64_text,
    upper_text,
};

#[test]
fn parses_and_prints() {
    let text = r#"{"b":[1,-2,true,null,"x\n"],"a":{"z":{},"y":1.5}}"#;
    let j = parse_json(text).unwrap();
    assert_eq!(
        j.to_text(),
        r#"{"a":{"y":1.5,"z":{}},"b":[1,-2,true,null,"x\n"]}"#
    );
}

#[test]
fn reads_members() {
    let j = parse_json(r#"{"a":1,"b":"x","a2":18446744073709551615}"#).unwrap();
    assert_eq!(j.get("a").and_then(|v| v.as_i64()), Some(1));
    assert_eq!(j.get("b").and_then(|v| v.as_str()), Some("x"));
    assert_eq!(j.get("a2").and_then(|v| v.as_i64()), None);
    assert!(j.get("c").is_none());
    assert!(j.has("b"));
    assert!(!j.has("x"));
    assert!(Json::string("a").get("a").is_none());
    assert_eq!(Json::Bool(true).as_str(), None);
    assert_eq!(j.clone(), j);
}

#[test]
fn the_last_of_two_members_with_one_name_counts() {
    let j = parse_json(r#"{"a":1,"a":2}"#).unwrap();
    assert_eq!(j.to_text(), r#"{"a":2}"#);
}

#[test]
fn reports_what_is_not_json() {
    let message = parse_json("[1,").err().unwrap();
    assert!(message.contains("EOF"), "{message}");
}

#[test]
fn printing_sorts_members_that_were_put_together_out_of_order() {
    let j = Json::Object(vec![member("b", Json::Null), member("a", Json::from_u64(u64::MAX))]);
    assert_eq!(j.to_text(), r#"{"a":18446744073709551615,"b":null}"#);
    assert_eq!(Json::from_i64(i64::MIN).to_text(), "-9223372036854775808");
    assert_eq!(Json::empty_object().to_text(), "{}");
}

#[test]
fn what_is_printed_is_parsed_back() {
    let mut j = Json::from_i64(3);
    for _ in 0..127 {
        j = Json::Array(vec![j]);
    }
    let text = j.clone().to_text();
    assert_eq!(parse_json(&text).unwrap(), j);
    let deeper = Json::Array(vec![j]).to_text();
    assert!(parse_json(&deeper).is_err());
}

#[test]
fn maps_are_walked_in_order() {
    let mut map = StrMap::new();
    for key in ["b", "a", "é", "B", "ab"] {
        map.insert(key.to_string(), key.to_uppercase());
    }
    map.insert("a".to_string(), "again".to_string());
    let keys: Vec<&str> = (0..map.len()).map(|i| map.key_at(i)).collect();
    assert_eq!(keys, ["B", "a", "ab", "b", "é"]);
    assert_eq!(map.get("a").unwrap(), "again");
    assert_eq!(map.value_at(4), "É");
    assert!(map.contains("ab"));
    assert_eq!(map.duplicate(), map);
    assert!(map.remove("ab"));
    assert!(!map.remove("ab"));
    assert_eq!(map.len(), 4);
    assert!(map.get("ab").is_none());
}

#[test]
fn sets_hold_names() {
    let mut set = NameSet::new();
    assert!(!set.contains("a"));
    set.insert("a".to_string());
    set.insert("a".to_string());
    assert!(set.contains("a"));
    assert!(!set.contains("A"));
    assert_eq!(set.count(), 2);
}

#[test]
fn text_helpers_agree_with_the_standard_library() {
    for s in ["", " a ", "\u{3000}é\t", "\u{85}\u{a0}x\u{2028}", "no", "\u{200b} z"] {
        assert_eq!(trim(s), s.trim());
        assert_eq!(upper_text(s), s.to_ascii_uppercase());
        for t in ["", "a", "é", "x", "\u{10000}"] {
            assert_eq!(same_text(s, t), s == t);
            assert_eq!(text_before(s, t), s < t);
        }
    }
    for c in ('\u{0}'..='\u{ffff}').chain(['\u{10ffff}']) {
        assert_eq!(is_control(c), c.is_control(), "{c:?}");
        assert_eq!(is_white_space(c), c.is_whitespace(), "{c:?}");
    }
    for n in [0, 9, 10, 1234567890, u64::MAX] {
        assert_eq!(u64_text(n), n.to_string());
    }
    for n in [0, -1, -10, i64::MIN, i64::MAX] {
        assert_eq!(i64_text(n), n.to_string());
    }
    assert_eq!(string_between(&['a', 'é', 'c'], 1, 3), "éc");
}

#[test]
fn no_member_name_is_special_to_the_parser() {
    for name in ["$serde_json::private::RawValue", "$serde_json::private::Number"] {
        for value in [Json::string("1"), Json::Null, Json::from_i64(1)] {
            let j = Json::Object(vec![member(name, value)]);
            assert_eq!(parse_json(&j.clone().to_text()).unwrap(), j);
        }
    }
}
