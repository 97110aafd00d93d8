use warp_api::parse::parse_user_chars;

fn cs(s: &str) -> Vec<char> {
    s.chars().collect()
}

fn text(v: &Vec<char>) -> String {
    v.iter().collect()
}

#[test]
fn plain_body_parses() {
    let u = parse_user_chars(&cs("{\"name\":\"Alice\",\"age\":30}")).unwrap();
    assert!(u.id.is_none());
    assert_eq!(text(&u.name), "Alice");
    assert_eq!(u.age, 30);
}

#[test]
fn age_first_with_whitespace_parses() {
    let u = parse_user_chars(&cs("  { \"age\" : 7 , \"name\" : \"Bob\" }  ")).unwrap();
    assert!(u.id.is_none());
    assert_eq!(text(&u.name), "Bob");
    assert_eq!(u.age, 7);
}

#[test]
fn escapes_in_name_parse() {
    let u = parse_user_chars(&cs("{\"name\":\"a\\\"b\\\\c\",\"age\":1}")).unwrap();
    assert_eq!(text(&u.name), "a\"b\\c");
}

#[test]
fn unicode_escape_parses() {
    let u = parse_user_chars(&cs("{\"name\":\"x\\u0009y\",\"age\":2}")).unwrap();
    assert_eq!(text(&u.name), "x\ty");
}

#[test]
fn zero_age_parses() {
    let u = parse_user_chars(&cs("{\"name\":\"z\",\"age\":0}")).unwrap();
    assert_eq!(u.age, 0);
}

#[test]
fn largest_age_parses() {
    let u = parse_user_chars(&cs("{\"name\":\"z\",\"age\":4294967295}")).unwrap();
    assert_eq!(u.age, 4294967295);
}

#[test]
fn missing_name_is_rejected() {
    assert!(parse_user_chars(&cs("{\"age\":3}")).is_none());
}

#[test]
fn missing_age_is_rejected() {
    assert!(parse_user_chars(&cs("{\"name\":\"x\"}")).is_none());
}

#[test]
fn non_numeric_age_is_rejected() {
    assert!(parse_user_chars(&cs("{\"name\":\"x\",\"age\":\"3\"}")).is_none());
    assert!(parse_user_chars(&cs("{\"name\":\"x\",\"age\":abc}")).is_none());
}

#[test]
fn negative_age_is_rejected() {
    assert!(parse_user_chars(&cs("{\"name\":\"x\",\"age\":-3}")).is_none());
}

#[test]
fn leading_zero_age_is_rejected() {
    assert!(parse_user_chars(&cs("{\"name\":\"x\",\"age\":01}")).is_none());
}

#[test]
fn overflowing_age_is_rejected() {
    assert!(parse_user_chars(&cs("{\"name\":\"x\",\"age\":4294967296}")).is_none());
    assert!(parse_user_chars(&cs("{\"name\":\"x\",\"age\":99999999999999999999}")).is_none());
}

#[test]
fn trailing_text_is_rejected() {
    assert!(parse_user_chars(&cs("{\"name\":\"x\",\"age\":1}x")).is_none());
}

#[test]
fn empty_body_is_rejected() {
    assert!(parse_user_chars(&cs("")).is_none());
    assert!(parse_user_chars(&cs("   ")).is_none());
}

#[test]
fn non_object_is_rejected() {
    assert!(parse_user_chars(&cs("[1,2]")).is_none());
    assert!(parse_user_chars(&cs("\"name\"")).is_none());
}

#[test]
fn unknown_member_is_skipped() {
    let u = parse_user_chars(&cs("{\"name\":\"x\",\"note\":\"hi\",\"age\":3}")).unwrap();
    assert_eq!(text(&u.name), "x");
    assert_eq!(u.age, 3);
}

#[test]
fn nested_unknown_member_is_skipped() {
    let body = "{\"meta\":{\"a\":[1,-2.5e2,true,null,\"s\"],\"b\":{}},\"name\":\"y\",\"age\":2}";
    let u = parse_user_chars(&cs(body)).unwrap();
    assert_eq!(text(&u.name), "y");
    assert_eq!(u.age, 2);
}

#[test]
fn unknown_member_without_age_still_fails() {
    assert!(parse_user_chars(&cs("{\"name\":\"x\",\"old\":3}")).is_none());
}

#[test]
fn client_supplied_id_is_rejected() {
    assert!(parse_user_chars(&cs("{\"id\":\"abc\",\"name\":\"x\",\"age\":1}")).is_none());
}

#[test]
fn duplicate_name_is_rejected() {
    assert!(parse_user_chars(&cs("{\"name\":\"x\",\"name\":\"y\",\"age\":1}")).is_none());
}

#[test]
fn short_escapes_parse() {
    let u = parse_user_chars(&cs("{\"name\":\"a\\tb\\nc\\/d\\re\",\"age\":1}")).unwrap();
    assert_eq!(text(&u.name), "a\tb\nc/d\re");
}

#[test]
fn four_hex_escape_parses_either_case() {
    let u = parse_user_chars(&cs("{\"name\":\"\\u0141uk \\u00e9 \\u004A\",\"age\":30}")).unwrap();
    assert_eq!(text(&u.name), "\u{141}uk \u{e9} J");
}

#[test]
fn surrogate_pair_parses() {
    let u = parse_user_chars(&cs("{\"name\":\"x\\uD83D\\uDE00y\",\"age\":1}")).unwrap();
    assert_eq!(text(&u.name), "x\u{1F600}y");
}

#[test]
fn lone_surrogate_is_rejected() {
    assert!(parse_user_chars(&cs("{\"name\":\"\\uD83D\",\"age\":1}")).is_none());
    assert!(parse_user_chars(&cs("{\"name\":\"\\uDE00\",\"age\":1}")).is_none());
}

#[test]
fn float_age_is_rejected() {
    assert!(parse_user_chars(&cs("{\"name\":\"x\",\"age\":1.5}")).is_none());
}

#[test]
fn escaped_key_is_read() {
    let u = parse_user_chars(&cs("{\"nam\\u0065\":\"x\",\"age\":1}")).unwrap();
    assert_eq!(text(&u.name), "x");
}

#[test]
fn unterminated_string_is_rejected() {
    assert!(parse_user_chars(&cs("{\"name\":\"x,\"age\":1}")).is_none());
}

#[test]
fn serde_agrees_on_accepted_body() {
    let body = "{\"name\":\"Ada\",\"age\":36}";
    let u = parse_user_chars(&cs(body)).unwrap();
    let v: serde_json::Value = serde_json::from_str(body).unwrap();
    assert_eq!(v["name"].as_str().unwrap(), text(&u.name));
    assert_eq!(v["age"].as_u64().unwrap(), u.age as u64);
}
