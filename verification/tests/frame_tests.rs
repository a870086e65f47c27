use ollama_relay::decode_frame;

fn decode_str(s: &str) -> Option<(String, bool)> {
    decode_frame(&s.as_bytes().to_vec()).map(|f| (String::from_utf8(f.fragment).unwrap(), f.done))
}

#[test]
fn plain_frame_decodes() {
    assert_eq!(decode_str(r#"{"response":"Hi","done":false}"#), Some(("Hi".to_string(), false)));
    assert_eq!(decode_str(r#"{"response":"","done":true}"#), Some(("".to_string(), true)));
}

#[test]
fn member_order_does_not_matter() {
    assert_eq!(decode_str(r#"{"done":true,"response":"x"}"#), Some(("x".to_string(), true)));
}

#[test]
fn unknown_members_are_skipped() {
    let line = r#"{"model":"m","created_at":"t","response":"ok","total":12,"done":false}"#;
    assert_eq!(decode_str(line), Some(("ok".to_string(), false)));
}

#[test]
fn nested_values_in_unknown_members_are_skipped() {
    let line = r#"{"context":[1,2,{"a":"}","b":[true,null]}],"response":"y","done":false}"#;
    assert_eq!(decode_str(line), Some(("y".to_string(), false)));
}

#[test]
fn whitespace_around_members_is_tolerated() {
    let line = "  { \"response\" : \"x\" , \"done\" : false }  ";
    assert_eq!(decode_str(line), Some(("x".to_string(), false)));
}

#[test]
fn escapes_are_decoded() {
    let line = r#"{"response":"a\"b\\c\nd\te\/f","done":false}"#;
    assert_eq!(decode_str(line), Some(("a\"b\\c\nd\te/f".to_string(), false)));
}

#[test]
fn empty_line_yields_no_frame() {
    assert_eq!(decode_str(""), None);
    assert_eq!(decode_str("   "), None);
}

#[test]
fn malformed_lines_yield_no_frame() {
    assert_eq!(decode_str("not json"), None);
    assert_eq!(decode_str(r#"{"response":"x","done":false"#), None);
    assert_eq!(decode_str(r#"{"response":"x","done":false}}"#), None);
    assert_eq!(decode_str(r#"["response","done"]"#), None);
}

#[test]
fn missing_members_yield_no_frame() {
    assert_eq!(decode_str("{}"), None);
    assert_eq!(decode_str(r#"{"response":"x"}"#), None);
    assert_eq!(decode_str(r#"{"done":true}"#), None);
}

#[test]
fn wrongly_typed_members_yield_no_frame() {
    assert_eq!(decode_str(r#"{"response":1,"done":true}"#), None);
    assert_eq!(decode_str(r#"{"response":"x","done":"yes"}"#), None);
    assert_eq!(decode_str(r#"{"response":null,"done":true}"#), None);
}

#[test]
fn duplicated_members_yield_no_frame() {
    assert_eq!(decode_str(r#"{"response":"a","response":"b","done":true}"#), None);
    assert_eq!(decode_str(r#"{"done":false,"response":"a","done":true}"#), None);
}

#[test]
fn unicode_escapes_are_decoded() {
    assert_eq!(
        decode_str("{\"response\":\"\\u0041\\u0042\",\"done\":false}"),
        Some(("AB".to_string(), false))
    );
    // Go-style HTML escaping of <, > and & inside JSON strings.
    assert_eq!(
        decode_str("{\"response\":\"\\u003cdiv\\u003e \\u0026 done\",\"done\":false}"),
        Some(("<div> & done".to_string(), false))
    );
    // Two- and three-byte UTF-8 code points, lower and upper case hex.
    assert_eq!(
        decode_str("{\"response\":\"\\u0440\\u044B\\u0431\\u0430 \\u4E2D\",\"done\":true}"),
        Some(("рыба 中".to_string(), true))
    );
}

#[test]
fn surrogate_pairs_become_one_code_point() {
    assert_eq!(
        decode_str("{\"response\":\"\\ud83e\\udd80\",\"done\":false}"),
        Some(("\u{1f980}".to_string(), false))
    );
}

#[test]
fn broken_unicode_escapes_yield_no_frame() {
    // A lone high surrogate, a lone low surrogate, a pair cut short,
    // bad hex digits, and a truncated escape.
    assert_eq!(decode_str(r#"{"response":"\ud83e","done":false}"#), None);
    assert_eq!(decode_str(r#"{"response":"\udd80","done":false}"#), None);
    assert_eq!(decode_str(r#"{"response":"\ud83ex","done":false}"#), None);
    assert_eq!(decode_str(r#"{"response":"\u00g1","done":false}"#), None);
    assert_eq!(decode_str(r#"{"response":"\u12","done":false}"#), None);
}

#[test]
fn escaped_member_names_still_match() {
    // The member name is unescaped before it is compared.
    assert_eq!(
        decode_str("{\"respons\\u0065\":\"x\",\"done\":true}"),
        Some(("x".to_string(), true))
    );
}

#[test]
fn raw_utf8_passes_through() {
    let line = "{\"response\":\"з \u{1f980}\",\"done\":false}";
    assert_eq!(decode_str(line), Some(("з \u{1f980}".to_string(), false)));
}

#[test]
fn agrees_with_a_reference_json_parser_on_clean_frames() {
    let cases = [
        r#"{"response":"Hi","done":false}"#,
        r#"{"done":true,"response":"x y z"}"#,
        r#"{"model":"m","response":"a\"b","done":true}"#,
        "{\"response\":\"\\u003chtml\\u003e \\u0026 more\",\"done\":false}",
        "{\"response\":\"pair \\ud83e\\udd80 end\",\"done\":true}",
    ];
    for line in cases {
        let v: serde_json::Value = serde_json::from_str(line).unwrap();
        let want = (
            v.get("response").unwrap().as_str().unwrap().to_string(),
            v.get("done").unwrap().as_bool().unwrap(),
        );
        assert_eq!(decode_str(line), Some(want), "line {}", line);
    }
}
