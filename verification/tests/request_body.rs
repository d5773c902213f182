use semsearch::client::embed_request_bytes;

#[test]
fn request_body_matches_expected_json() {
    let body = embed_request_bytes("all-minilm", "databases");
    assert_eq!(
        String::from_utf8(body).unwrap(),
        "{\"model\":\"all-minilm\",\"prompt\":\"databases\"}"
    );
}

#[test]
fn request_body_escapes_quotes_and_backslashes() {
    let body = embed_request_bytes("m", "say \"hi\" \\ bye");
    assert_eq!(
        String::from_utf8(body).unwrap(),
        "{\"model\":\"m\",\"prompt\":\"say \\\"hi\\\" \\\\ bye\"}"
    );
}

#[test]
fn request_body_escapes_control_characters() {
    let body = embed_request_bytes("m", "a\nb\tc\u{1f}");
    assert_eq!(
        String::from_utf8(body).unwrap(),
        "{\"model\":\"m\",\"prompt\":\"a\\u000ab\\u0009c\\u001f\"}"
    );
}

#[test]
fn request_body_permits_empty_prompt() {
    let body = embed_request_bytes("all-minilm", "");
    assert_eq!(
        String::from_utf8(body).unwrap(),
        "{\"model\":\"all-minilm\",\"prompt\":\"\"}"
    );
}

#[test]
fn request_body_encodes_non_ascii_text_as_utf8() {
    let body = embed_request_bytes("m", "caf\u{e9} \u{65e5}\u{672c} \u{1f680}");
    assert_eq!(
        String::from_utf8(body).unwrap(),
        "{\"model\":\"m\",\"prompt\":\"caf\u{e9} \u{65e5}\u{672c} \u{1f680}\"}"
    );
}

#[test]
fn request_body_parses_back_as_json() {
    let body = embed_request_bytes("all-minilm", "tricky \"prompt\"\n\\end");
    let v: serde_json::Value = serde_json::from_slice(&body).unwrap();
    assert_eq!(v["model"], "all-minilm");
    assert_eq!(v["prompt"], "tricky \"prompt\"\n\\end");
}

#[test]
fn request_body_round_trips_non_ascii_prompt() {
    let prompt = "sch\u{f6}ne Gr\u{fc}\u{df}e \u{2014} \u{b5}benchmarks \u{1f9ea}";
    let body = embed_request_bytes("all-minilm", prompt);
    let v: serde_json::Value = serde_json::from_slice(&body).unwrap();
    assert_eq!(v["prompt"], prompt);
}
