use dbx_docs::export::{check_language, html_escape, to_standalone_html};

const CSS: &str = "body{background:url(data:image/png;base64,AAAA)}";
const JS: &str = "console.log(1)";

fn payload(note: Option<&str>) -> Vec<u8> {
    let snapshot: serde_json::Value = serde_json::from_str(
        r#"{"formatVersion":1,"project":{"name":"shop","databaseType":"postgres","database":"shop","schemas":["public"],"generatedAt":"2026-08-06T00:00:00Z","note":null},"tables":[],"enums":[],"relationships":[],"groups":[],"warnings":[]}"#,
    )
    .expect("fixture snapshot");
    let mut annotations = serde_json::Map::new();
    annotations.insert("formatVersion".to_string(), serde_json::Value::from(1));
    if let Some(note) = note {
        let mut project = serde_json::Map::new();
        project.insert("note".to_string(), serde_json::Value::from(note));
        annotations.insert("project".to_string(), serde_json::Value::Object(project));
    }
    let mut root = serde_json::Map::new();
    root.insert("snapshot".to_string(), snapshot);
    root.insert("annotations".to_string(), serde_json::Value::Object(annotations));
    root.insert("lang".to_string(), serde_json::Value::from("en"));
    serde_json::to_vec(&serde_json::Value::Object(root)).expect("payload")
}

#[test]
fn a_note_containing_a_closing_script_tag_survives() {
    let bytes = payload(Some("</script><img src=x onerror=alert(1)>"));
    let html = to_standalone_html("shop", &bytes, "en", CSS, JS).expect("export");

    assert!(!html.contains("<img src=x"), "the payload leaked into markup");
    assert_eq!(html.matches("</script>").count(), 2, "exactly the two real script elements");
}

#[test]
fn the_payload_round_trips() {
    let bytes = payload(None);
    let html = to_standalone_html("shop", &bytes, "en", CSS, JS).expect("export");
    let start = html.find("application/dbx-snapshot").expect("payload element");
    let body = &html[start..];
    let encoded = body[body.find('>').unwrap() + 1..body.find("</script>").unwrap()].trim();
    let decoded =
        base64::Engine::decode(&base64::engine::general_purpose::STANDARD, encoded).expect("valid base64");
    let value: serde_json::Value = serde_json::from_slice(&decoded).expect("valid json");
    assert_eq!(value["snapshot"]["project"]["name"], "shop");
    assert_eq!(value["lang"], "en");
}

#[test]
fn an_unknown_language_is_rejected() {
    let bytes = payload(None);
    let error = to_standalone_html("shop", &bytes, "kl", CSS, JS).expect_err("should reject");
    assert!(error.contains("kl"), "got: {error}");
    assert!(error.contains("en"), "the error must list the valid locales, got: {error}");
}

#[test]
fn the_language_error_lists_every_locale() {
    assert_eq!(
        check_language("xx").unwrap_err(),
        "Unknown language \"xx\". Valid values: en, es, it, ja, ko, pt-BR, zh-CN, zh-TW."
    );
    for lang in ["en", "es", "it", "ja", "ko", "pt-BR", "zh-CN", "zh-TW"] {
        assert!(check_language(lang).is_ok());
    }
    assert!(check_language("EN").is_err());
}

#[test]
fn the_page_is_the_shell_around_title_stylesheet_payload_and_script() {
    let html = to_standalone_html("A <b> & \"c\"", b"hello", "ja", "s", "j").expect("export");
    assert_eq!(
        html,
        "<!doctype html>\n<html lang=\"ja\">\n<head>\n<meta charset=\"utf-8\">\n<meta name=\"viewport\" content=\"width=device-width, initial-scale=1\">\n<title>A &lt;b&gt; &amp; &quot;c&quot;</title>\n<style>s</style>\n</head>\n<body>\n<div id=\"app\"></div>\n<script type=\"application/dbx-snapshot\">aGVsbG8=</script>\n<script>j</script>\n</body>\n</html>\n"
    );
}

#[test]
fn base64_pads_short_final_groups() {
    let one = to_standalone_html("", b"h", "en", "", "").unwrap();
    assert!(one.contains(">aA==</script>"));
    let two = to_standalone_html("", b"he", "en", "", "").unwrap();
    assert!(two.contains(">aGU=</script>"));
    let empty = to_standalone_html("", b"", "en", "", "").unwrap();
    assert!(empty.contains("dbx-snapshot\"></script>"));
}

#[test]
fn html_escape_replaces_markup_characters() {
    assert_eq!(html_escape("a&b<c>d\"e'f"), "a&amp;b&lt;c&gt;d&quot;e'f");
    assert_eq!(html_escape("&amp;"), "&amp;amp;");
}

#[test]
fn the_shell_and_stylesheet_reference_no_external_resources() {
    let bytes = payload(None);
    let html = to_standalone_html("shop", &bytes, "en", CSS, JS).expect("export");

    let style_start = html.find("<style>").expect("style element") + "<style>".len();
    let style_end = html.find("</style>").expect("style element closes");
    let mut rest = &html[style_start..style_end];
    while let Some(pos) = rest.find("url(") {
        rest = &rest[pos + "url(".len()..];
        let end = rest.find(')').expect("unterminated url(");
        let value = rest[..end].trim().trim_matches('\'').trim_matches('"');
        assert!(value.starts_with("data:"), "stylesheet references a non-data url(): {value}");
        rest = &rest[end + 1..];
    }

    let payload_start = html.find("application/dbx-snapshot").expect("payload element");
    let payload_body = &html[payload_start..];
    let encoded = payload_body[payload_body.find('>').unwrap() + 1..payload_body.find("</script>").unwrap()].trim();
    let shell = html.replace(CSS, "").replace(JS, "").replace(encoded, "");
    assert!(!shell.contains("src="), "the shell references an external src");
    assert!(!shell.contains("href="), "the shell references an external href");
}
