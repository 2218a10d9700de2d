use mrtracker::common::Diagnostic;
use mrtracker::mapweb::{
    ago, connect_extra, feed_color, json_island, palette_color, render_diagnostics, section_key,
    station_title, text,
};

#[test]
fn only_real_colors_reach_a_presentation_attribute() {
    assert_eq!(feed_color("D42E12").as_deref(), Some("#D42E12"));
    assert_eq!(feed_color("#d42e12").as_deref(), Some("#d42e12"));
    assert_eq!(feed_color("#abc").as_deref(), Some("#abc"));
    assert_eq!(feed_color("red"), None);
    assert_eq!(feed_color("#12345"), None);
    assert_eq!(feed_color("\" onload=\"alert(1)"), None);
    assert_eq!(feed_color("#fff;}body{display:none"), None);
}

#[test]
fn the_palette_answers_a_station_code() {
    assert_eq!(palette_color("NS1"), Some("#d42e12"));
    assert_eq!(palette_color("EW24"), Some("#009645"));
    assert_eq!(palette_color("PTC"), Some("#748477"));
    assert_eq!(palette_color("ZZ9"), None);
    assert_eq!(palette_color(""), None);
}

#[test]
fn lib_markup_characters_cannot_survive() {
    assert_eq!(
        text("<script>alert('x')&</script>"),
        "&lt;script&gt;alert(&#39;x&#39;)&amp;&lt;/script&gt;"
    );
    let escaped = json_island(r#"{"n":"</script>"}"#);
    assert!(!escaped.contains('<'));
    let parsed: serde_json::Value = serde_json::from_str(&escaped).unwrap();
    assert_eq!(parsed["n"], "</script>");
}

#[test]
fn only_a_clean_origin_widens_the_policy() {
    assert_eq!(connect_extra("/api/map-snapshot"), "");
    assert_eq!(connect_extra("data/map.json"), "");
    assert_eq!(
        connect_extra("https://raw.example.com/live/map.json"),
        " https://raw.example.com"
    );
    assert_eq!(
        connect_extra("http://127.0.0.1:8601/api/map-snapshot"),
        " http://127.0.0.1:8601"
    );
    assert_eq!(connect_extra("https://evil.example'; script-src *"), "");
    assert_eq!(connect_extra("https://a\"b/x"), "");
    assert_eq!(connect_extra("https:///x"), "");
}

#[test]
fn ages_read_as_words() {
    assert_eq!(ago(3), "just now");
    assert_eq!(ago(45), "45 s ago");
    assert_eq!(ago(600), "10 min ago");
    assert_eq!(ago(7200), "2 h ago");
}

#[test]
fn a_station_title_names_its_codes_and_interchange() {
    let codes = vec!["NS1".to_string(), "EW24".to_string()];
    assert_eq!(
        station_title("Jurong East", &codes, true),
        "Jurong East (NS1, EW24) \u{00B7} interchange"
    );
    assert_eq!(station_title("Somewhere", &Vec::new(), false), "Somewhere");
    assert_eq!(section_key(3, 10, 11), "3-10-11");
}

#[test]
fn hostile_diagnostic_text_renders_inert() {
    let list = vec![Diagnostic::warning(
        "<b>code</b>",
        "</li><script>alert(1)</script>".to_string(),
    )];
    let html = render_diagnostics(&list);
    assert!(!html.contains("<script"));
    assert!(!html.contains("<b>"));
    assert!(html.contains("&lt;script&gt;"));
}
