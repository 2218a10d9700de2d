use mrtracker::escape::{attr, css_color, css_font_family, css_ident, json, text};

#[test]
fn escape_markup_characters_cannot_survive() {
    assert_eq!(
        text("<script>alert('x')&</script>"),
        "&lt;script&gt;alert(&#39;x&#39;)&amp;&lt;/script&gt;"
    );
    assert_eq!(attr("a\"b"), "a&quot;b");
}

#[test]
fn ordinary_text_passes_through() {
    assert_eq!(text("Jurong East"), "Jurong East");
    assert_eq!(text("発車時刻表"), "発車時刻表");
    assert_eq!(text("06:30\u{2013}09:00"), "06:30\u{2013}09:00");
}

#[test]
fn a_json_island_cannot_close_its_script_element() {
    let payload = r#"{"name":"</script><img src=x onerror=alert(1)>"}"#;
    let escaped = json(payload);
    assert!(!escaped.contains("</script"));
    assert!(!escaped.contains('<'));
    let parsed: serde_json::Value = serde_json::from_str(&escaped).unwrap();
    assert_eq!(parsed["name"], "</script><img src=x onerror=alert(1)>");
}

#[test]
fn line_separators_are_escaped_for_javascript() {
    let escaped = json("\"a\u{2028}b\"");
    assert!(escaped.contains("\\u2028"));
    let parsed: serde_json::Value = serde_json::from_str(&escaped).unwrap();
    assert_eq!(parsed, "a\u{2028}b");
}

#[test]
fn only_real_colors_reach_the_stylesheet() {
    assert_eq!(css_color("#D42E12").as_deref(), Some("#D42E12"));
    assert_eq!(css_color("#abc").as_deref(), Some("#abc"));
    assert_eq!(css_color("red").as_deref(), None);
    assert_eq!(css_color("#12345").as_deref(), None);
    assert_eq!(css_color("#fff;}body{display:none").as_deref(), None);
}

#[test]
fn font_names_are_quoted_and_stripped() {
    assert_eq!(
        css_font_family("Noto Sans").as_deref(),
        Some("\"Noto Sans\"")
    );
    assert_eq!(css_font_family("sans-serif").as_deref(), Some("sans-serif"));
    assert_eq!(
        css_font_family("Evil\";} body { display: none } .x {").as_deref(),
        Some("\"Evil body  display none  x\"")
    );
    assert_eq!(css_font_family("  ").as_deref(), None);
}

#[test]
fn css_identifiers_hold_no_punctuation() {
    assert_eq!(css_ident("NS_1"), "ns-1");
    assert_eq!(css_ident("a{}b"), "a-b");
}

#[test]
fn escaping_leaves_no_markup_character_in_any_text() {
    let hostile = "<>&\"'</script>\u{2028}";
    let escaped = text(hostile);
    assert!(!escaped.contains('<'));
    assert!(!escaped.contains('>'));
    assert!(!escaped.contains('"'));
    assert!(!escaped.contains('\''));
    let island = json("\"<&>\u{2029}\"");
    assert!(!island.contains('<'));
    assert!(!island.contains('>'));
    assert!(!island.contains('&'));
    assert!(!island.contains('\u{2029}'));
}

fn read_entities_back(s: &str) -> String {
    let mut out = String::new();
    let mut rest = s;
    while !rest.is_empty() {
        let mut matched = false;
        for (entity, c) in [("&amp;", '&'), ("&lt;", '<'), ("&gt;", '>'), ("&quot;", '"'), ("&#39;", '\'')] {
            if rest.starts_with(entity) {
                out.push(c);
                rest = &rest[entity.len()..];
                matched = true;
                break;
            }
        }
        if !matched {
            let c = rest.chars().next().unwrap();
            out.push(c);
            rest = &rest[c.len_utf8()..];
        }
    }
    out
}

#[test]
fn escaped_text_reads_back_to_the_input() {
    for input in ["<script>alert('x')&</script>", "発車時刻表", "&amp; already", "a\"b'c", ""] {
        let escaped = text(input);
        assert_eq!(read_entities_back(&escaped), input);
        for (i, _) in escaped.match_indices('&') {
            let tail = &escaped[i..];
            assert!(
                ["&amp;", "&lt;", "&gt;", "&quot;", "&#39;"].iter().any(|e| tail.starts_with(e)),
                "{tail}"
            );
        }
    }
    assert_eq!(text("発車時刻表"), "発車時刻表");
}

#[test]
fn json_islands_carry_no_line_separators() {
    assert_eq!(json("\u{2028}\u{2029}"), "\\u2028\\u2029");
    assert_eq!(json("{\"a\":\"<b>\"}"), "{\"a\":\"\\u003cb\\u003e\"}");
}

#[test]
fn white_space_is_what_the_standard_library_calls_white_space() {
    for c in ['\t', '\n', '\u{b}', '\u{c}', '\r', ' ', '\u{85}', '\u{a0}', '\u{1680}', '\u{2000}', '\u{200a}', '\u{2028}', '\u{2029}', '\u{202f}', '\u{205f}', '\u{3000}', 'a', '\u{200b}', '\u{180e}', '\u{feff}', '\u{0}', '発'] {
        assert_eq!(mrtracker::textbuf::is_whitespace(c), c.is_whitespace(), "{:?}", c);
    }
    let padded: Vec<char> = "\u{3000}\u{a0} Jurong East\u{2009}\n".chars().collect();
    assert_eq!(mrtracker::textbuf::trim(&padded), "Jurong East");
}
