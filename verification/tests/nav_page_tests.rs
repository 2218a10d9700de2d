use mrtracker::config::ThemeConfig;
use mrtracker::nav::{render, NavGroup, NavLink, PageNav};
use mrtracker::page::{head, theme_block};

#[test]
fn an_empty_block_renders_nothing() {
    let mut out = String::new();
    render(&mut out, &PageNav::default());
    assert!(out.is_empty());

    let mut out = String::new();
    render(
        &mut out,
        &PageNav {
            groups: vec![NavGroup::new("Date", Vec::new())],
            ..Default::default()
        },
    );
    assert!(out.is_empty());
}

#[test]
fn the_current_page_is_announced_and_styled() {
    let mut out = String::new();
    render(
        &mut out,
        &PageNav {
            home: Some(NavLink::new("../index.html", "All stations")),
            site_name: Some("MRTracker".into()),
            groups: vec![NavGroup::new(
                "Service date",
                vec![
                    NavLink::new("a.html", "Mon").current(true),
                    NavLink::new("b.html", "Tue"),
                ],
            )],
        },
    );
    assert!(out.contains("aria-current=\"page\""));
    assert_eq!(out.matches("aria-current").count(), 1);
    assert!(out.contains("href=\"../index.html\""));
    assert!(out.contains("class=\"site-nav no-print\""));
}

#[test]
fn hostile_text_cannot_escape_a_link() {
    let mut out = String::new();
    render(
        &mut out,
        &PageNav {
            home: Some(NavLink::new(
                "\"><script>alert(1)</script>",
                "</a><img src=x onerror=alert(2)>",
            )),
            site_name: None,
            groups: vec![NavGroup::new(
                "<b>x</b>",
                vec![NavLink::new("y.html", "z").titled("\" onmouseover=\"alert(3)")],
            )],
        },
    );
    assert!(!out.contains("<script"));
    assert!(!out.contains("<img"));
    assert!(out.contains("&lt;img src=x onerror=alert(2)&gt;"));
    assert!(out.contains("&quot; onmouseover=&quot;alert(3)"));
    assert!(!out.contains("\" onmouseover=\""));
    assert!(out.contains("&lt;b&gt;x&lt;/b&gt;"));
    assert_eq!(out.matches("<nav").count(), 1);
}

#[test]
fn a_rendered_block_appends_to_what_is_there() {
    let mut out = String::from("<body>");
    render(
        &mut out,
        &PageNav {
            home: Some(NavLink::new("index.html", "Home")),
            site_name: None,
            groups: Vec::new(),
        },
    );
    assert!(out.starts_with("<body><nav"));
    assert!(out.ends_with("</nav>\n"));
}

#[test]
fn the_theme_block_only_holds_safe_values() {
    let theme = ThemeConfig {
        font_stack: vec!["Evil\";} html { display: none } .x {".into()],
        hour_cell: "red; background: url(https://evil.example)".into(),
        hour_cell_text: "#ffffff".into(),
        row_alternate: "#eef1f8".into(),
        background: "#ffffff".into(),
        text: "#14171f".into(),
        accent: "javascript:alert(1)".into(),
    };
    let block = theme_block(&theme, None, None);
    assert!(!block.contains("url("));
    assert!(!block.contains("javascript"));
    assert!(!block.contains("display: none"));
    assert!(block.contains("--hour-bg: #1b2a5e"));
    assert!(block.contains("--accent: #1b2a5e"));
}

#[test]
fn a_line_colour_becomes_the_accent() {
    let block = theme_block(&ThemeConfig::default(), Some("#D42E12"), Some("#FFFFFF"));
    assert!(block.contains("--accent: #D42E12"));
}

#[test]
fn the_head_declares_a_policy_that_blocks_the_network() {
    let mut out = String::new();
    head(&mut out, "Title", "en", &[], ":root{}");
    assert!(out.contains("default-src &#39;none&#39;"));
    assert!(!out.contains("connect-src http"));
    assert!(out.contains("<html lang=\"en\">"));
}

#[test]
fn a_hostile_title_cannot_escape_the_title_element() {
    let mut out = String::new();
    head(&mut out, "</title><script>x()</script>", "en", &[], "");
    assert!(!out.contains("<script>"));
    assert!(out.contains("&lt;/title&gt;"));
}
