//! Escaping of untrusted text for pages.
//!
//! Every string that reaches a generated page may come from a GTFS
//! feed, and a feed is untrusted input. These functions are the only
//! way such a string enters markup.
//!
//! | Function | Context |
//! |----------|---------|
//! | [`text`] | element content in HTML and SVG |
//! | [`attr`] | an attribute value in double quotes |
//! | [`json`] | a JSON island inside `<script type="application/json">` |
//! | [`css_ident`] | a value that becomes part of a CSS selector |

use vstd::prelude::*;

use crate::common::{css_key, css_key_spec};
use crate::textbuf::{
    ascii_hex, chars_of, is_alphanumeric, is_ascii_hex, push_char, push_range, push_str, str_eq,
    trim, trim_white, unicode_alphanumeric,
};

verus! {

/// The escaped form of one character in element content.
pub open spec fn html_char(c: char) -> Seq<char> {
    if c == '&' {
        "&amp;"@
    } else if c == '<' {
        "&lt;"@
    } else if c == '>' {
        "&gt;"@
    } else if c == '"' {
        "&quot;"@
    } else if c == '\'' {
        "&#39;"@
    } else {
        seq![c]
    }
}

/// The escaped form of a string in element content.
pub open spec fn html_escape(s: Seq<char>) -> Seq<char>
    decreases s.len(),
{
    if s.len() == 0 {
        Seq::empty()
    } else {
        html_escape(s.drop_last()) + html_char(s.last())
    }
}

/// Escape a string for element content in HTML and SVG.
///
/// The function escapes `&`, `<`, and `>`. It also escapes `"` and
/// `'`, which costs nothing and makes the result safe to paste into an
/// attribute by mistake.
pub fn text(value: &str) -> (res: String)
    ensures
        res@ == html_escape(value@),
{
    let mut out = String::new();
    for c in it: value.chars()
        invariant
            it.seq() == value@,
            out@ == html_escape(value@.take(it.index() as int)),
    {
        proof {
            assert(value@.take(it.index() + 1).drop_last() =~= value@.take(it.index() as int));
        }
        if c == '&' {
            push_str(&mut out, "&amp;");
        } else if c == '<' {
            push_str(&mut out, "&lt;");
        } else if c == '>' {
            push_str(&mut out, "&gt;");
        } else if c == '"' {
            push_str(&mut out, "&quot;");
        } else if c == '\'' {
            push_str(&mut out, "&#39;");
        } else {
            push_char(&mut out, c);
            proof {
                assert(seq![c] =~= Seq::<char>::empty().push(c));
            }
        }
    }
    proof {
        assert(value@.take(value@.len() as int) =~= value@);
    }
    out
}

/// Escape a string for an attribute value in double quotes.
///
/// The rules are the same as for [`text`]; the separate name keeps the
/// call sites self-documenting.
pub fn attr(value: &str) -> (res: String)
    ensures
        res@ == html_escape(value@),
{
    text(value)
}

/// The escaped form of one character in a JSON island.
pub open spec fn json_char(c: char) -> Seq<char> {
    if c == '<' {
        "\\u003c"@
    } else if c == '>' {
        "\\u003e"@
    } else if c == '&' {
        "\\u0026"@
    } else if c == '\u{2028}' {
        "\\u2028"@
    } else if c == '\u{2029}' {
        "\\u2029"@
    } else {
        seq![c]
    }
}

/// The escaped form of a JSON document in a script element.
pub open spec fn json_escape(s: Seq<char>) -> Seq<char>
    decreases s.len(),
{
    if s.len() == 0 {
        Seq::empty()
    } else {
        json_escape(s.drop_last()) + json_char(s.last())
    }
}

/// Escape a JSON document so that it is safe inside a `<script>`
/// element.
///
/// A JSON string may contain `</script`, which would end the element
/// early. Escaping `<`, `>`, and `&` as `\uXXXX` keeps the document
/// valid JSON and inert as markup.
pub fn json(value: &str) -> (res: String)
    ensures
        res@ == json_escape(value@),
{
    let mut out = String::new();
    for c in it: value.chars()
        invariant
            it.seq() == value@,
            out@ == json_escape(value@.take(it.index() as int)),
    {
        proof {
            assert(value@.take(it.index() + 1).drop_last() =~= value@.take(it.index() as int));
        }
        if c == '<' {
            push_str(&mut out, "\\u003c");
        } else if c == '>' {
            push_str(&mut out, "\\u003e");
        } else if c == '&' {
            push_str(&mut out, "\\u0026");
        } else if c == '\u{2028}' {
            push_str(&mut out, "\\u2028");
        } else if c == '\u{2029}' {
            push_str(&mut out, "\\u2029");
        } else {
            push_char(&mut out, c);
            proof {
                assert(seq![c] =~= Seq::<char>::empty().push(c));
            }
        }
    }
    proof {
        assert(value@.take(value@.len() as int) =~= value@);
    }
    out
}

/// A character that opens or closes markup, or ends an attribute value.
pub open spec fn markup_char(c: char) -> bool {
    c == '<' || c == '>' || c == '"' || c == '\''
}

/// Escaped text holds no character that opens or closes markup or
/// ends an attribute value, whatever the input.
pub proof fn lemma_escaped_text_is_inert(s: Seq<char>)
    ensures
        forall|i: int| 0 <= i < html_escape(s).len() ==> !markup_char(#[trigger] html_escape(s)[i]),
    decreases s.len(),
{
    if s.len() > 0 {
        lemma_escaped_text_is_inert(s.drop_last());
        reveal_strlit("&amp;");
        reveal_strlit("&lt;");
        reveal_strlit("&gt;");
        reveal_strlit("&quot;");
        reveal_strlit("&#39;");
        let p = html_escape(s.drop_last());
        let q = html_char(s.last());
        assert forall|i: int| 0 <= i < q.len() implies !markup_char(#[trigger] q[i]) by {}
        assert forall|i: int| 0 <= i < html_escape(s).len() implies !markup_char(
            #[trigger] html_escape(s)[i],
        ) by {
            if i < p.len() {
                assert(html_escape(s)[i] == p[i]);
            } else {
                assert(html_escape(s)[i] == q[i - p.len()]);
            }
        }
    }
}

/// The text that escaped element content stands for: the five entities
/// that [`text`] writes are read back, from left to right, and every
/// other character stands for itself.
pub open spec fn html_unescape(s: Seq<char>) -> Seq<char>
    decreases s.len(),
{
    if s.len() == 0 {
        Seq::empty()
    } else if s.len() >= 5 && s.take(5) == "&amp;"@ {
        seq!['&'] + html_unescape(s.skip(5))
    } else if s.len() >= 4 && s.take(4) == "&lt;"@ {
        seq!['<'] + html_unescape(s.skip(4))
    } else if s.len() >= 4 && s.take(4) == "&gt;"@ {
        seq!['>'] + html_unescape(s.skip(4))
    } else if s.len() >= 6 && s.take(6) == "&quot;"@ {
        seq!['"'] + html_unescape(s.skip(6))
    } else if s.len() >= 5 && s.take(5) == "&#39;"@ {
        seq!['\''] + html_unescape(s.skip(5))
    } else {
        seq![s[0]] + html_unescape(s.skip(1))
    }
}

/// One of the five entities that [`text`] writes starts at index `i`.
pub open spec fn entity_at(s: Seq<char>, i: int) -> bool {
    ||| i + 5 <= s.len() && s.subrange(i, i + 5) == "&amp;"@
    ||| i + 4 <= s.len() && s.subrange(i, i + 4) == "&lt;"@
    ||| i + 4 <= s.len() && s.subrange(i, i + 4) == "&gt;"@
    ||| i + 6 <= s.len() && s.subrange(i, i + 6) == "&quot;"@
    ||| i + 5 <= s.len() && s.subrange(i, i + 5) == "&#39;"@
}

proof fn lemma_html_escape_append(a: Seq<char>, b: Seq<char>)
    ensures
        html_escape(a + b) == html_escape(a) + html_escape(b),
    decreases b.len(),
{
    if b.len() == 0 {
        assert(a + b =~= a);
        assert(html_escape(a) + html_escape(b) =~= html_escape(a));
    } else {
        lemma_html_escape_append(a, b.drop_last());
        assert((a + b).drop_last() =~= a + b.drop_last());
        assert((a + b).last() == b.last());
        assert(html_escape(a) + html_escape(b.drop_last()) + html_char(b.last()) =~= html_escape(a)
            + (html_escape(b.drop_last()) + html_char(b.last())));
    }
}

proof fn lemma_unescape_char(c: char, x: Seq<char>)
    ensures
        html_unescape(html_char(c) + x) == seq![c] + html_unescape(x),
{
    reveal_strlit("&amp;");
    reveal_strlit("&lt;");
    reveal_strlit("&gt;");
    reveal_strlit("&quot;");
    reveal_strlit("&#39;");
    let t = html_char(c) + x;
    let q = html_char(c);
    assert(t.take(q.len() as int) =~= q);
    assert(t.skip(q.len() as int) =~= x);
    assert(t[0] == q[0]);
    if q.len() >= 2 {
        assert(t[1] == q[1]);
    }
    if t.len() >= 4 {
        assert(t.take(4)[0] == t[0] && t.take(4)[1] == t[1]);
    }
    if t.len() >= 5 {
        assert(t.take(5)[0] == t[0] && t.take(5)[1] == t[1]);
    }
    if t.len() >= 6 {
        assert(t.take(6)[0] == t[0] && t.take(6)[1] == t[1]);
    }
}

/// Reading the entities of escaped text back gives the text: escaping
/// loses nothing, whatever the input.
pub proof fn lemma_unescape_escaped_text(s: Seq<char>)
    ensures
        html_unescape(html_escape(s)) == s,
    decreases s.len(),
{
    if s.len() > 0 {
        let rest = s.skip(1);
        lemma_unescape_escaped_text(rest);
        assert(s =~= seq![s[0]] + rest);
        lemma_html_escape_append(seq![s[0]], rest);
        let one = seq![s[0]];
        assert(one.drop_last() =~= Seq::<char>::empty());
        assert(one.last() == s[0]);
        assert(html_escape(one) == html_escape(one.drop_last()) + html_char(s[0]));
        assert(html_escape(Seq::<char>::empty()) == Seq::<char>::empty());
        assert(Seq::<char>::empty() + html_char(s[0]) =~= html_char(s[0]));
        lemma_unescape_char(s[0], html_escape(rest));
    }
}

/// Every `&` in escaped text starts one of the five entities that
/// [`text`] writes, whatever the input.
pub proof fn lemma_escaped_ampersands_open_entities(s: Seq<char>)
    ensures
        forall|i: int|
            0 <= i < html_escape(s).len() && #[trigger] html_escape(s)[i] == '&' ==> entity_at(
                html_escape(s),
                i,
            ),
    decreases s.len(),
{
    if s.len() > 0 {
        lemma_escaped_ampersands_open_entities(s.drop_last());
        reveal_strlit("&amp;");
        reveal_strlit("&lt;");
        reveal_strlit("&gt;");
        reveal_strlit("&quot;");
        reveal_strlit("&#39;");
        let p = html_escape(s.drop_last());
        let q = html_char(s.last());
        let t = html_escape(s);
        assert(t == p + q);
        assert forall|i: int| 0 <= i < t.len() && #[trigger] t[i] == '&' implies entity_at(t, i) by {
            if i < p.len() {
                assert(t[i] == p[i]);
                assert(entity_at(p, i));
                if i + 5 <= p.len() {
                    assert(t.subrange(i, i + 5) =~= p.subrange(i, i + 5));
                }
                if i + 4 <= p.len() {
                    assert(t.subrange(i, i + 4) =~= p.subrange(i, i + 4));
                }
                if i + 6 <= p.len() {
                    assert(t.subrange(i, i + 6) =~= p.subrange(i, i + 6));
                }
            } else {
                assert(t[i] == q[i - p.len()]);
                assert(i == p.len());
                assert(t.subrange(i, i + q.len()) =~= q);
            }
        }
    }
}

/// A character that could end a script element or open markup in it,
/// or a line or paragraph separator, which older JavaScript parsers do
/// not accept inside a string.
pub open spec fn script_breaking_char(c: char) -> bool {
    c == '<' || c == '>' || c == '&' || c == '\u{2028}' || c == '\u{2029}'
}

/// An escaped JSON island holds no `<`, `>`, `&`, U+2028, or U+2029,
/// whatever the input.
pub proof fn lemma_json_island_is_inert(s: Seq<char>)
    ensures
        forall|i: int|
            0 <= i < json_escape(s).len() ==> !script_breaking_char(#[trigger] json_escape(s)[i]),
    decreases s.len(),
{
    if s.len() > 0 {
        lemma_json_island_is_inert(s.drop_last());
        reveal_strlit("\\u003c");
        reveal_strlit("\\u003e");
        reveal_strlit("\\u0026");
        reveal_strlit("\\u2028");
        reveal_strlit("\\u2029");
        let p = json_escape(s.drop_last());
        let q = json_char(s.last());
        assert forall|i: int| 0 <= i < q.len() implies !script_breaking_char(#[trigger] q[i]) by {}
        assert forall|i: int| 0 <= i < json_escape(s).len() implies !script_breaking_char(
            #[trigger] json_escape(s)[i],
        ) by {
            if i < p.len() {
                assert(json_escape(s)[i] == p[i]);
            } else {
                assert(json_escape(s)[i] == q[i - p.len()]);
            }
        }
    }
}

/// Reduce a string to characters that are safe inside a CSS selector,
/// an HTML `id`, and a `class` name.
///
/// The output holds ASCII letters, digits, and hyphens only, so no
/// feed value can close a rule or start a new one.
pub fn css_ident(value: &str) -> (res: String)
    ensures
        res@ == css_key_spec(value@),
{
    css_key(value)
}

/// Report whether every character of a sequence is a hexadecimal digit.
pub open spec fn all_hex(s: Seq<char>) -> bool {
    forall|i: int| 0 <= i < s.len() ==> ascii_hex(#[trigger] s[i])
}

/// The color that survives the filter for a CSS declaration: a `#`
/// followed by three, four, six, or eight hexadecimal digits.
pub open spec fn css_color_filter(s: Seq<char>) -> Option<Seq<char>> {
    if s.len() > 0 && s[0] == '#' && all_hex(s.skip(1)) && (s.len() - 1 == 3 || s.len() - 1 == 4
        || s.len() - 1 == 6 || s.len() - 1 == 8) {
        Some(s)
    } else {
        None
    }
}

/// Report whether `v[from..]` holds hexadecimal digits only.
pub fn all_hex_from(v: &Vec<char>, from: usize) -> (r: bool)
    requires
        from <= v@.len(),
    ensures
        r == all_hex(v@.skip(from as int)),
{
    let mut i = from;
    while i < v.len()
        invariant
            from <= i <= v@.len(),
            forall|k: int| from <= k < i ==> ascii_hex(v@[k]),
        decreases v@.len() - i,
    {
        if !is_ascii_hex(v[i]) {
            proof {
                assert(v@.skip(from as int)[i - from] == v@[i as int]);
            }
            return false;
        }
        i = i + 1;
    }
    proof {
        assert forall|k: int| 0 <= k < v@.skip(from as int).len() implies ascii_hex(
            #[trigger] v@.skip(from as int)[k],
        ) by {
            assert(v@.skip(from as int)[k] == v@[from + k]);
        }
    }
    true
}

/// Escape a color for a CSS declaration.
///
/// Only a `#` followed by three, four, six, or eight hexadecimal
/// digits survives. Anything else yields `None`, and the caller falls
/// back to a theme value.
pub fn css_color(value: &str) -> (res: Option<String>)
    ensures
        res matches Some(s) ==> css_color_filter(value@) == Some(s@),
        res is None ==> css_color_filter(value@) is None,
{
    let v = chars_of(value);
    if v.len() == 0 || v[0] != '#' {
        return None;
    }
    let n = v.len() - 1;
    if (n == 3 || n == 4 || n == 6 || n == 8) && all_hex_from(&v, 1) {
        let mut out = String::new();
        push_range(&mut out, &v, 0, v.len());
        proof {
            assert(v@.subrange(0, v@.len() as int) =~= v@);
        }
        Some(out)
    } else {
        None
    }
}

/// The generic font families, which a font list names without quotes.
pub open spec fn is_generic_family(s: Seq<char>) -> bool {
    s == "serif"@ || s == "sans-serif"@ || s == "monospace"@ || s == "cursive"@ || s
        == "fantasy"@ || s == "system-ui"@
}

/// A character that a font family name may keep.
pub open spec fn font_char(c: char) -> bool {
    unicode_alphanumeric(c) || c == ' ' || c == '-' || c == '_'
}

/// The characters of a font family name that survive the filter.
pub open spec fn font_chars(s: Seq<char>) -> Seq<char> {
    s.filter(|c: char| font_char(c))
}

/// The font family entry for a name.
pub open spec fn font_family(s: Seq<char>) -> Option<Seq<char>> {
    let clean = trim_white(font_chars(s));
    if clean.len() == 0 {
        None
    } else if is_generic_family(clean) {
        Some(clean)
    } else {
        Some(seq!['"'] + clean + seq!['"'])
    }
}

/// Escape a font family name for a CSS `font-family` list.
///
/// A name that is a plain identifier or a generic family passes
/// through. Anything else is quoted, with quotes and backslashes
/// removed, so a hostile configuration cannot end the declaration.
pub fn css_font_family(value: &str) -> (res: Option<String>)
    ensures
        res matches Some(s) ==> font_family(value@) == Some(s@),
        res is None ==> font_family(value@) is None,
{
    let mut kept: Vec<char> = Vec::new();
    for c in it: value.chars()
        invariant
            it.seq() == value@,
            kept@ == font_chars(value@.take(it.index() as int)),
    {
        proof {
            let t = value@.take(it.index() + 1);
            assert(t.drop_last() =~= value@.take(it.index() as int));
            reveal_with_fuel(Seq::<_>::filter, 1);
        }
        if is_alphanumeric(c) || c == ' ' || c == '-' || c == '_' {
            kept.push(c);
        }
    }
    proof {
        assert(value@.take(value@.len() as int) =~= value@);
    }
    let clean = trim(&kept);
    if clean.as_str().is_empty() {
        return None;
    }
    proof {
        reveal_strlit("serif");
    }
    let generic = str_eq(clean.as_str(), "serif") || str_eq(clean.as_str(), "sans-serif")
        || str_eq(clean.as_str(), "monospace") || str_eq(clean.as_str(), "cursive") || str_eq(
        clean.as_str(),
        "fantasy",
    ) || str_eq(clean.as_str(), "system-ui");
    if generic {
        Some(clean)
    } else {
        let mut out = String::new();
        push_char(&mut out, '"');
        push_str(&mut out, clean.as_str());
        push_char(&mut out, '"');
        proof {
            assert(out@ =~= seq!['"'] + clean@ + seq!['"']);
        }
        Some(out)
    }
}

} // verus!
