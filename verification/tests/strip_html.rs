use backend::facility::embedding_text;
use backend::html::strip_html;
use regex::Regex;

// --- strip_html ---

#[test]
fn test_strip_html_removes_block_tags() {
    assert_eq!(strip_html("<h2>Hello</h2>"), "Hello");
}

#[test]
fn test_strip_html_removes_self_closing_tags() {
    // <br /> becomes a space, then collapsed
    assert_eq!(strip_html("Line1<br />Line2"), "Line1 Line2");
}

#[test]
fn test_strip_html_removes_nested_tags() {
    assert_eq!(strip_html("<p><strong>Bold</strong> text</p>"), "Bold text");
}

#[test]
fn test_strip_html_replaces_entities_with_space() {
    // Entities are replaced with a space and then collapsed — they are NOT decoded.
    assert_eq!(strip_html("Hello &amp; World"), "Hello World");
    assert_eq!(strip_html("a &lt; b"), "a b");
}

#[test]
fn test_strip_html_collapses_whitespace() {
    assert_eq!(strip_html("<p>Hello</p><p>World</p>"), "Hello World");
}

#[test]
fn test_strip_html_trims_leading_trailing_whitespace() {
    assert_eq!(strip_html("  <p>text</p>  "), "text");
}

#[test]
fn test_strip_html_empty_input() {
    assert_eq!(strip_html(""), "");
}

#[test]
fn test_strip_html_plain_text_passthrough() {
    assert_eq!(strip_html("just plain text"), "just plain text");
}

// --- embedding_text construction ---

/// Verifies that name, stripped description, and keywords are joined with
/// single spaces in the order the main loop uses them.
#[test]
fn test_embedding_text_format() {
    let name = "Test Camp";
    let clean_desc = strip_html("<p>A nice campground</p>");
    let keywords = "camping hiking";
    let text = embedding_text(name, &clean_desc, keywords);
    assert_eq!(text, "Test Camp A nice campground camping hiking");
}

// --- further cases ---

#[test]
fn empty_angle_pair_is_not_a_tag() {
    assert_eq!(strip_html("a<>b"), "a<>b");
    assert_eq!(strip_html("a <> b"), "a <> b");
}

#[test]
fn unclosed_tag_is_kept() {
    assert_eq!(strip_html("x < y and z"), "x < y and z");
    assert_eq!(strip_html("<p unclosed"), "<p unclosed");
}

#[test]
fn tag_ends_at_first_closing_bracket() {
    assert_eq!(strip_html("<a <b> c>"), "c>");
    assert_eq!(strip_html("<<x>>"), ">");
}

#[test]
fn tags_spanning_lines_are_removed() {
    assert_eq!(strip_html("<a\nhref='x'>link</a>"), "link");
}

#[test]
fn numeric_entities_are_replaced() {
    assert_eq!(strip_html("1&#160;2"), "1 2");
    assert_eq!(strip_html("&#;x"), "&#;x");
    assert_eq!(strip_html("&;x"), "&;x");
    assert_eq!(strip_html("&a1;"), "&a1;");
}

#[test]
fn non_ascii_digits_count_as_digits() {
    // U+0663 ARABIC-INDIC DIGIT THREE is in \d; U+00B2 SUPERSCRIPT TWO is not.
    assert_eq!(strip_html("a&#\u{663}\u{664};b"), "a b");
    assert_eq!(strip_html("a&#\u{b2};b"), "a&#\u{b2};b");
}

#[test]
fn entity_letters_are_ascii_only() {
    assert_eq!(strip_html("&\u{e9}t\u{e9};"), "&\u{e9}t\u{e9};");
}

#[test]
fn unicode_whitespace_is_collapsed_and_trimmed() {
    assert_eq!(strip_html("\u{3000}a\u{a0}\u{2003}b\n\t"), "a b");
    assert_eq!(strip_html(" \n\t "), "");
}

#[test]
fn output_is_a_fixed_point() {
    let samples = [
        "<p>Great&nbsp;views</p>  &amp;<br/>more",
        "a<<b>>c &&amp;; d",
        "  &#12;<x>&lt;y&gt;  ",
    ];
    for s in samples {
        let once = strip_html(s);
        assert_eq!(strip_html(&once), once);
    }
}

/// The cleaning that the `regex` crate performs with the three patterns.
fn regex_strip(raw: &str) -> String {
    let tag = Regex::new(r"<[^>]+>").unwrap();
    let entity = Regex::new(r"&(?:[a-zA-Z]+|#\d+);").unwrap();
    let ws = Regex::new(r"\s+").unwrap();
    let no_tags = tag.replace_all(raw, " ");
    let no_entities = entity.replace_all(&no_tags, " ");
    ws.replace_all(no_entities.trim(), " ").into_owned()
}

#[test]
fn agrees_with_regex_crate_on_generated_texts() {
    let alphabet: Vec<char> = vec![
        '<', '>', '&', ';', '#', 'a', 'Z', 'q', '1', '9', '\u{663}', '\u{b2}', ' ', '\t', '\n',
        '\u{3000}', '\u{a0}', '/', 'x', '\u{e9}',
    ];
    let mut seed: u64 = 0x2545_f491_4f6c_dd1d;
    for _ in 0..4000 {
        seed ^= seed << 13;
        seed ^= seed >> 7;
        seed ^= seed << 17;
        let len = (seed % 24) as usize;
        let mut s = String::new();
        let mut r = seed;
        for _ in 0..len {
            r = r.wrapping_mul(6364136223846793005).wrapping_add(1442695040888963407);
            s.push(alphabet[((r >> 33) % alphabet.len() as u64) as usize]);
        }
        assert_eq!(strip_html(&s), regex_strip(&s), "input {:?}", s);
    }
}

#[test]
fn whitespace_class_matches_std_and_regex() {
    let ws = Regex::new(r"\A\s\z").unwrap();
    for code in 0u32..0x11_0000 {
        if let Some(c) = char::from_u32(code) {
            let lone = c.to_string();
            let expected = c.is_whitespace();
            assert_eq!(backend::text::is_whitespace(c), expected, "char {:?}", c);
            assert_eq!(ws.is_match(&lone), expected, "char {:?}", c);
        }
    }
}
