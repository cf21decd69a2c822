use packagesbot::telegram::html::{html_escape, Escape, Html};

#[test]
fn test_escape_single_character() {
    assert_eq!(html_escape("<"), "&lt;");
    assert_eq!(html_escape(">"), "&gt;");
    assert_eq!(html_escape("&"), "&amp;");
    assert_eq!(html_escape("\""), "&#34;");
}

#[test]
fn test_escape_mixed_text() {
    assert_eq!(html_escape("a&b\"c"), "a&amp;b&#34;c");
    assert_eq!(html_escape("no escapes here"), "no escapes here");
    assert_eq!(html_escape(""), "");
}

#[test]
fn test_escape_iterator_streams_expansion() {
    let mut esc = Escape::new(b"a<b".to_vec());
    let mut out: Vec<u8> = Vec::new();
    while let Some(b) = esc.next() {
        out.push(b);
    }
    assert_eq!(out, b"a&lt;b".to_vec());
}

#[test]
fn test_escape_iterator_empty_input() {
    let mut esc = Escape::new(Vec::new());
    assert!(esc.next().is_none());
    assert!(esc.next().is_none());
}

#[test]
fn test_escape_iterator_size_hint() {
    let esc = Escape::new(b"x&y".to_vec());
    let (lower, upper) = esc.size_hint();
    // The expansion is "x&amp;y": 7 bytes, between the bounds.
    assert!(lower <= 7);
    assert!(upper.unwrap() >= 7);
}

#[test]
fn test_html_markup_composition() {
    let mut html = Html::new();
    html.bold("a<b");
    html.text("\n");
    html.italic("c&d");
    html.url("[repo]", "http://x?a=\"1\"");
    assert_eq!(
        html.message(),
        "<b>a&lt;b</b>\n<i>c&amp;d</i><a href=\"http://x?a=&#34;1&#34;\">[repo]</a>"
    );
}
