use packagesbot::telegram::bot::{build_packages_message, prepare_message_text, search_reply};
use packagesbot::telegram::html::HtmlMessageBuilder;
use packagesbot::Package;

fn package(
    name: &str,
    repository: Option<&str>,
    documentation: Option<&str>,
    description: Option<&str>,
) -> Package {
    Package {
        name: name.to_string(),
        repository: repository.map(|s| s.to_string()),
        documentation: documentation.map(|s| s.to_string()),
        description: description.map(|s| s.to_string()),
    }
}

#[test]
fn test_builder_renders_all_parts() {
    let mut b = HtmlMessageBuilder::new();
    b.name("serde");
    b.repo_url("http://r");
    b.doc_url("http://d");
    b.description("a \"fast\" library");
    assert_eq!(
        b.build(),
        "<b>serde</b>\n<a href=\"http://r\">[repo]</a><a href=\"http://d\">[doc]</a>\na &#34;fast&#34; library\n"
    );
}

#[test]
fn test_builder_empty_renders_separator_only() {
    let b = HtmlMessageBuilder::new();
    assert_eq!(b.build(), "\n");
}

#[test]
fn test_prepare_message_text_skips_empty_fields() {
    let pkg = package("foo", Some(""), None, Some("bar"));
    assert_eq!(prepare_message_text(&pkg), "<b>foo</b>\n\nbar\n");
}

#[test]
fn test_end_to_end_single_package_reply() {
    let pkg = package("foo", Some("http://x"), None, Some("bar"));
    let reply = search_reply(&Ok(vec![pkg]));
    assert_eq!(reply, "<b>foo</b>\n<a href=\"http://x\">[repo]</a>\nbar\n");
    assert!(reply.contains("<b>foo</b>"));
    assert!(reply.contains("[repo]"));
    assert!(reply.contains("\nbar\n"));
    assert!(!reply.contains("[doc]"));
}

#[test]
fn test_renderer_entry_cap_ten_blocks() {
    let packages: Vec<Package> = (0..12).map(|i| package(&format!("p{}", i), None, None, None)).collect();
    let msg = build_packages_message(&packages);
    assert_eq!(msg.matches("<b>").count(), 10);
    assert!(msg.ends_with("<b>p9</b>\n\n"));
    assert!(!msg.contains("p10"));
}

#[test]
fn test_renderer_truncates_at_byte_cap() {
    // Each block is "<b>pN</b>\n" + "\n" + 1000 bytes + "\n" = 1012 bytes,
    // so exactly four blocks (4048 bytes) fit under the 4096-byte cap.
    let long = "a".repeat(1000);
    let packages: Vec<Package> =
        (0..6).map(|i| package(&format!("p{}", i), None, None, Some(&long))).collect();
    let msg = build_packages_message(&packages);
    let blocks: String =
        (0..4).map(|i| format!("<b>p{}</b>\n\n{}\n", i, long)).collect();
    assert_eq!(msg, blocks);
    assert_eq!(msg.len(), 4048);
    assert!(msg.len() < 4096);
    assert_eq!(msg.matches("<b>").count(), 4);
    // No partial block: the fifth package left no trace.
    assert!(!msg.contains("p4"));
}

#[test]
fn test_renderer_discards_oversized_first_block() {
    let huge = "a".repeat(5000);
    let packages = vec![package("big", None, None, Some(&huge))];
    let msg = build_packages_message(&packages);
    assert_eq!(msg, "");
}
