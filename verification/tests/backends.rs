use packagesbot::crates::{CrateLinks, CratesRepo, EncodableCrate};
use packagesbot::godoc::GodocRepo;
use packagesbot::telegram::{build_crates_message, prepare_message_text, search_query};
use packagesbot::Package;

fn sample_crate(name: &str, repository: Option<&str>, description: Option<&str>) -> EncodableCrate {
    EncodableCrate {
        id: name.to_string(),
        name: name.to_string(),
        updated_at: "2016-01-01".to_string(),
        versions: None,
        keywords: None,
        created_at: "2015-01-01".to_string(),
        downloads: 7,
        max_version: "1.0.0".to_string(),
        description: description.map(|s| s.to_string()),
        homepage: None,
        documentation: Some("http://docs".to_string()),
        license: None,
        repository: repository.map(|s| s.to_string()),
        links: CrateLinks {
            version_downloads: "vd".to_string(),
            versions: None,
            owners: None,
            reverse_dependencies: "rd".to_string(),
        },
    }
}

#[test]
fn test_packages_from_crates_keeps_fields_in_order() {
    let repo = CratesRepo {};
    let crates = vec![
        sample_crate("alpha", Some("http://a"), Some("first")),
        sample_crate("beta", None, None),
    ];
    let packages = repo.packages_from_crates(crates);
    assert_eq!(packages.len(), 2);
    assert_eq!(packages[0].name, "alpha");
    assert_eq!(packages[0].repository.as_deref(), Some("http://a"));
    assert_eq!(packages[0].documentation.as_deref(), Some("http://docs"));
    assert_eq!(packages[0].description.as_deref(), Some("first"));
    assert_eq!(packages[1].name, "beta");
    assert!(packages[1].repository.is_none());
    assert!(packages[1].description.is_none());
}

#[test]
fn test_godoc_row_builds_links() {
    let repo = GodocRepo {};
    let pkg = repo
        .parse_packages_row(
            Some("net/http".to_string()),
            Some("/net/http".to_string()),
            Some("HTTP client and server".to_string()),
        )
        .unwrap();
    assert_eq!(pkg.name, "net/http");
    assert_eq!(pkg.repository.as_deref(), Some("net/http"));
    assert_eq!(pkg.documentation.as_deref(), Some("http://godoc.org/net/http"));
    assert_eq!(pkg.description.as_deref(), Some("HTTP client and server"));
}

#[test]
fn test_godoc_row_rejects_incomplete_rows() {
    let repo = GodocRepo {};
    assert!(repo.parse_packages_row(None, None, Some("syn".to_string())).is_none());
    assert!(repo.parse_packages_row(Some("x".to_string()), None, None).is_none());
    assert!(repo
        .parse_packages_row(Some("".to_string()), None, Some("syn".to_string()))
        .is_none());
}

#[test]
fn test_godoc_row_without_href_has_no_links() {
    let repo = GodocRepo {};
    let pkg = repo
        .parse_packages_row(Some("fmt".to_string()), None, Some("formatting".to_string()))
        .unwrap();
    assert!(pkg.repository.is_none());
    assert!(pkg.documentation.is_none());
}

#[test]
fn test_package_empty_is_blank() {
    let pkg = Package::empty();
    assert_eq!(pkg.name, "");
    assert!(pkg.repository.is_none());
    assert!(pkg.documentation.is_none());
    assert!(pkg.description.is_none());
}

#[test]
fn test_search_query_strips_prefix_and_trims() {
    assert_eq!(search_query("/search serde json"), Some("serde json".to_string()));
    assert_eq!(search_query("/search"), Some("".to_string()));
    assert_eq!(search_query("/search/search x"), Some("x".to_string()));
    assert_eq!(search_query("/searchfoo"), Some("foo".to_string()));
    assert_eq!(search_query("hello"), None);
    assert_eq!(search_query("search rust"), None);
}

#[test]
fn test_crate_message_format() {
    let krate = sample_crate("alpha", Some("http://a?q=\"x\""), Some("first & best"));
    assert_eq!(
        prepare_message_text(&krate),
        "<b>alpha</b>\n<a href=\"http://a?q=&#34;x&#34;\">http://a?q=&#34;x&#34;</a>\nfirst &amp; best\n"
    );
}

#[test]
fn test_crates_message_caps_at_fifty() {
    let crates: Vec<EncodableCrate> =
        (0..60).map(|i| sample_crate(&format!("c{}", i), None, None)).collect();
    let msg = build_crates_message(&crates);
    assert_eq!(msg.matches("<b>").count(), 50);
    assert!(msg.len() < 4096);
}
