use contract_source_metadata::repository_link_in;
use contract_source_metadata::repository_link_or_empty;

#[test]
fn declared_link_is_found() {
    let manifest = "[package]\nname = \"x\"\nrepository = \"https://example.com/org/repo\"\n";
    let link = repository_link_in(manifest);
    assert!(!link.is_empty());
    assert!(link.ends_with("https://example.com/org/repo"));
    assert_eq!(link, "https://example.com/org/repo");
}

#[test]
fn no_declaration_gives_empty() {
    let manifest = "[package]\nname = \"x\"\nversion = \"0.1.0\"\n";
    assert_eq!(repository_link_in(manifest), "");
}

#[test]
fn empty_manifest_gives_empty() {
    assert_eq!(repository_link_in(""), "");
}

#[test]
fn unreadable_manifest_gives_empty() {
    assert_eq!(repository_link_or_empty(None), "");
}

#[test]
fn readable_manifest_is_scanned() {
    let manifest = "repository = \"https://example.com/org/repo\"";
    assert_eq!(
        repository_link_or_empty(Some(manifest)),
        "https://example.com/org/repo"
    );
}

#[test]
fn last_declaration_wins() {
    let manifest = "repository = \"https://example.com/first\"\nname = \"x\"\nrepository = \"https://example.com/second\"\n";
    assert_eq!(repository_link_in(manifest), "https://example.com/second");
}

#[test]
fn later_declaration_with_empty_link_still_wins() {
    let manifest = "repository = \"https://example.com/first\"\nrepository\n";
    assert_eq!(repository_link_in(manifest), "");
}

#[test]
fn short_declaring_line_gives_empty() {
    assert_eq!(repository_link_in("repository = "), "");
    assert_eq!(repository_link_in("repository"), "");
}

#[test]
fn equals_signs_are_ignored_when_matching() {
    let manifest = "repos=itory = \"https://example.com/a\"";
    assert_eq!(repository_link_in(manifest), " https://example.com/a");
}

#[test]
fn only_the_first_three_quotes_are_removed() {
    let manifest = "repository = \"a\"b\"c\"d";
    assert_eq!(repository_link_in(manifest), "abc\"d");
}

#[test]
fn prefix_is_counted_in_characters() {
    let manifest = "repositoryé = \"https://example.com/é\"";
    assert_eq!(repository_link_in(manifest), " https://example.com/é");
}

#[test]
fn prefix_is_fixed_width() {
    let manifest = "repository=\"https://example.com/org/repo\"";
    assert_eq!(repository_link_in(manifest), "ttps://example.com/org/repo");
}

#[test]
fn carriage_return_stays_in_the_link() {
    let manifest = "repository = \"https://example.com/org/repo\"\r\nname = \"x\"\r\n";
    assert_eq!(repository_link_in(manifest), "https://example.com/org/repo\r");
}
