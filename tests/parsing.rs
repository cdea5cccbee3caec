use system_manager::repository::{
    package_query_command, parse_package_list, parse_repository_list, repository_list_command,
    valid_repository_id,
};
use system_manager::text::split_lines;

fn strings(v: &[&str]) -> Vec<String> {
    v.iter().map(|s| s.to_string()).collect()
}

#[test]
fn repository_header_is_dropped() {
    let out = "repo id   repo name\nfedora    Fedora 41 - x86_64\nupdates   Fedora 41 - x86_64 - Updates\n";
    assert_eq!(parse_repository_list(out), strings(&["fedora", "updates"]));
}

#[test]
fn repository_ids_alone() {
    assert_eq!(parse_repository_list("header\nrepoA\nrepoB\n"), strings(&["repoA", "repoB"]));
}

#[test]
fn repository_lines_starting_blank_are_skipped() {
    let out = "repo id  name\n   continued text\nrepoA  A\n\n\trepoX\nrepoB B";
    assert_eq!(parse_repository_list(out), strings(&["repoA", "repoB"]));
}

#[test]
fn repository_listing_empty_or_header_only() {
    assert!(parse_repository_list("").is_empty());
    assert!(parse_repository_list("repo id  repo name\n").is_empty());
}

#[test]
fn package_lines_have_no_trailing_empty_entry() {
    assert_eq!(parse_package_list("pkg1\npkg2\n"), strings(&["pkg1", "pkg2"]));
    assert_eq!(parse_package_list("pkg1\npkg2"), strings(&["pkg1", "pkg2"]));
}

#[test]
fn package_list_drops_only_one_trailing_empty_line() {
    assert_eq!(parse_package_list("a\n\n"), strings(&["a", ""]));
    assert!(parse_package_list("").is_empty());
    assert_eq!(parse_package_list("\n"), strings(&[""]));
}

#[test]
fn lines_keep_non_ascii_text() {
    assert_eq!(split_lines("héllo\nwörld\n"), strings(&["héllo", "wörld"]));
}

#[test]
fn repository_id_check() {
    assert!(valid_repository_id(&"fedora".to_string()));
    assert!(!valid_repository_id(&"".to_string()));
    assert!(!valid_repository_id(&"two words".to_string()));
    assert!(!valid_repository_id(&"tab\t".to_string()));
}

#[test]
fn package_manager_commands() {
    assert_eq!(repository_list_command(), strings(&["dnf", "repolist"]));
    assert_eq!(
        package_query_command(&"fedora-cisco-openh264".to_string()),
        strings(&["dnf", "repoquery", "--repo", "fedora-cisco-openh264", "-q", "--qf", "%{name}"])
    );
}
