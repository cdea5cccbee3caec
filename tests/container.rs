use system_manager::container::{
    container_name, counting_command, decide_launch, filter_command, listing_command, parse_count,
    LaunchDecision,
};
use system_manager::error::ErrorKind;

fn strings(v: &[&str]) -> Vec<String> {
    v.iter().map(|s| s.to_string()).collect()
}

#[test]
fn count_of_no_line() {
    assert_eq!(parse_count("0\n").unwrap(), 0);
}

#[test]
fn count_of_three_lines() {
    assert_eq!(parse_count("3\n").unwrap(), 3);
    assert_eq!(parse_count("  3 \r\n").unwrap(), 3);
    assert_eq!(parse_count("042").unwrap(), 42);
}

#[test]
fn count_not_a_number() {
    assert_eq!(parse_count("abc").unwrap_err().kind, ErrorKind::DecodeFailure);
    assert_eq!(parse_count("").unwrap_err().kind, ErrorKind::DecodeFailure);
    assert_eq!(parse_count(" \n").unwrap_err().kind, ErrorKind::DecodeFailure);
    assert_eq!(parse_count("1 2").unwrap_err().kind, ErrorKind::DecodeFailure);
    assert_eq!(parse_count("-1").unwrap_err().kind, ErrorKind::DecodeFailure);
}

#[test]
fn count_largest_and_beyond() {
    assert_eq!(parse_count("18446744073709551615\n").unwrap(), u64::MAX);
    assert_eq!(
        parse_count("18446744073709551616\n").unwrap_err().kind,
        ErrorKind::DecodeFailure
    );
}

#[test]
fn count_read_twice_is_the_same() {
    let out = "7\n";
    assert_eq!(parse_count(out).unwrap(), parse_count(out).unwrap());
}

#[test]
fn container_name_is_lowercase() {
    assert_eq!(container_name("Fedora"), "fedora");
    assert_eq!(container_name("Ubuntu"), "ubuntu");
}

#[test]
fn no_container_creates_and_runs() {
    let d = decide_launch(container_name("Fedora"), 0);
    assert_eq!(d, LaunchDecision::CreateAndRun("fedora".to_string()));
    assert_eq!(
        d.command(),
        strings(&[
            "kitty", "sudo", "docker", "run", "--name", "fedora", "-h", "10-slib", "-e",
            "LANG=C.UTF-8", "-it", "fedora", "/bin/bash", "-l"
        ])
    );
}

#[test]
fn existing_container_resumes() {
    let d = decide_launch("fedora".to_string(), 2);
    assert_eq!(d, LaunchDecision::Resume("fedora".to_string()));
    let cmd = d.command();
    assert_eq!(cmd, strings(&["kitty", "sudo", "docker", "start", "fedora", "-i"]));
    assert!(!cmd.iter().any(|a| a == "run"));
    assert_eq!(d.name(), "fedora");
}

#[test]
fn counting_pipeline_commands() {
    assert_eq!(
        listing_command(),
        strings(&["pkexec", "docker", "ps", "-a", "--format", "{{.Names}}"])
    );
    assert_eq!(
        filter_command(&"debian".to_string()),
        strings(&["grep", "-F", "-x", "--", "debian"])
    );
    assert_eq!(counting_command(), strings(&["wc", "-l"]));
}
