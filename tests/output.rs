use shellob::Shell;

#[test]
fn stderr_hides_resolved_path() {
    assert_eq!(
        Shell::relay_stderr("/usr/bin/ls: cannot access 'x'\n", "/usr/bin/ls", "ls"),
        "ls: cannot access 'x'\n"
    );
}

#[test]
fn stderr_every_occurrence_rewritten() {
    assert_eq!(
        Shell::relay_stderr("/b/p: a\n/b/p: b\n", "/b/p", "p"),
        "p: a\np: b\n"
    );
}

#[test]
fn stderr_path_without_colon_kept() {
    assert_eq!(Shell::relay_stderr("/b/p failed\n", "/b/p", "p"), "/b/p failed\n");
    assert_eq!(Shell::relay_stderr("", "/b/p", "p"), "");
    assert_eq!(Shell::relay_stderr("/b/p:", "/b/p", "p"), "/b/p:");
}

#[test]
fn search_candidates_in_order() {
    assert_eq!(
        Shell::search_candidates("/bin:/usr/bin", "ls"),
        vec!["/bin/ls".to_string(), "/usr/bin/ls".to_string()]
    );
}

#[test]
fn search_candidates_empty_pieces() {
    assert_eq!(Shell::search_candidates("", "ls"), vec!["/ls".to_string()]);
    assert_eq!(
        Shell::search_candidates("a::b", "x"),
        vec!["a/x".to_string(), "/x".to_string(), "b/x".to_string()]
    );
}
