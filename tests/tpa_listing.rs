use unpinned_uses::tpa_list::{
    actions_from_captures, extract_actions_from_workflow, generate_summary, is_official_action,
    is_official_org, is_pinned_to_sha, listed_from_trimmed, tpa_lines, Action,
};

const SHA: &str = "8f4b7f84864484a7bf31766abe9204da3cbe65b3";

#[test]
fn official_orgs_are_case_insensitive() {
    assert!(is_official_action("actions/checkout@v4"));
    assert!(is_official_action("GitHub/codeql-action/init@v3"));
    assert!(is_official_action("dependabot/fetch-metadata@v1"));
    assert!(!is_official_action("someuser/some-action@main"));
    assert!(!is_official_action("actions-rs/toolchain@v1"));
    assert!(!is_official_action(""));
}

#[test]
fn sha_pinning_needs_forty_hex_digits() {
    assert!(is_pinned_to_sha(&format!("actions/checkout@{SHA}")));
    assert!(is_pinned_to_sha(&format!("a/b@{SHA}0a")));
    assert!(!is_pinned_to_sha("actions/checkout@v4"));
    assert!(!is_pinned_to_sha("actions/checkout"));
    assert!(!is_pinned_to_sha(&format!("a/b@{}", &SHA[..39])));
    assert!(!is_pinned_to_sha(&format!("a/b@{}g", &SHA[..39])));
    assert!(is_pinned_to_sha(&format!("a/b@{SHA}@x")));
}

fn action(third_party: bool, pinned: bool, r: &str) -> Action {
    Action {
        reference: r.to_string(),
        pinned_to_sha: pinned,
        third_party,
        line: format!("uses: {r}"),
        file_path: "w.yml".to_string(),
    }
}

#[test]
fn summary_counts() {
    let actions = vec![
        action(true, false, "a/b@v1"),
        action(true, true, "c/d@x"),
        action(false, false, "actions/checkout@v4"),
        action(true, false, "e/f@main"),
    ];
    let s = generate_summary(&actions);
    assert_eq!(s.total_actions, 4);
    assert_eq!(s.unpinned_third_party, 2);
    assert_eq!(s.pinned_third_party, 1);
    assert_eq!(s.official_actions, 1);
    let empty = generate_summary(&[]);
    assert_eq!(empty.total_actions, 0);
}

#[test]
fn extracts_unique_repository_actions() {
    let content = format!(
        "jobs:\n  build:\n    steps:\n      - uses: actions/checkout@v4\n      - uses: 'someuser/some-action@main'\n      - uses: docker://alpine:3.18\n      - uses: ./local\n        uses: \"other/act@{SHA}\"\n      - uses: actions/checkout@v4\n"
    );
    let actions = extract_actions_from_workflow(&content, "ci.yml");
    let refs: Vec<&str> = actions.iter().map(|a| a.reference.as_str()).collect();
    assert_eq!(
        refs,
        vec![
            "actions/checkout@v4".to_string(),
            "someuser/some-action@main".to_string(),
            "./local".to_string(),
            format!("other/act@{SHA}"),
        ]
    );
    assert!(!actions[0].third_party && !actions[0].pinned_to_sha);
    assert!(actions[1].third_party && !actions[1].pinned_to_sha);
    assert!(actions[3].third_party && actions[3].pinned_to_sha);
    assert_eq!(actions[1].line, "uses: someuser/some-action@main");
    assert_eq!(actions[3].file_path, "ci.yml");
}

#[test]
fn report_lines_list_unpinned_third_party() {
    let actions = vec![
        action(true, false, "a/b@v1"),
        action(true, true, "c/d@x"),
        action(false, false, "actions/checkout@v4"),
    ];
    assert_eq!(tpa_lines(&actions), vec!["w.yml: uses: a/b@v1".to_string()]);
}

#[test]
fn official_org_after_lowercasing() {
    assert!(is_official_org("actions"));
    assert!(is_official_org("dependabot"));
    assert!(!is_official_org("Actions"));
    assert!(!is_official_org("someone"));
}

#[test]
fn listed_reference_of_trimmed_value() {
    assert_eq!(listed_from_trimmed("'a/b@v1'").as_deref(), Some("a/b@v1"));
    assert_eq!(listed_from_trimmed("\"'a/b@v1\"'").as_deref(), Some("a/b@v1"));
    assert_eq!(listed_from_trimmed("docker://alpine"), None);
    assert_eq!(listed_from_trimmed(""), None);
    assert_eq!(listed_from_trimmed("'noslash'"), None);
    assert_eq!(listed_from_trimmed("''"), None);
}

#[test]
fn actions_from_given_captures() {
    let caps = vec![Some("  x/y@v1 "), None, Some("x/y@v1"), Some("docker://a"), Some("z/w@main")];
    let actions = actions_from_captures(&caps, "f.yml");
    let refs: Vec<&str> = actions.iter().map(|a| a.reference.as_str()).collect();
    assert_eq!(refs, vec!["x/y@v1", "z/w@main"]);
    assert!(actions.iter().all(|a| a.third_party && !a.pinned_to_sha && a.file_path == "f.yml"));
}
