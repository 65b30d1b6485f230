use unpinned_uses::allowlist::{is_entry, AllowlistSource, TrustAllowlist};
use unpinned_uses::audit::{
    AuditLoadError, Confidence, Persona, Severity, UnpinnedUses, THIRD_PARTY_MESSAGE,
};
use unpinned_uses::pattern::{describe, RepositoryUsesPattern};
use unpinned_uses::policy::{ConfigError, UnpinnedUsesConfig, UnpinnedUsesPolicies, UsesPolicy};
use unpinned_uses::uses::{DockerUses, PinState, RepositoryUses, Uses};

fn s(x: &str) -> String {
    x.to_string()
}

fn repo(owner: &str, repo: &str, subpath: Option<&str>, pin: PinState) -> RepositoryUses {
    RepositoryUses { owner: s(owner), repo: s(repo), subpath: subpath.map(s), pin }
}

fn config(policies: Vec<(RepositoryUsesPattern, UsesPolicy)>) -> UnpinnedUsesConfig {
    UnpinnedUsesConfig { policies, allowlist_file: None, additional_allowed_orgs: None }
}

fn rule(policies: Vec<(RepositoryUsesPattern, UsesPolicy)>) -> UnpinnedUses {
    UnpinnedUses::new(config(policies), None, None, None).unwrap()
}

fn default_rule() -> UnpinnedUses {
    UnpinnedUses::new(UnpinnedUsesConfig::default(), None, None, None).unwrap()
}

#[test]
fn ref_pin_owner_tag_passes_and_unpinned_fails() {
    let r = rule(vec![
        (RepositoryUsesPattern::InOwner(s("actions")), UsesPolicy::RefPin),
        (RepositoryUsesPattern::Any, UsesPolicy::HashPin),
    ]);
    let tagged = Uses::Repository(repo("actions", "checkout", None, PinState::PinnedToTag));
    assert!(r.evaluate_pinning(&tagged).is_none());
    let unpinned = Uses::Repository(repo("actions", "checkout", None, PinState::Unpinned));
    let (msg, sev, persona) = r.evaluate_pinning(&unpinned).unwrap();
    assert_eq!(msg, "action is not pinned to a ref or hash (required by actions/* policy)");
    assert_eq!(sev, Severity::High);
    assert_eq!(persona, Persona::Regular);
}

#[test]
fn third_party_branch_gets_distinguished_message() {
    let r = default_rule();
    let u = Uses::Repository(repo("someuser", "some-action", None, PinState::PinnedToRefOrBranch));
    let (msg, sev, persona) = r.evaluate_pinning(&u).unwrap();
    assert_eq!(msg, THIRD_PARTY_MESSAGE);
    assert_eq!(msg, "third-party action is not pinned to a commit SHA");
    assert_eq!(sev, Severity::High);
    assert_eq!(persona, Persona::Regular);
}

#[test]
fn third_party_unpinned_gets_distinguished_message() {
    let r = rule(vec![(RepositoryUsesPattern::InOwner(s("someuser")), UsesPolicy::RefPin)]);
    let u = Uses::Repository(repo("someuser", "x", None, PinState::PinnedToTag));
    let (msg, sev, _) = r.evaluate_pinning(&u).unwrap();
    assert_eq!(msg, THIRD_PARTY_MESSAGE);
    assert_eq!(sev, Severity::High);
    let u = Uses::Repository(repo("someuser", "x", None, PinState::Unpinned));
    assert_eq!(r.evaluate_pinning(&u).unwrap().0, THIRD_PARTY_MESSAGE);
}

#[test]
fn docker_image_findings() {
    let r = default_rule();
    let unpinned = Uses::Docker(DockerUses { image: s("alpine"), pin: PinState::Unpinned });
    let (msg, sev, persona) = r.evaluate_pinning(&unpinned).unwrap();
    assert_eq!(msg, "action is not pinned to a tag, branch, or hash ref");
    assert_eq!(sev, Severity::Medium);
    assert_eq!(persona, Persona::Regular);
    let tagged = Uses::Docker(DockerUses { image: s("alpine"), pin: PinState::PinnedToTag });
    let (msg, sev, persona) = r.evaluate_pinning(&tagged).unwrap();
    assert_eq!(msg, "action is not pinned to a hash");
    assert_eq!(sev, Severity::Low);
    assert_eq!(persona, Persona::Pedantic);
    let hashed = Uses::Docker(DockerUses { image: s("alpine"), pin: PinState::PinnedToHash });
    assert!(r.evaluate_pinning(&hashed).is_none());
}

#[test]
fn docker_pin_state_from_tag_and_digest() {
    assert_eq!(PinState::of_image(None, None), PinState::Unpinned);
    assert_eq!(PinState::of_image(Some("3.18"), None), PinState::PinnedToTag);
    assert_eq!(PinState::of_image(Some("3.18"), Some("sha256:abc")), PinState::PinnedToHash);
}

#[test]
fn exact_ref_pattern_is_rejected() {
    let cfg = config(vec![
        (RepositoryUsesPattern::Any, UsesPolicy::HashPin),
        (
            RepositoryUsesPattern::ExactWithRef {
                owner: s("foo"),
                repo: s("bar"),
                subpath: None,
                git_ref: s("v1"),
            },
            UsesPolicy::Any,
        ),
    ]);
    assert!(matches!(UnpinnedUsesPolicies::try_from(&cfg), Err(ConfigError::ExactRefPattern)));
    assert_eq!(
        UnpinnedUses::new(cfg, None, None, None).err(),
        Some(AuditLoadError::Fail(ConfigError::ExactRefPattern))
    );
}

fn five_patterns() -> Vec<(RepositoryUsesPattern, UsesPolicy)> {
    vec![
        (RepositoryUsesPattern::Any, UsesPolicy::Any),
        (RepositoryUsesPattern::InOwner(s("o")), UsesPolicy::Any),
        (RepositoryUsesPattern::InRepo { owner: s("o"), repo: s("r") }, UsesPolicy::RefPin),
        (RepositoryUsesPattern::ExactRepo { owner: s("o"), repo: s("r") }, UsesPolicy::Any),
        (
            RepositoryUsesPattern::ExactPath { owner: s("o"), repo: s("r"), subpath: s("s") },
            UsesPolicy::HashPin,
        ),
    ]
}

#[test]
fn most_specific_pattern_wins() {
    let tree = UnpinnedUsesPolicies::try_from(&config(five_patterns())).unwrap();
    let (p, pol) = tree.get_policy(&repo("o", "r", Some("s"), PinState::PinnedToTag));
    assert!(matches!(p, Some(RepositoryUsesPattern::ExactPath { .. })));
    assert_eq!(pol, UsesPolicy::HashPin);
    let (p, pol) = tree.get_policy(&repo("o", "r", None, PinState::PinnedToTag));
    assert!(matches!(p, Some(RepositoryUsesPattern::ExactRepo { .. })));
    assert_eq!(pol, UsesPolicy::Any);
    let (p, pol) = tree.get_policy(&repo("o", "r", Some("t"), PinState::PinnedToTag));
    assert!(matches!(p, Some(RepositoryUsesPattern::InRepo { .. })));
    assert_eq!(pol, UsesPolicy::RefPin);
    let (p, _) = tree.get_policy(&repo("o", "q", None, PinState::PinnedToTag));
    assert!(matches!(p, Some(RepositoryUsesPattern::InOwner(_))));
    let (p, pol) = tree.get_policy(&repo("x", "r", None, PinState::PinnedToTag));
    assert!(p.is_none());
    assert_eq!(pol, UsesPolicy::Any);
}

#[test]
fn owner_list_sorted_by_specificity() {
    let tree = UnpinnedUsesPolicies::try_from(&config(five_patterns())).unwrap();
    assert_eq!(tree.policy_tree.len(), 1);
    assert_eq!(tree.policy_tree[0].owner, "o");
    let ranks: Vec<u8> = tree.policy_tree[0].policies.iter().map(|e| e.0.rank()).collect();
    assert_eq!(ranks, vec![1, 2, 3, 4]);
    assert_eq!(tree.default_policy, UsesPolicy::Any);
}

#[test]
fn narrow_owner_patterns_fall_back_to_default() {
    let tree = UnpinnedUsesPolicies::try_from(&config(vec![
        (RepositoryUsesPattern::ExactRepo { owner: s("foo"), repo: s("bar") }, UsesPolicy::Any),
        (RepositoryUsesPattern::Any, UsesPolicy::RefPin),
    ]))
    .unwrap();
    let (p, pol) = tree.get_policy(&repo("foo", "baz", None, PinState::Unpinned));
    assert!(p.is_none());
    assert_eq!(pol, UsesPolicy::RefPin);
}

#[test]
fn missing_any_defaults_to_hash_pin() {
    let tree = UnpinnedUsesPolicies::try_from(&config(vec![(
        RepositoryUsesPattern::InOwner(s("foo")),
        UsesPolicy::Any,
    )]))
    .unwrap();
    assert_eq!(tree.default_policy, UsesPolicy::HashPin);
    let r = UnpinnedUses::new(
        config(vec![]),
        None,
        Some(vec![s("bar")]),
        None,
    )
    .unwrap();
    let u = Uses::Repository(repo("bar", "x", None, PinState::PinnedToTag));
    assert_eq!(
        r.evaluate_pinning(&u).unwrap().0,
        "action is not pinned to a hash (required by blanket policy)"
    );
}

#[test]
fn owner_keys_are_case_sensitive() {
    let tree = UnpinnedUsesPolicies::try_from(&config(vec![(
        RepositoryUsesPattern::InOwner(s("Foo")),
        UsesPolicy::Any,
    )]))
    .unwrap();
    let (p, pol) = tree.get_policy(&repo("foo", "x", None, PinState::Unpinned));
    assert!(p.is_none());
    assert_eq!(pol, UsesPolicy::HashPin);
}

#[test]
fn building_twice_or_reordered_gives_same_lookups() {
    let mut reversed = five_patterns();
    reversed.reverse();
    let a = UnpinnedUsesPolicies::try_from(&config(five_patterns())).unwrap();
    let b = UnpinnedUsesPolicies::try_from(&config(five_patterns())).unwrap();
    let c = UnpinnedUsesPolicies::try_from(&config(reversed)).unwrap();
    for (o, r, sp) in [("o", "r", Some("s")), ("o", "r", None), ("o", "r", Some("t")), ("o", "z", None), ("p", "r", None)] {
        let u = repo(o, r, sp, PinState::Unpinned);
        let (pa, la) = a.get_policy(&u);
        let (pb, lb) = b.get_policy(&u);
        let (pc, lc) = c.get_policy(&u);
        assert_eq!(la, lb);
        assert_eq!(la, lc);
        assert_eq!(describe(&pa), describe(&pb));
        assert_eq!(describe(&pa), describe(&pc));
    }
}

#[test]
fn trusted_hash_pinned_never_flagged() {
    for policy in [UsesPolicy::Any, UsesPolicy::RefPin, UsesPolicy::HashPin] {
        let r = rule(vec![(RepositoryUsesPattern::Any, policy)]);
        let u = Uses::Repository(repo("GitHub", "codeql-action", Some("init"), PinState::PinnedToHash));
        assert!(r.evaluate_pinning(&u).is_none());
    }
}

#[test]
fn trusted_owner_hash_pin_policy_message() {
    let r = rule(vec![(
        RepositoryUsesPattern::ExactPath { owner: s("github"), repo: s("codeql-action"), subpath: s("init") },
        UsesPolicy::HashPin,
    )]);
    let u = Uses::Repository(repo("github", "codeql-action", Some("init"), PinState::PinnedToTag));
    let (msg, sev, _) = r.evaluate_pinning(&u).unwrap();
    assert_eq!(msg, "action is not pinned to a hash (required by github/codeql-action/init policy)");
    assert_eq!(sev, Severity::High);
}

#[test]
fn local_reference_never_flagged() {
    let r = rule(vec![(RepositoryUsesPattern::Any, UsesPolicy::HashPin)]);
    assert!(r.evaluate_pinning(&Uses::Local).is_none());
    assert!(r.process_step(Some(&Uses::Local)).is_empty());
}

#[test]
fn process_step_builds_one_finding() {
    let r = default_rule();
    assert!(r.process_step(None).is_empty());
    let u = Uses::Repository(repo("evil", "x", None, PinState::PinnedToTag));
    let f = r.process_step(Some(&u));
    assert_eq!(f.len(), 1);
    assert_eq!(f[0].annotation, THIRD_PARTY_MESSAGE);
    assert_eq!(f[0].severity, Severity::High);
    assert_eq!(f[0].persona, Persona::Regular);
    assert_eq!(f[0].confidence, Confidence::High);
}

#[test]
fn allowlist_sources_extend_trust() {
    let cfg = UnpinnedUsesConfig {
        policies: vec![(RepositoryUsesPattern::Any, UsesPolicy::HashPin)],
        allowlist_file: Some(s("orgs.txt")),
        additional_allowed_orgs: Some(vec![s("CfgOrg")]),
    };
    let r = UnpinnedUses::new(
        cfg,
        Some(s("# trusted\n\n  FileOrg  \r\n#commented\nother\n")),
        Some(vec![s("CliOrg")]),
        Some(s("cfgfile\n")),
    )
    .unwrap();
    for owner in ["fileorg", "OTHER", "cliorg", "cfgorg", "CfgFile", "actions", "Dependabot"] {
        assert!(r.allowed_orgs.contains(owner), "{owner}");
    }
    assert!(!r.allowed_orgs.contains("# trusted"));
    assert!(!r.allowed_orgs.contains("#commented"));
    assert!(!r.allowed_orgs.contains(""));
    let u = Uses::Repository(repo("FileOrg", "x", None, PinState::PinnedToTag));
    assert_eq!(
        r.evaluate_pinning(&u).unwrap().0,
        "action is not pinned to a hash (required by blanket policy)"
    );
}

#[test]
fn allowlist_order_does_not_matter() {
    let a = AllowlistSource::File(s("one\n#x\nTwo\n"));
    let b = AllowlistSource::Orgs(vec![s("Three"), s("one")]);
    let l1 = TrustAllowlist::from_sources(&vec![a.clone(), b.clone()]);
    let l2 = TrustAllowlist::from_sources(&vec![b, a]);
    let mut o1 = l1.orgs.clone();
    let mut o2 = l2.orgs.clone();
    o1.sort();
    o2.sort();
    assert_eq!(o1, o2);
    assert_eq!(o1, vec!["actions", "dependabot", "github", "one", "three", "two"]);
}

#[test]
fn allowlist_insert_is_idempotent() {
    let mut l = TrustAllowlist::with_defaults();
    l.insert("Foo");
    l.insert("FOO");
    l.insert("foo");
    assert_eq!(l.orgs.len(), 4);
    assert!(l.contains("fOO"));
}

#[test]
fn default_config_policies() {
    let cfg = UnpinnedUsesConfig::default();
    let tree = UnpinnedUsesPolicies::try_from(&cfg).unwrap();
    assert_eq!(tree.default_policy, UsesPolicy::HashPin);
    let (p, pol) = tree.get_policy(&repo("github", "x", None, PinState::Unpinned));
    assert_eq!(describe(&p), "github/*");
    assert_eq!(pol, UsesPolicy::RefPin);
    let r = default_rule();
    let u = Uses::Repository(repo("dependabot", "fetch-metadata", None, PinState::Unpinned));
    assert_eq!(
        r.evaluate_pinning(&u).unwrap().0,
        "action is not pinned to a ref or hash (required by dependabot/* policy)"
    );
}

#[test]
fn pattern_descriptions() {
    assert_eq!(describe(&None), "blanket");
    assert_eq!(describe(&Some(RepositoryUsesPattern::Any)), "blanket");
    assert_eq!(describe(&Some(RepositoryUsesPattern::InOwner(s("a")))), "a/*");
    assert_eq!(describe(&Some(RepositoryUsesPattern::InRepo { owner: s("a"), repo: s("b") })), "a/b/*");
    assert_eq!(describe(&Some(RepositoryUsesPattern::ExactRepo { owner: s("a"), repo: s("b") })), "a/b");
    assert_eq!(
        describe(&Some(RepositoryUsesPattern::ExactPath { owner: s("a"), repo: s("b"), subpath: s("c/d") })),
        "a/b/c/d"
    );
}

#[test]
fn git_ref_pin_state() {
    assert_eq!(PinState::of_git_ref(None), PinState::Unpinned);
    assert_eq!(PinState::of_git_ref(Some("main")), PinState::PinnedToRefOrBranch);
    assert_eq!(
        PinState::of_git_ref(Some("8f4b7f84864484a7bf31766abe9204da3cbe65b3")),
        PinState::PinnedToHash
    );
    assert_eq!(
        PinState::of_git_ref(Some("8f4b7f84864484a7bf31766abe9204da3cbe65bz")),
        PinState::PinnedToRefOrBranch
    );
    assert_eq!(
        PinState::of_git_ref(Some("8f4b7f84864484a7bf31766abe9204da3cbe65b")),
        PinState::PinnedToRefOrBranch
    );
}

#[test]
fn allowlist_lines_and_lowercased_lookup() {
    assert!(is_entry("org"));
    assert!(!is_entry(""));
    assert!(!is_entry("# comment"));
    let mut l = TrustAllowlist::empty();
    l.add_file("  Alpha \n\n# beta\ngamma#x\n");
    assert!(l.holds(&s("alpha")));
    assert!(!l.holds(&s("Alpha")));
    assert!(l.holds(&s("gamma#x")));
    assert!(!l.holds(&s("# beta")));
    assert_eq!(l.orgs.len(), 2);
}

#[test]
fn default_persona_is_regular() {
    assert_eq!(Persona::default(), Persona::Regular);
}
