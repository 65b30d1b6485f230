//! The `unpinned-uses` rule: decides whether a `uses:` reference breaks policy.

use vstd::prelude::*;

use crate::allowlist::{AllowlistSource, TrustAllowlist, default_names, merged};
use crate::pattern::{describe, description};
use crate::policy::{ConfigError, UnpinnedUsesConfig, UnpinnedUsesPolicies, UsesPolicy};
use crate::text::lower_of;
use crate::uses::{PinState, RepositoryUses, Uses};

verus! {

/// The finding text for a third-party reference that is not hash-pinned.
/// Report tooling keys on it, so it is a stable identifier.
pub const THIRD_PARTY_MESSAGE: &'static str = "third-party action is not pinned to a commit SHA";

/// The finding text for a container image with no tag or digest.
pub const IMAGE_UNPINNED_MESSAGE: &'static str = "action is not pinned to a tag, branch, or hash ref";

/// The finding text for a container image with a tag but no digest.
pub const IMAGE_UNHASHED_MESSAGE: &'static str = "action is not pinned to a hash";

/// How severe a finding is.
#[derive(Clone, Copy, Debug, PartialEq, Eq, Structural)]
pub enum Severity {
    Informational,
    Low,
    Medium,
    High,
}

/// Who a finding is shown to.
#[derive(Clone, Copy, Debug, PartialEq, Eq, Structural)]
pub enum Persona {
    /// Only in auditing runs.
    Auditor,
    /// Only in pedantic runs.
    Pedantic,
    /// Always.
    Regular,
}

impl Default for Persona {
    fn default() -> (r: Self)
        ensures
            r == Persona::Regular,
    {
        Persona::Regular
    }
}

/// How sure a finding is.
#[derive(Clone, Copy, Debug, PartialEq, Eq, Structural)]
pub enum Confidence {
    Low,
    Medium,
    High,
}

/// A violation, located at the `uses:` key of its step.
#[derive(Clone, Debug)]
pub struct Finding {
    pub annotation: String,
    pub severity: Severity,
    pub persona: Persona,
    pub confidence: Confidence,
}

/// Why the rule could not be set up.
#[derive(Clone, Copy, Debug, PartialEq, Eq, Structural)]
pub enum AuditLoadError {
    /// The configuration is invalid.
    Fail(ConfigError),
}

/// `"action is not pinned to a ref or hash (required by {desc} policy)"`.
pub open spec fn ref_pin_message(desc: Seq<char>) -> Seq<char> {
    "action is not pinned to a ref or hash (required by "@ + desc + " policy)"@
}

/// `"action is not pinned to a hash (required by {desc} policy)"`.
pub open spec fn hash_pin_message(desc: Seq<char>) -> Seq<char> {
    "action is not pinned to a hash (required by "@ + desc + " policy)"@
}

/// The verdict on `uses`: no finding, or its message, severity and audience.
pub open spec fn verdict(allowed: Set<Seq<char>>, policies: UnpinnedUsesPolicies, uses: Uses) -> Option<
    (Seq<char>, Severity, Persona),
> {
    match uses {
        Uses::Local => None,
        Uses::Docker(d) => if d.pin.spec_unpinned() {
            Some((IMAGE_UNPINNED_MESSAGE@, Severity::Medium, Persona::Regular))
        } else if d.pin.spec_unhashed() {
            Some((IMAGE_UNHASHED_MESSAGE@, Severity::Low, Persona::Pedantic))
        } else {
            None
        },
        Uses::Repository(r) => {
            let third_party = !allowed.contains(lower_of(r.owner@));
            if third_party && r.pin.spec_unhashed() {
                Some((THIRD_PARTY_MESSAGE@, Severity::High, Persona::Regular))
            } else {
                let (pattern, policy) = policies.lookup(r);
                let desc = description(pattern);
                match policy {
                    UsesPolicy::Any => None,
                    UsesPolicy::RefPin => if r.pin.spec_unpinned() {
                        Some((ref_pin_message(desc), Severity::High, Persona::Regular))
                    } else {
                        None
                    },
                    UsesPolicy::HashPin => if r.pin.spec_unhashed() && !third_party {
                        Some((hash_pin_message(desc), Severity::High, Persona::Regular))
                    } else {
                        None
                    },
                }
            }
        },
    }
}

/// The view of an evaluation result.
pub open spec fn verdict_view(r: Option<(String, Severity, Persona)>) -> Option<
    (Seq<char>, Severity, Persona),
> {
    match r {
        Some((m, s, p)) => Some((m@, s, p)),
        None => None,
    }
}

/// The allowlist sources, in the order they are merged: the operator's file
/// and owners, then the rule configuration's file and owners.
pub open spec fn sources_of(
    cli_file: Option<String>,
    cli_orgs: Option<Vec<String>>,
    config_file: Option<String>,
    config_orgs: Option<Vec<String>>,
) -> Seq<AllowlistSource> {
    let a = match cli_file {
        Some(c) => seq![AllowlistSource::File(c)],
        None => Seq::empty(),
    };
    let b = match cli_orgs {
        Some(v) => seq![AllowlistSource::Orgs(v)],
        None => Seq::empty(),
    };
    let c = match config_file {
        Some(c) => seq![AllowlistSource::File(c)],
        None => Seq::empty(),
    };
    let d = match config_orgs {
        Some(v) => seq![AllowlistSource::Orgs(v)],
        None => Seq::empty(),
    };
    a + b + c + d
}

/// The rule, set up for one scan.
#[derive(Clone, Debug)]
pub struct UnpinnedUses {
    pub policies: UnpinnedUsesPolicies,
    /// Built-in trusted owners together with every allowlisted one.
    pub allowed_orgs: TrustAllowlist,
}

fn string_from(s: &str) -> (r: String)
    ensures
        r@ == s@,
{
    String::from_str(s)
}

impl UnpinnedUses {
    /// Sets the rule up from its configuration, the contents of the
    /// operator's allowlist file and owners, and the contents of the file
    /// that the configuration names (each absent, or unreadable, as `None`).
    pub fn new(
        config: UnpinnedUsesConfig,
        tpa_allowlist_file: Option<String>,
        tpa_allowed_org: Option<Vec<String>>,
        config_allowlist_file: Option<String>,
    ) -> (r: Result<Self, AuditLoadError>)
        ensures
            r is Err <==> crate::policy::has_exact_ref(config.policies@),
            r is Err ==> r->Err_0 == AuditLoadError::Fail(ConfigError::ExactRefPattern),
            r is Ok ==> r->Ok_0.policies.built_from(config.policies@),
            r is Ok ==> r->Ok_0.allowed_orgs@ == merged(
                default_names(),
                sources_of(
                    tpa_allowlist_file,
                    tpa_allowed_org,
                    config_allowlist_file,
                    config.additional_allowed_orgs,
                ),
            ),
    {
        let policies = match UnpinnedUsesPolicies::try_from(&config) {
            Ok(p) => p,
            Err(e) => {
                return Err(AuditLoadError::Fail(e));
            },
        };
        let mut srcs: Vec<AllowlistSource> = Vec::new();
        if let Some(c) = tpa_allowlist_file {
            srcs.push(AllowlistSource::File(c));
        }
        if let Some(v) = tpa_allowed_org {
            srcs.push(AllowlistSource::Orgs(v));
        }
        if let Some(c) = config_allowlist_file {
            srcs.push(AllowlistSource::File(c));
        }
        if let Some(v) = config.additional_allowed_orgs {
            srcs.push(AllowlistSource::Orgs(v));
        }
        assert(srcs@ =~= sources_of(
            tpa_allowlist_file,
            tpa_allowed_org,
            config_allowlist_file,
            config.additional_allowed_orgs,
        ));
        let allowed_orgs = TrustAllowlist::from_sources(&srcs);
        Ok(UnpinnedUses { policies, allowed_orgs })
    }

    /// Decides whether `uses` breaks policy: `None`, or the message,
    /// severity and audience of the finding.
    pub fn evaluate_pinning(&self, uses: &Uses) -> (r: Option<(String, Severity, Persona)>)
        ensures
            verdict_view(r) == verdict(self.allowed_orgs@, self.policies, *uses),
    {
        match uses {
            Uses::Local => None,
            Uses::Docker(d) => {
                if d.pin.unpinned() {
                    Some((string_from(IMAGE_UNPINNED_MESSAGE), Severity::Medium, Persona::default()))
                } else if d.pin.unhashed() {
                    Some((string_from(IMAGE_UNHASHED_MESSAGE), Severity::Low, Persona::Pedantic))
                } else {
                    None
                }
            },
            Uses::Repository(repo_uses) => {
                let is_third_party = !self.allowed_orgs.contains(repo_uses.owner.as_str());
                if is_third_party && repo_uses.pin.unhashed() {
                    return Some((string_from(THIRD_PARTY_MESSAGE), Severity::High, Persona::default()));
                }
                let (pattern, policy) = self.policies.get_policy(repo_uses);
                let pat_desc = describe(&pattern);
                match policy {
                    UsesPolicy::Any => None,
                    UsesPolicy::RefPin => {
                        if repo_uses.pin.unpinned() {
                            let mut m = string_from("action is not pinned to a ref or hash (required by ");
                            m.append(pat_desc.as_str());
                            m.append(" policy)");
                            Some((m, Severity::High, Persona::default()))
                        } else {
                            None
                        }
                    },
                    UsesPolicy::HashPin => {
                        if repo_uses.pin.unhashed() && !is_third_party {
                            let mut m = string_from("action is not pinned to a hash (required by ");
                            m.append(pat_desc.as_str());
                            m.append(" policy)");
                            Some((m, Severity::High, Persona::default()))
                        } else {
                            None
                        }
                    },
                }
            },
        }
    }

    /// The findings for one step: none when it has no `uses:`, else at most
    /// one, with high confidence, carrying the verdict of `evaluate_pinning`.
    pub fn process_step(&self, uses: Option<&Uses>) -> (r: Vec<Finding>)
        ensures
            uses is None ==> r.len() == 0,
            uses is Some ==> match verdict(self.allowed_orgs@, self.policies, *uses->0) {
                None => r.len() == 0,
                Some((m, s, p)) => r.len() == 1 && r@[0].annotation@ == m && r@[0].severity == s
                    && r@[0].persona == p && r@[0].confidence == Confidence::High,
            },
    {
        let mut findings: Vec<Finding> = Vec::new();
        match uses {
            None => findings,
            Some(u) => {
                if let Some((annotation, severity, persona)) = self.evaluate_pinning(u) {
                    findings.push(
                        Finding { annotation, severity, persona, confidence: Confidence::High },
                    );
                }
                findings
            },
        }
    }
}

/// A reference to a trusted owner that is pinned to a full hash passes,
/// whatever the policies.
pub proof fn lemma_trusted_hashed_passes(
    allowed: Set<Seq<char>>,
    policies: UnpinnedUsesPolicies,
    r: RepositoryUses,
)
    requires
        allowed.contains(lower_of(r.owner@)),
        r.pin == PinState::PinnedToHash,
    ensures
        verdict(allowed, policies, Uses::Repository(r)) is None,
{
}

/// A reference to an untrusted owner that is not pinned to a full hash
/// always gets exactly the third-party finding, with high severity.
pub proof fn lemma_third_party_unhashed_flagged(
    allowed: Set<Seq<char>>,
    policies: UnpinnedUsesPolicies,
    r: RepositoryUses,
)
    requires
        !allowed.contains(lower_of(r.owner@)),
        r.pin != PinState::PinnedToHash,
    ensures
        verdict(allowed, policies, Uses::Repository(r)) == Some(
            (THIRD_PARTY_MESSAGE@, Severity::High, Persona::Regular),
        ),
{
}

/// A local reference never gets a finding.
pub proof fn lemma_local_passes(allowed: Set<Seq<char>>, policies: UnpinnedUsesPolicies)
    ensures
        verdict(allowed, policies, Uses::Local) is None,
{
}

} // verus!
