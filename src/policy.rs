//! Pinning policies and the owner-keyed policy tree that resolves them.

use vstd::prelude::*;

use crate::pattern::RepositoryUsesPattern;
use crate::uses::RepositoryUses;

verus! {

/// The minimum pinning that a policy requires.
#[derive(Clone, Copy, Debug, PartialEq, Eq, Structural)]
pub enum UsesPolicy {
    /// No requirement: even unpinned references pass.
    Any,
    /// Pinned to a tag, branch or hash.
    RefPin,
    /// Pinned to a full hash.
    HashPin,
}

/// The policy that a configuration value names.
pub open spec fn policy_named(s: Seq<char>) -> Option<UsesPolicy> {
    if s == "any"@ {
        Some(UsesPolicy::Any)
    } else if s == "ref-pin"@ {
        Some(UsesPolicy::RefPin)
    } else if s == "hash-pin"@ {
        Some(UsesPolicy::HashPin)
    } else {
        None
    }
}

impl UsesPolicy {
    /// Reads a configuration value: `any`, `ref-pin` or `hash-pin`.
    pub fn parse(s: &str) -> (r: Option<UsesPolicy>)
        ensures
            r == policy_named(s@),
    {
        let t = String::from_str(s);
        if t == String::from_str("any") {
            Some(UsesPolicy::Any)
        } else if t == String::from_str("ref-pin") {
            Some(UsesPolicy::RefPin)
        } else if t == String::from_str("hash-pin") {
            Some(UsesPolicy::HashPin)
        } else {
            None
        }
    }
}

/// A configured pattern with its policy.
pub type PolicyEntry = (RepositoryUsesPattern, UsesPolicy);

/// Why a configuration cannot become a policy tree.
#[derive(Clone, Copy, Debug, PartialEq, Eq, Structural)]
pub enum ConfigError {
    /// A pattern names a ref: a pinning policy cannot be keyed on the pin itself.
    ExactRefPattern,
}

/// The patterns configured for one owner, most specific first.
#[derive(Clone, Debug)]
pub struct OwnerPolicies {
    pub owner: String,
    pub policies: Vec<PolicyEntry>,
}

/// The resolved policy set: per-owner pattern lists and one global default.
#[derive(Clone, Debug)]
pub struct UnpinnedUsesPolicies {
    pub policy_tree: Vec<OwnerPolicies>,
    pub default_policy: UsesPolicy,
}

/// Whether entry `e` belongs to owner `o`'s list at specificity `rank`.
pub open spec fn in_bucket(e: PolicyEntry, o: Seq<char>, rank: u8) -> bool {
    e.0.spec_owner() == Some(o) && e.0.spec_rank() == rank
}

/// The entries of `cfg` for owner `o` at specificity `rank`, in configured order.
pub open spec fn bucket(cfg: Seq<PolicyEntry>, o: Seq<char>, rank: u8) -> Seq<PolicyEntry>
    decreases cfg.len(),
{
    if cfg.len() == 0 {
        Seq::empty()
    } else {
        let rest = bucket(cfg.drop_last(), o, rank);
        if in_bucket(cfg.last(), o, rank) {
            rest.push(cfg.last())
        } else {
            rest
        }
    }
}

/// Owner `o`'s list: its configured patterns, grouped from most to least
/// specific shape, in configured order within one shape.
pub open spec fn owner_list(cfg: Seq<PolicyEntry>, o: Seq<char>) -> Seq<PolicyEntry> {
    bucket(cfg, o, 1) + bucket(cfg, o, 2) + bucket(cfg, o, 3) + bucket(cfg, o, 4)
}

/// The policy of the last `Any` pattern configured, else `HashPin`.
pub open spec fn default_of(cfg: Seq<PolicyEntry>) -> UsesPolicy
    decreases cfg.len(),
{
    if cfg.len() == 0 {
        UsesPolicy::HashPin
    } else if cfg.last().0 is Any {
        cfg.last().1
    } else {
        default_of(cfg.drop_last())
    }
}

/// Whether some configured pattern names a ref.
pub open spec fn has_exact_ref(cfg: Seq<PolicyEntry>) -> bool {
    exists|i: int| 0 <= i < cfg.len() && (#[trigger] cfg[i]).0 is ExactWithRef
}

/// The first entry of `l` whose pattern matches `u`.
pub open spec fn first_match(l: Seq<PolicyEntry>, u: RepositoryUses) -> Option<PolicyEntry>
    decreases l.len(),
{
    if l.len() == 0 {
        None
    } else if l[0].0.spec_matches(&u) {
        Some(l[0])
    } else {
        first_match(l.drop_first(), u)
    }
}

/// What a lookup yields from an owner's list and the default policy.
pub open spec fn resolved(l: Seq<PolicyEntry>, default: UsesPolicy, u: RepositoryUses) -> (
    Option<RepositoryUsesPattern>,
    UsesPolicy,
) {
    match first_match(l, u) {
        Some(e) => (Some(e.0), e.1),
        None => (None, default),
    }
}

/// The policy that the configuration `cfg` assigns to `u`.
pub open spec fn resolve(cfg: Seq<PolicyEntry>, u: RepositoryUses) -> (
    Option<RepositoryUsesPattern>,
    UsesPolicy,
) {
    resolved(owner_list(cfg, u.owner@), default_of(cfg), u)
}

/// The list stored for owner `o` in `t`, or empty.
pub open spec fn list_in(t: Seq<OwnerPolicies>, o: Seq<char>) -> Seq<PolicyEntry>
    decreases t.len(),
{
    if t.len() == 0 {
        Seq::empty()
    } else if t[0].owner@ == o {
        t[0].policies@
    } else {
        list_in(t.drop_first(), o)
    }
}

impl UnpinnedUsesPolicies {
    /// Owners are unique; each list is non-empty, holds only patterns of
    /// its owner (no `Any`, no `ExactWithRef`) and is sorted by specificity.
    pub open spec fn wf(&self) -> bool {
        let t = self.policy_tree@;
        &&& forall|i: int, j: int|
            0 <= i < j < t.len() ==> (#[trigger] t[i]).owner@ != (#[trigger] t[j]).owner@
        &&& forall|i: int| 0 <= i < t.len() ==> (#[trigger] t[i]).policies.len() > 0
        &&& forall|i: int, k: int|
            0 <= i < t.len() && 0 <= k < t[i].policies.len() ==> {
                let e = (#[trigger] t[i].policies@[k]);
                &&& e.0.spec_owner() == Some(t[i].owner@)
                &&& 1 <= e.0.spec_rank() <= 4
            }
        &&& forall|i: int, k: int, m: int|
            0 <= i < t.len() && 0 <= k < m < t[i].policies.len() ==> (
            #[trigger] t[i].policies@[k]).0.spec_rank() <= (
            #[trigger] t[i].policies@[m]).0.spec_rank()
    }

    /// The list stored for owner `o`, or empty.
    pub open spec fn list_for(&self, o: Seq<char>) -> Seq<PolicyEntry> {
        list_in(self.policy_tree@, o)
    }

    /// The tree that the configuration `cfg` builds.
    pub open spec fn built_from(&self, cfg: Seq<PolicyEntry>) -> bool {
        &&& self.wf()
        &&& self.default_policy == default_of(cfg)
        &&& forall|o: Seq<char>| #[trigger] self.list_for(o) == owner_list(cfg, o)
    }

    /// What `get_policy` returns for `u`.
    pub open spec fn lookup(&self, u: RepositoryUses) -> (Option<RepositoryUsesPattern>, UsesPolicy) {
        resolved(self.list_for(u.owner@), self.default_policy, u)
    }
}


/// The policy settings of the rule's configuration.
#[derive(Clone, Debug)]
pub struct UnpinnedUsesConfig {
    /// Patterns with their policies; a mapping, so each pattern once.
    pub policies: Vec<PolicyEntry>,
    /// Contents of a file naming further trusted owners, one per line.
    pub allowlist_file: Option<String>,
    /// Further trusted owners.
    pub additional_allowed_orgs: Option<Vec<String>>,
}

/// Whether `e` is `owner/*` with policy `policy`.
pub open spec fn is_owner_entry(e: PolicyEntry, owner: Seq<char>, policy: UsesPolicy) -> bool {
    &&& e.0 is InOwner
    &&& e.0.spec_owner() == Some(owner)
    &&& e.1 == policy
}

impl Default for UnpinnedUsesConfig {
    /// `actions/*`, `github/*` and `dependabot/*` need a ref pin; anything
    /// else needs a hash pin. No allowlist file and no further owners.
    fn default() -> (r: Self)
        ensures
            r.policies.len() == 4,
            is_owner_entry(r.policies@[0], "actions"@, UsesPolicy::RefPin),
            is_owner_entry(r.policies@[1], "github"@, UsesPolicy::RefPin),
            is_owner_entry(r.policies@[2], "dependabot"@, UsesPolicy::RefPin),
            r.policies@[3].0 is Any && r.policies@[3].1 == UsesPolicy::HashPin,
            r.allowlist_file is None,
            r.additional_allowed_orgs is None,
    {
        let mut policies: Vec<PolicyEntry> = Vec::new();
        policies.push((RepositoryUsesPattern::InOwner(String::from_str("actions")), UsesPolicy::RefPin));
        policies.push((RepositoryUsesPattern::InOwner(String::from_str("github")), UsesPolicy::RefPin));
        policies.push((RepositoryUsesPattern::InOwner(String::from_str("dependabot")), UsesPolicy::RefPin));
        policies.push((RepositoryUsesPattern::Any, UsesPolicy::HashPin));
        UnpinnedUsesConfig { policies, allowlist_file: None, additional_allowed_orgs: None }
    }
}

proof fn lemma_list_in_at(t: Seq<OwnerPolicies>, m: int)
    requires
        0 <= m < t.len(),
        forall|i: int, j: int| 0 <= i < j < t.len() ==> (#[trigger] t[i]).owner@ != (#[trigger] t[j]).owner@,
    ensures
        list_in(t, t[m].owner@) == t[m].policies@,
    decreases t.len(),
{
    if m > 0 {
        assert(t[0].owner@ != t[m].owner@);
        let d = t.drop_first();
        assert(d[m - 1] == t[m]);
        assert forall|i: int, j: int| 0 <= i < j < d.len() implies (#[trigger] d[i]).owner@ != (#[trigger] d[j]).owner@ by {
            assert(d[i] == t[i + 1] && d[j] == t[j + 1]);
        }
        lemma_list_in_at(d, m - 1);
    }
}

proof fn lemma_list_in_absent(t: Seq<OwnerPolicies>, o: Seq<char>)
    requires
        forall|m: int| 0 <= m < t.len() ==> (#[trigger] t[m]).owner@ != o,
    ensures
        list_in(t, o) == Seq::<PolicyEntry>::empty(),
    decreases t.len(),
{
    if t.len() > 0 {
        let d = t.drop_first();
        assert forall|m: int| 0 <= m < d.len() implies (#[trigger] d[m]).owner@ != o by {
            assert(d[m] == t[m + 1]);
        }
        lemma_list_in_absent(d, o);
    }
}

proof fn lemma_bucket_members(cfg: Seq<PolicyEntry>, o: Seq<char>, rank: u8)
    ensures
        forall|k: int| 0 <= k < bucket(cfg, o, rank).len() ==> in_bucket(#[trigger] bucket(cfg, o, rank)[k], o, rank),
    decreases cfg.len(),
{
    if cfg.len() > 0 {
        let rest = bucket(cfg.drop_last(), o, rank);
        lemma_bucket_members(cfg.drop_last(), o, rank);
        if in_bucket(cfg.last(), o, rank) {
            assert forall|k: int| 0 <= k < bucket(cfg, o, rank).len() implies in_bucket(#[trigger] bucket(cfg, o, rank)[k], o, rank) by {
                if k < rest.len() {
                    assert(bucket(cfg, o, rank)[k] == rest[k]);
                }
            }
        }
    }
}

proof fn lemma_bucket_empty(cfg: Seq<PolicyEntry>, o: Seq<char>, rank: u8)
    requires
        forall|k: int| 0 <= k < cfg.len() ==> !in_bucket(#[trigger] cfg[k], o, rank),
    ensures
        bucket(cfg, o, rank) == Seq::<PolicyEntry>::empty(),
    decreases cfg.len(),
{
    if cfg.len() > 0 {
        let d = cfg.drop_last();
        assert forall|k: int| 0 <= k < d.len() implies !in_bucket(#[trigger] d[k], o, rank) by {
            assert(d[k] == cfg[k]);
        }
        lemma_bucket_empty(d, o, rank);
    }
}

proof fn lemma_bucket_nonempty(cfg: Seq<PolicyEntry>, o: Seq<char>, rank: u8, k: int)
    requires
        0 <= k < cfg.len(),
        in_bucket(cfg[k], o, rank),
    ensures
        bucket(cfg, o, rank).len() > 0,
    decreases cfg.len(),
{
    if k < cfg.len() - 1 {
        let d = cfg.drop_last();
        assert(d[k] == cfg[k]);
        lemma_bucket_nonempty(d, o, rank, k);
    }
}

proof fn lemma_bucket_has(cfg: Seq<PolicyEntry>, o: Seq<char>, rank: u8, k: int)
    requires
        0 <= k < cfg.len(),
        in_bucket(cfg[k], o, rank),
    ensures
        bucket(cfg, o, rank).contains(cfg[k]),
    decreases cfg.len(),
{
    let b = bucket(cfg, o, rank);
    if k == cfg.len() - 1 {
        assert(b[b.len() - 1] == cfg[k]);
    } else {
        let d = cfg.drop_last();
        assert(d[k] == cfg[k]);
        lemma_bucket_has(d, o, rank, k);
        let rest = bucket(d, o, rank);
        let m = choose|m: int| 0 <= m < rest.len() && rest[m] == cfg[k];
        if in_bucket(cfg.last(), o, rank) {
            assert(b[m] == rest[m]);
        }
    }
}

proof fn lemma_bucket_from(cfg: Seq<PolicyEntry>, o: Seq<char>, rank: u8, m: int)
    requires
        0 <= m < bucket(cfg, o, rank).len(),
    ensures
        cfg.contains(bucket(cfg, o, rank)[m]),
    decreases cfg.len(),
{
    let d = cfg.drop_last();
    let rest = bucket(d, o, rank);
    if m < rest.len() {
        lemma_bucket_from(d, o, rank, m);
        let j = choose|j: int| 0 <= j < d.len() && d[j] == rest[m];
        assert(cfg[j] == d[j]);
        if in_bucket(cfg.last(), o, rank) {
            assert(bucket(cfg, o, rank)[m] == rest[m]);
        }
    } else {
        assert(bucket(cfg, o, rank)[m] == cfg[cfg.len() - 1]);
    }
}

proof fn lemma_first_match_concat(a: Seq<PolicyEntry>, b: Seq<PolicyEntry>, u: RepositoryUses)
    ensures
        first_match(a + b, u) == (if first_match(a, u) is Some {
            first_match(a, u)
        } else {
            first_match(b, u)
        }),
    decreases a.len(),
{
    if a.len() == 0 {
        assert(a + b =~= b);
    } else {
        assert((a + b).drop_first() =~= a.drop_first() + b);
        assert((a + b)[0] == a[0]);
        lemma_first_match_concat(a.drop_first(), b, u);
    }
}

proof fn lemma_first_match_props(l: Seq<PolicyEntry>, u: RepositoryUses)
    ensures
        first_match(l, u) is None ==> forall|k: int| 0 <= k < l.len() ==> !(#[trigger] l[k]).0.spec_matches(&u),
        first_match(l, u) is Some ==> l.contains(first_match(l, u)->0) && (first_match(l, u)->0).0.spec_matches(&u),
    decreases l.len(),
{
    if l.len() > 0 {
        let d = l.drop_first();
        lemma_first_match_props(d, u);
        if first_match(l, u) is None {
            assert forall|k: int| 0 <= k < l.len() implies !(#[trigger] l[k]).0.spec_matches(&u) by {
                if k > 0 {
                    assert(l[k] == d[k - 1]);
                }
            }
        }
        if first_match(l, u) is Some && !l[0].0.spec_matches(&u) {
            let e = first_match(l, u)->0;
            let m = choose|m: int| 0 <= m < d.len() && d[m] == e;
            assert(l[m + 1] == e);
        }
    }
}

/// Index of owner `o` in `t`, if present.
fn find_owner(t: &Vec<OwnerPolicies>, o: &String) -> (r: Option<usize>)
    ensures
        r is Some ==> r->0 < t.len() && t@[r->0 as int].owner@ == o@,
        r is None ==> forall|m: int| 0 <= m < t.len() ==> (#[trigger] t@[m]).owner@ != o@,
{
    let mut i: usize = 0;
    while i < t.len()
        invariant
            i <= t.len(),
            forall|m: int| 0 <= m < i ==> (#[trigger] t@[m]).owner@ != o@,
        decreases t.len() - i,
    {
        if t[i].owner == *o {
            return Some(i);
        }
        i = i + 1;
    }
    None
}

/// Appends `bucket(cfg, o, rank)` to `list`.
fn push_bucket(cfg: &Vec<PolicyEntry>, o: &String, rank: u8, list: &mut Vec<PolicyEntry>)
    ensures
        final(list)@ == old(list)@ + bucket(cfg@, o@, rank),
{
    let ghost start = list@;
    let mut j: usize = 0;
    while j < cfg.len()
        invariant
            j <= cfg.len(),
            list@ == start + bucket(cfg@.take(j as int), o@, rank),
        decreases cfg.len() - j,
    {
        assert(cfg@.take(j + 1).drop_last() =~= cfg@.take(j as int));
        assert(cfg@.take(j + 1).last() == cfg@[j as int]);
        let e = &cfg[j];
        let hit = match e.0.owner() {
            Some(eo) => *eo == *o && e.0.rank() == rank,
            None => false,
        };
        if hit {
            list.push((e.0.duplicate(), e.1));
            assert(list@ =~= start + bucket(cfg@.take(j + 1), o@, rank));
        }
        j = j + 1;
    }
    assert(cfg@.take(cfg.len() as int) =~= cfg@);
}

/// Owner `o`'s list: `owner_list(cfg, o)`, built bucket by bucket.
fn build_owner_list(cfg: &Vec<PolicyEntry>, o: &String) -> (r: Vec<PolicyEntry>)
    ensures
        r@ == owner_list(cfg@, o@),
        forall|k: int| 0 <= k < r.len() ==> {
            &&& (#[trigger] r@[k]).0.spec_owner() == Some(o@)
            &&& 1 <= r@[k].0.spec_rank() <= 4
        },
        forall|k: int, m: int| 0 <= k < m < r.len() ==> (#[trigger] r@[k]).0.spec_rank() <= (#[trigger] r@[m]).0.spec_rank(),
{
    let mut r: Vec<PolicyEntry> = Vec::new();
    let mut rank: u8 = 1;
    while rank <= 4
        invariant
            1 <= rank <= 5,
            rank == 1 ==> r@ == Seq::<PolicyEntry>::empty(),
            rank == 2 ==> r@ == bucket(cfg@, o@, 1),
            rank == 3 ==> r@ == bucket(cfg@, o@, 1) + bucket(cfg@, o@, 2),
            rank == 4 ==> r@ == bucket(cfg@, o@, 1) + bucket(cfg@, o@, 2) + bucket(cfg@, o@, 3),
            rank == 5 ==> r@ == owner_list(cfg@, o@),
            forall|k: int| 0 <= k < r.len() ==> {
                &&& (#[trigger] r@[k]).0.spec_owner() == Some(o@)
                &&& 1 <= r@[k].0.spec_rank() < rank
            },
            forall|k: int, m: int| 0 <= k < m < r.len() ==> (#[trigger] r@[k]).0.spec_rank() <= (#[trigger] r@[m]).0.spec_rank(),
        decreases 5 - rank,
    {
        let ghost before = r@;
        push_bucket(cfg, o, rank, &mut r);
        proof {
            lemma_bucket_members(cfg@, o@, rank);
            let b = bucket(cfg@, o@, rank);
            assert forall|k: int| before.len() <= k < r.len() implies in_bucket(#[trigger] r@[k], o@, rank) by {
                assert(r@[k] == b[k - before.len()]);
            }
        }
        rank = rank + 1;
    }
    r
}

impl UnpinnedUsesPolicies {
    /// Builds the policy tree of `config`: each pattern goes to its owner's
    /// list, sorted from most to least specific; `Any` sets the default
    /// (`HashPin` when none is configured). A pattern naming a ref is refused.
    pub fn try_from(config: &UnpinnedUsesConfig) -> (r: Result<UnpinnedUsesPolicies, ConfigError>)
        ensures
            r is Err <==> has_exact_ref(config.policies@),
            r is Err ==> r->Err_0 == ConfigError::ExactRefPattern,
            r is Ok ==> r->Ok_0.built_from(config.policies@),
    {
        let cfg = &config.policies;
        let mut i: usize = 0;
        let mut default_policy = UsesPolicy::HashPin;
        while i < cfg.len()
            invariant
                cfg@ == config.policies@,
                i <= cfg.len(),
                forall|k: int| 0 <= k < i ==> !((#[trigger] cfg@[k]).0 is ExactWithRef),
                default_policy == default_of(cfg@.take(i as int)),
            decreases cfg.len() - i,
        {
            assert(cfg@.take(i + 1).drop_last() =~= cfg@.take(i as int));
            match &cfg[i].0 {
                RepositoryUsesPattern::ExactWithRef { .. } => {
                    assert(cfg@[i as int].0 is ExactWithRef);
                    return Err(ConfigError::ExactRefPattern);
                },
                RepositoryUsesPattern::Any => {
                    default_policy = cfg[i].1;
                },
                _ => {},
            }
            i = i + 1;
        }
        assert(cfg@.take(cfg.len() as int) =~= cfg@);

        let mut tree: Vec<OwnerPolicies> = Vec::new();
        let mut i: usize = 0;
        while i < cfg.len()
            invariant
                cfg@ == config.policies@,
                i <= cfg.len(),
                forall|k: int| 0 <= k < cfg.len() ==> !((#[trigger] cfg@[k]).0 is ExactWithRef),
                forall|a: int, b: int|
                    0 <= a < b < tree.len() ==> (#[trigger] tree@[a]).owner@ != (#[trigger] tree@[b]).owner@,
                forall|a: int| 0 <= a < tree.len() ==> (#[trigger] tree@[a]).policies@ == owner_list(cfg@, tree@[a].owner@),
                forall|a: int| 0 <= a < tree.len() ==> (#[trigger] tree@[a]).policies.len() > 0,
                forall|a: int, k: int|
                    0 <= a < tree.len() && 0 <= k < tree@[a].policies.len() ==> {
                        let e = (#[trigger] tree@[a].policies@[k]);
                        &&& e.0.spec_owner() == Some(tree@[a].owner@)
                        &&& 1 <= e.0.spec_rank() <= 4
                    },
                forall|a: int, k: int, m: int|
                    0 <= a < tree.len() && 0 <= k < m < tree@[a].policies.len() ==> (
                    #[trigger] tree@[a].policies@[k]).0.spec_rank() <= (
                    #[trigger] tree@[a].policies@[m]).0.spec_rank(),
                forall|k: int| 0 <= k < i ==> (#[trigger] cfg@[k]).0.spec_owner() is Some ==>
                    exists|a: int| 0 <= a < tree.len() && Some((#[trigger] tree@[a]).owner@) == cfg@[k].0.spec_owner(),
            decreases cfg.len() - i,
        {
            if let Some(o) = cfg[i].0.owner() {
                if find_owner(&tree, o).is_none() {
                    let policies = build_owner_list(cfg, o);
                    proof {
                        let r = cfg@[i as int].0.spec_rank();
                        lemma_bucket_nonempty(cfg@, o@, r, i as int);
                    }
                    let ghost old_tree = tree@;
                    tree.push(OwnerPolicies { owner: o.clone(), policies });
                    proof {
                        assert(tree@[old_tree.len() as int].owner@ == o@);
                        assert forall|k: int| 0 <= k < i + 1 && (#[trigger] cfg@[k]).0.spec_owner() is Some implies
                            exists|a: int| 0 <= a < tree.len() && Some((#[trigger] tree@[a]).owner@) == cfg@[k].0.spec_owner() by {
                            if k < i {
                                let a = choose|a: int| 0 <= a < old_tree.len() && Some((#[trigger] old_tree[a]).owner@) == cfg@[k].0.spec_owner();
                                assert(tree@[a] == old_tree[a]);
                            } else {
                                assert(Some(tree@[old_tree.len() as int].owner@) == cfg@[k].0.spec_owner());
                            }
                        }
                    }
                }
            }
            i = i + 1;
        }
        let r = UnpinnedUsesPolicies { policy_tree: tree, default_policy };
        proof {
            assert forall|o: Seq<char>| #[trigger] r.list_for(o) == owner_list(cfg@, o) by {
                if exists|a: int| 0 <= a < tree.len() && (#[trigger] tree@[a]).owner@ == o {
                    let a = choose|a: int| 0 <= a < tree.len() && (#[trigger] tree@[a]).owner@ == o;
                    lemma_list_in_at(tree@, a);
                } else {
                    lemma_list_in_absent(tree@, o);
                    assert forall|k: int| 0 <= k < cfg.len() implies (#[trigger] cfg@[k]).0.spec_owner() != Some(o) by {
                        if cfg@[k].0.spec_owner() == Some(o) {
                            let a = choose|a: int| 0 <= a < tree.len() && Some((#[trigger] tree@[a]).owner@) == cfg@[k].0.spec_owner();
                        }
                    }
                    lemma_bucket_empty(cfg@, o, 1);
                    lemma_bucket_empty(cfg@, o, 2);
                    lemma_bucket_empty(cfg@, o, 3);
                    lemma_bucket_empty(cfg@, o, 4);
                    assert(owner_list(cfg@, o) =~= Seq::<PolicyEntry>::empty());
                }
            }
        }
        Ok(r)
    }

    /// The most specific configured pattern that matches `uses`, with its
    /// policy; or no pattern and the default policy.
    pub fn get_policy(&self, uses: &RepositoryUses) -> (r: (Option<RepositoryUsesPattern>, UsesPolicy))
        ensures
            r == self.lookup(*uses),
    {
        let t = &self.policy_tree;
        let mut i: usize = 0;
        assert(t@.subrange(0, t.len() as int) =~= t@);
        while i < t.len()
            invariant
                i <= t.len(),
                self.list_for(uses.owner@) == list_in(t@.subrange(i as int, t.len() as int), uses.owner@),
            decreases t.len() - i,
        {
            assert(t@.subrange(i as int, t.len() as int).drop_first() =~= t@.subrange(i + 1, t.len() as int));
            if t[i].owner == uses.owner {
                let l = &t[i].policies;
                let mut j: usize = 0;
                assert(l@.subrange(0, l.len() as int) =~= l@);
                while j < l.len()
                    invariant
                        j <= l.len(),
                        self.list_for(uses.owner@) == l@,
                        first_match(l@, *uses) == first_match(l@.subrange(j as int, l.len() as int), *uses),
                    decreases l.len() - j,
                {
                    assert(l@.subrange(j as int, l.len() as int).drop_first() =~= l@.subrange(j + 1, l.len() as int));
                    if l[j].0.matches(uses) {
                        return (Some(l[j].0.duplicate()), l[j].1);
                    }
                    j = j + 1;
                }
                return (None, self.default_policy);
            }
            i = i + 1;
        }
        (None, self.default_policy)
    }
}

/// A matching pattern other than `Any` is scoped to the reference's owner,
/// at one of the ranks that an owner's list holds.
proof fn lemma_match_in_bucket(cfg: Seq<PolicyEntry>, k: int, u: RepositoryUses)
    requires
        0 <= k < cfg.len(),
        cfg[k].0.spec_matches(&u),
        !(cfg[k].0 is Any),
    ensures
        1 <= cfg[k].0.spec_rank() <= 4,
        bucket(cfg, u.owner@, cfg[k].0.spec_rank()).contains(cfg[k]),
{
    lemma_bucket_has(cfg, u.owner@, cfg[k].0.spec_rank(), k);
}

/// The most specific pattern wins. When a lookup yields a pattern, that
/// pattern is configured with the policy returned, matches the reference,
/// and no configured pattern that matches it (`Any` aside) is more
/// specific. When it yields none, no configured pattern but `Any` matches
/// and the policy is the default.
pub proof fn lemma_most_specific_wins(t: UnpinnedUsesPolicies, cfg: Seq<PolicyEntry>, u: RepositoryUses)
    requires
        t.built_from(cfg),
    ensures
        t.lookup(u).0 is Some ==> {
            let p = t.lookup(u).0->0;
            &&& cfg.contains((p, t.lookup(u).1))
            &&& p.spec_matches(&u)
            &&& 1 <= p.spec_rank() <= 4
            &&& forall|k: int|
                0 <= k < cfg.len() && (#[trigger] cfg[k]).0.spec_matches(&u) && !(cfg[k].0 is Any)
                    ==> p.spec_rank() <= cfg[k].0.spec_rank()
        },
        t.lookup(u).0 is None ==> {
            &&& t.lookup(u).1 == default_of(cfg)
            &&& forall|k: int| 0 <= k < cfg.len() && (#[trigger] cfg[k]).0.spec_matches(&u) ==> cfg[k].0 is Any
        },
{
    let o = u.owner@;
    let b1 = bucket(cfg, o, 1);
    let b2 = bucket(cfg, o, 2);
    let b3 = bucket(cfg, o, 3);
    let b4 = bucket(cfg, o, 4);
    assert(t.list_for(o) == owner_list(cfg, o));
    lemma_first_match_concat(b1 + b2 + b3, b4, u);
    lemma_first_match_concat(b1 + b2, b3, u);
    lemma_first_match_concat(b1, b2, u);
    lemma_first_match_props(b1, u);
    lemma_first_match_props(b2, u);
    lemma_first_match_props(b3, u);
    lemma_first_match_props(b4, u);
    lemma_bucket_members(cfg, o, 1);
    lemma_bucket_members(cfg, o, 2);
    lemma_bucket_members(cfg, o, 3);
    lemma_bucket_members(cfg, o, 4);
    let fm = first_match(owner_list(cfg, o), u);
    assert forall|k: int|
        0 <= k < cfg.len() && (#[trigger] cfg[k]).0.spec_matches(&u) && !(cfg[k].0 is Any) implies {
            &&& fm is Some
            &&& (fm->0).0.spec_rank() <= cfg[k].0.spec_rank()
        } by {
        lemma_match_in_bucket(cfg, k, u);
        let r = cfg[k].0.spec_rank();
        let b = bucket(cfg, o, r);
        let m = choose|m: int| 0 <= m < b.len() && b[m] == cfg[k];
        if r == 1 {
            assert(b1[m] == cfg[k]);
        } else if r == 2 {
            assert(b2[m] == cfg[k]);
        } else if r == 3 {
            assert(b3[m] == cfg[k]);
        } else {
            assert(b4[m] == cfg[k]);
        }
        if first_match(b1, u) is Some {
            let e = first_match(b1, u)->0;
            let i = choose|i: int| 0 <= i < b1.len() && b1[i] == e;
            assert(in_bucket(b1[i], o, 1));
        } else if first_match(b2, u) is Some {
            let e = first_match(b2, u)->0;
            let i = choose|i: int| 0 <= i < b2.len() && b2[i] == e;
            assert(in_bucket(b2[i], o, 2));
        } else if first_match(b3, u) is Some {
            let e = first_match(b3, u)->0;
            let i = choose|i: int| 0 <= i < b3.len() && b3[i] == e;
            assert(in_bucket(b3[i], o, 3));
        } else if first_match(b4, u) is Some {
            let e = first_match(b4, u)->0;
            let i = choose|i: int| 0 <= i < b4.len() && b4[i] == e;
            assert(in_bucket(b4[i], o, 4));
        }
    }
    if fm is Some {
        let e = fm->0;
        if first_match(b1, u) is Some {
            let i = choose|i: int| 0 <= i < b1.len() && b1[i] == e;
            lemma_bucket_from(cfg, o, 1, i);
            assert(in_bucket(b1[i], o, 1));
        } else if first_match(b2, u) is Some {
            let i = choose|i: int| 0 <= i < b2.len() && b2[i] == e;
            lemma_bucket_from(cfg, o, 2, i);
            assert(in_bucket(b2[i], o, 2));
        } else if first_match(b3, u) is Some {
            let i = choose|i: int| 0 <= i < b3.len() && b3[i] == e;
            lemma_bucket_from(cfg, o, 3, i);
            assert(in_bucket(b3[i], o, 3));
        } else {
            let i = choose|i: int| 0 <= i < b4.len() && b4[i] == e;
            lemma_bucket_from(cfg, o, 4, i);
            assert(in_bucket(b4[i], o, 4));
        }
    }
}

/// Building twice from one configuration resolves every reference alike.
pub proof fn lemma_build_deterministic(
    t1: UnpinnedUsesPolicies,
    t2: UnpinnedUsesPolicies,
    cfg: Seq<PolicyEntry>,
    u: RepositoryUses,
)
    requires
        t1.built_from(cfg),
        t2.built_from(cfg),
    ensures
        t1.lookup(u) == t2.lookup(u),
{
    assert(t1.list_for(u.owner@) == t2.list_for(u.owner@));
}

/// Whether two optional strings have the same view.
pub open spec fn same_opt(a: Option<String>, b: Option<String>) -> bool {
    match (a, b) {
        (Some(x), Some(y)) => x@ == y@,
        (None, None) => true,
        _ => false,
    }
}

/// Whether two patterns are the same configuration key: one shape, equal fields.
pub open spec fn same_key(p: RepositoryUsesPattern, q: RepositoryUsesPattern) -> bool {
    match (p, q) {
        (
            RepositoryUsesPattern::ExactWithRef { owner: o1, repo: r1, subpath: s1, git_ref: g1 },
            RepositoryUsesPattern::ExactWithRef { owner: o2, repo: r2, subpath: s2, git_ref: g2 },
        ) => o1@ == o2@ && r1@ == r2@ && same_opt(s1, s2) && g1@ == g2@,
        (
            RepositoryUsesPattern::ExactPath { owner: o1, repo: r1, subpath: s1 },
            RepositoryUsesPattern::ExactPath { owner: o2, repo: r2, subpath: s2 },
        ) => o1@ == o2@ && r1@ == r2@ && s1@ == s2@,
        (
            RepositoryUsesPattern::ExactRepo { owner: o1, repo: r1 },
            RepositoryUsesPattern::ExactRepo { owner: o2, repo: r2 },
        ) => o1@ == o2@ && r1@ == r2@,
        (
            RepositoryUsesPattern::InRepo { owner: o1, repo: r1 },
            RepositoryUsesPattern::InRepo { owner: o2, repo: r2 },
        ) => o1@ == o2@ && r1@ == r2@,
        (RepositoryUsesPattern::InOwner(o1), RepositoryUsesPattern::InOwner(o2)) => o1@ == o2@,
        (RepositoryUsesPattern::Any, RepositoryUsesPattern::Any) => true,
        _ => false,
    }
}

/// A configuration is a mapping: no pattern is configured twice.
pub open spec fn unique_keys(cfg: Seq<PolicyEntry>) -> bool {
    forall|i: int, j: int| 0 <= i < j < cfg.len() ==> !same_key((#[trigger] cfg[i]).0, (#[trigger] cfg[j]).0)
}

proof fn lemma_unique_index(cfg: Seq<PolicyEntry>, i: int, j: int)
    requires
        unique_keys(cfg),
        0 <= i < cfg.len(),
        0 <= j < cfg.len(),
        same_key(cfg[i].0, cfg[j].0),
    ensures
        i == j,
{
    if i < j {
        assert(!same_key(cfg[i].0, cfg[j].0));
    } else if j < i {
        assert(!same_key(cfg[j].0, cfg[i].0));
        assert(same_key(cfg[j].0, cfg[i].0));
    }
}

proof fn lemma_default_source(cfg: Seq<PolicyEntry>)
    ensures
        (forall|k: int| 0 <= k < cfg.len() ==> !((#[trigger] cfg[k]).0 is Any)) ==> default_of(cfg)
            == UsesPolicy::HashPin,
        (exists|k: int| 0 <= k < cfg.len() && (#[trigger] cfg[k]).0 is Any) ==> exists|k: int|
            0 <= k < cfg.len() && (#[trigger] cfg[k]).0 is Any && default_of(cfg) == cfg[k].1,
    decreases cfg.len(),
{
    if cfg.len() > 0 {
        let d = cfg.drop_last();
        lemma_default_source(d);
        if !(cfg.last().0 is Any) {
            if exists|k: int| 0 <= k < cfg.len() && (#[trigger] cfg[k]).0 is Any {
                let k = choose|k: int| 0 <= k < cfg.len() && (#[trigger] cfg[k]).0 is Any;
                assert(d[k] == cfg[k]);
                let k2 = choose|k2: int| 0 <= k2 < d.len() && (#[trigger] d[k2]).0 is Any && default_of(d) == d[k2].1;
                assert(cfg[k2] == d[k2]);
            }
            if forall|k: int| 0 <= k < cfg.len() ==> !((#[trigger] cfg[k]).0 is Any) {
                assert forall|k: int| 0 <= k < d.len() implies !((#[trigger] d[k]).0 is Any) by {
                    assert(d[k] == cfg[k]);
                }
            }
        } else {
            assert(cfg[cfg.len() - 1].0 is Any);
        }
    }
}

/// Two patterns of one rank that match one reference are the same key.
proof fn lemma_same_rank_same_key(p: RepositoryUsesPattern, q: RepositoryUsesPattern, u: RepositoryUses)
    requires
        p.spec_matches(&u),
        q.spec_matches(&u),
        p.spec_rank() == q.spec_rank(),
    ensures
        same_key(p, q),
{
}

proof fn lemma_in_other(c1: Seq<PolicyEntry>, c2: Seq<PolicyEntry>, e: PolicyEntry)
    requires
        c1.to_multiset() == c2.to_multiset(),
        c1.contains(e),
    ensures
        c2.contains(e),
{
    broadcast use vstd::seq_lib::to_multiset_contains;

    assert(c1.to_multiset().count(e) > 0);
}

/// The order in which a configuration lists its patterns does not matter:
/// trees built from two orderings of one mapping resolve every reference
/// to the same pattern and policy.
pub proof fn lemma_config_order_irrelevant(
    t1: UnpinnedUsesPolicies,
    t2: UnpinnedUsesPolicies,
    c1: Seq<PolicyEntry>,
    c2: Seq<PolicyEntry>,
    u: RepositoryUses,
)
    requires
        t1.built_from(c1),
        t2.built_from(c2),
        c1.to_multiset() == c2.to_multiset(),
        unique_keys(c1),
        unique_keys(c2),
    ensures
        t1.lookup(u) == t2.lookup(u),
{
    lemma_most_specific_wins(t1, c1, u);
    lemma_most_specific_wins(t2, c2, u);
    let (q1, pol1) = t1.lookup(u);
    let (q2, pol2) = t2.lookup(u);
    if q1 is Some {
        let e1 = (q1->0, pol1);
        lemma_in_other(c1, c2, e1);
        let j = choose|j: int| 0 <= j < c2.len() && c2[j] == e1;
        assert(c2[j].0.spec_matches(&u) && !(c2[j].0 is Any));
    }
    if q2 is Some {
        let e2 = (q2->0, pol2);
        lemma_in_other(c2, c1, e2);
        let j = choose|j: int| 0 <= j < c1.len() && c1[j] == e2;
        assert(c1[j].0.spec_matches(&u) && !(c1[j].0 is Any));
    }
    if q1 is Some && q2 is Some {
        let e1 = (q1->0, pol1);
        let e2 = (q2->0, pol2);
        lemma_in_other(c2, c1, e2);
        let i1 = choose|i: int| 0 <= i < c1.len() && c1[i] == e1;
        let i2 = choose|i: int| 0 <= i < c1.len() && c1[i] == e2;
        lemma_same_rank_same_key(e1.0, e2.0, u);
        lemma_unique_index(c1, i1, i2);
    }
    if q1 is None && q2 is None {
        lemma_default_source(c1);
        lemma_default_source(c2);
        if exists|k: int| 0 <= k < c1.len() && (#[trigger] c1[k]).0 is Any {
            let k1 = choose|k: int| 0 <= k < c1.len() && (#[trigger] c1[k]).0 is Any && default_of(c1) == c1[k].1;
            lemma_in_other(c1, c2, c1[k1]);
            let j = choose|j: int| 0 <= j < c2.len() && c2[j] == c1[k1];
            assert(c2[j].0 is Any);
            let k2 = choose|k: int| 0 <= k < c2.len() && (#[trigger] c2[k]).0 is Any && default_of(c2) == c2[k].1;
            lemma_unique_index(c2, j, k2);
        } else if exists|k: int| 0 <= k < c2.len() && (#[trigger] c2[k]).0 is Any {
            let k2 = choose|k: int| 0 <= k < c2.len() && (#[trigger] c2[k]).0 is Any;
            lemma_in_other(c2, c1, c2[k2]);
            let j = choose|j: int| 0 <= j < c1.len() && c1[j] == c2[k2];
            assert(c1[j].0 is Any);
        }
    }
}

} // verus!
