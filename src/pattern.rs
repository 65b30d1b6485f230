//! The pattern language that selects hosted-repository references.

use vstd::prelude::*;

use crate::text::{chars_of, find_char, first_index, lemma_first_index_bound, string_of};
use crate::uses::RepositoryUses;

verus! {

/// A pattern over hosted-repository references, from most to least specific.
#[derive(Clone, Debug)]
pub enum RepositoryUsesPattern {
    /// `owner/repo[/subpath]@ref`: one exact reference, ref included.
    ExactWithRef { owner: String, repo: String, subpath: Option<String>, git_ref: String },
    /// `owner/repo/subpath`: one exact path inside a repository.
    ExactPath { owner: String, repo: String, subpath: String },
    /// `owner/repo`: the repository itself, with no subpath.
    ExactRepo { owner: String, repo: String },
    /// `owner/repo/*`: anything in the repository.
    InRepo { owner: String, repo: String },
    /// `owner/*`: anything under the owner.
    InOwner(String),
    /// `*`: anything at all.
    Any,
}

/// Whether an optional string has the given view.
pub open spec fn opt_view_is(s: Option<String>, v: Seq<char>) -> bool {
    s is Some && s->0@ == v
}

impl RepositoryUsesPattern {
    /// Specificity rank: lower is more specific.
    pub open spec fn spec_rank(&self) -> u8 {
        match self {
            RepositoryUsesPattern::ExactWithRef { .. } => 0,
            RepositoryUsesPattern::ExactPath { .. } => 1,
            RepositoryUsesPattern::ExactRepo { .. } => 2,
            RepositoryUsesPattern::InRepo { .. } => 3,
            RepositoryUsesPattern::InOwner(_) => 4,
            RepositoryUsesPattern::Any => 5,
        }
    }

    #[verifier::when_used_as_spec(spec_rank)]
    pub fn rank(&self) -> (r: u8)
        ensures
            r == self.spec_rank(),
    {
        match self {
            RepositoryUsesPattern::ExactWithRef { .. } => 0,
            RepositoryUsesPattern::ExactPath { .. } => 1,
            RepositoryUsesPattern::ExactRepo { .. } => 2,
            RepositoryUsesPattern::InRepo { .. } => 3,
            RepositoryUsesPattern::InOwner(_) => 4,
            RepositoryUsesPattern::Any => 5,
        }
    }

    /// The owner a pattern is scoped to; `Any` has none.
    pub open spec fn spec_owner(&self) -> Option<Seq<char>> {
        match self {
            RepositoryUsesPattern::ExactWithRef { owner, .. } => Some(owner@),
            RepositoryUsesPattern::ExactPath { owner, .. } => Some(owner@),
            RepositoryUsesPattern::ExactRepo { owner, .. } => Some(owner@),
            RepositoryUsesPattern::InRepo { owner, .. } => Some(owner@),
            RepositoryUsesPattern::InOwner(owner) => Some(owner@),
            RepositoryUsesPattern::Any => None,
        }
    }

    pub fn owner(&self) -> (r: Option<&String>)
        ensures
            r is None <==> self.spec_owner() is None,
            r is Some ==> self.spec_owner() == Some(r->0@),
    {
        match self {
            RepositoryUsesPattern::ExactWithRef { owner, .. } => Some(owner),
            RepositoryUsesPattern::ExactPath { owner, .. } => Some(owner),
            RepositoryUsesPattern::ExactRepo { owner, .. } => Some(owner),
            RepositoryUsesPattern::InRepo { owner, .. } => Some(owner),
            RepositoryUsesPattern::InOwner(owner) => Some(owner),
            RepositoryUsesPattern::Any => None,
        }
    }

    /// Whether the pattern selects the reference. An `ExactWithRef` pattern
    /// names a ref, which a pinning rule never matches on: it selects nothing.
    pub open spec fn spec_matches(&self, u: &RepositoryUses) -> bool {
        match self {
            RepositoryUsesPattern::ExactWithRef { .. } => false,
            RepositoryUsesPattern::ExactPath { owner, repo, subpath } => owner@ == u.owner@
                && repo@ == u.repo@ && opt_view_is(u.subpath, subpath@),
            RepositoryUsesPattern::ExactRepo { owner, repo } => owner@ == u.owner@ && repo@
                == u.repo@ && u.subpath is None,
            RepositoryUsesPattern::InRepo { owner, repo } => owner@ == u.owner@ && repo@
                == u.repo@,
            RepositoryUsesPattern::InOwner(owner) => owner@ == u.owner@,
            RepositoryUsesPattern::Any => true,
        }
    }

    #[verifier::when_used_as_spec(spec_matches)]
    pub fn matches(&self, u: &RepositoryUses) -> (r: bool)
        ensures
            r == self.spec_matches(u),
    {
        match self {
            RepositoryUsesPattern::ExactWithRef { .. } => false,
            RepositoryUsesPattern::ExactPath { owner, repo, subpath } => {
                *owner == u.owner && *repo == u.repo && match &u.subpath {
                    Some(s) => *s == *subpath,
                    None => false,
                }
            },
            RepositoryUsesPattern::ExactRepo { owner, repo } => {
                *owner == u.owner && *repo == u.repo && u.subpath.is_none()
            },
            RepositoryUsesPattern::InRepo { owner, repo } => *owner == u.owner && *repo == u.repo,
            RepositoryUsesPattern::InOwner(owner) => *owner == u.owner,
            RepositoryUsesPattern::Any => true,
        }
    }

    /// A copy with the same field values.
    pub fn duplicate(&self) -> (r: Self)
        ensures
            r == *self,
    {
        match self {
            RepositoryUsesPattern::ExactWithRef { owner, repo, subpath, git_ref } => {
                let s = match subpath {
                    Some(s) => Some(s.clone()),
                    None => None,
                };
                RepositoryUsesPattern::ExactWithRef {
                    owner: owner.clone(),
                    repo: repo.clone(),
                    subpath: s,
                    git_ref: git_ref.clone(),
                }
            },
            RepositoryUsesPattern::ExactPath { owner, repo, subpath } => {
                RepositoryUsesPattern::ExactPath {
                    owner: owner.clone(),
                    repo: repo.clone(),
                    subpath: subpath.clone(),
                }
            },
            RepositoryUsesPattern::ExactRepo { owner, repo } => {
                RepositoryUsesPattern::ExactRepo { owner: owner.clone(), repo: repo.clone() }
            },
            RepositoryUsesPattern::InRepo { owner, repo } => {
                RepositoryUsesPattern::InRepo { owner: owner.clone(), repo: repo.clone() }
            },
            RepositoryUsesPattern::InOwner(owner) => RepositoryUsesPattern::InOwner(owner.clone()),
            RepositoryUsesPattern::Any => RepositoryUsesPattern::Any,
        }
    }
}

/// A pattern's fields as plain text: its rank, owner, repo, subpath and
/// ref, each empty where the shape has none.
pub type PatternKey = (u8, Seq<char>, Seq<char>, Seq<char>, Seq<char>);

/// The key of a pattern.
pub open spec fn key_of(p: RepositoryUsesPattern) -> PatternKey {
    let e = Seq::<char>::empty();
    match p {
        RepositoryUsesPattern::ExactWithRef { owner, repo, subpath, git_ref } => (
            0,
            owner@,
            repo@,
            match subpath {
                Some(x) => x@,
                None => e,
            },
            git_ref@,
        ),
        RepositoryUsesPattern::ExactPath { owner, repo, subpath } => (1, owner@, repo@, subpath@, e),
        RepositoryUsesPattern::ExactRepo { owner, repo } => (2, owner@, repo@, e, e),
        RepositoryUsesPattern::InRepo { owner, repo } => (3, owner@, repo@, e, e),
        RepositoryUsesPattern::InOwner(owner) => (4, owner@, e, e, e),
        RepositoryUsesPattern::Any => (5, e, e, e, e),
    }
}

/// An owner or repository name: not empty, and free of `/`, `@` and `*`.
pub open spec fn is_name(x: Seq<char>) -> bool {
    x.len() > 0 && !x.contains('/') && !x.contains('@') && !x.contains('*')
}

/// A subpath or ref: not empty, and free of `@` and `*`.
pub open spec fn is_segment(x: Seq<char>) -> bool {
    x.len() > 0 && !x.contains('@') && !x.contains('*')
}

/// The pattern that a configuration key spells: `*`, `owner/*`,
/// `owner/repo/*`, `owner/repo`, `owner/repo/subpath`, or
/// `owner/repo[/subpath]@ref`; none for any other text.
pub open spec fn parse_key(s: Seq<char>) -> Option<PatternKey> {
    let e = Seq::<char>::empty();
    if s == "*"@ {
        Some((5, e, e, e, e))
    } else {
        let at = first_index(s, '@');
        let path = s.take(at);
        let slash = first_index(path, '/');
        let owner = path.take(slash);
        let rest = path.subrange(slash + 1, path.len() as int);
        let slash2 = first_index(rest, '/');
        let repo = rest.take(slash2);
        let sub = rest.subrange(slash2 + 1, rest.len() as int);
        if slash >= path.len() || !is_name(owner) {
            None
        } else if at < s.len() {
            let git_ref = s.subrange(at + 1, s.len() as int);
            if !is_segment(git_ref) || !is_name(repo) {
                None
            } else if slash2 >= rest.len() {
                Some((0, owner, repo, e, git_ref))
            } else if is_segment(sub) {
                Some((0, owner, repo, sub, git_ref))
            } else {
                None
            }
        } else if rest == "*"@ {
            Some((4, owner, e, e, e))
        } else if !is_name(repo) {
            None
        } else if slash2 >= rest.len() {
            Some((2, owner, repo, e, e))
        } else if sub == "*"@ {
            Some((3, owner, repo, e, e))
        } else if is_segment(sub) {
            Some((1, owner, repo, sub, e))
        } else {
            None
        }
    }
}

/// Whether `cs[from..to]` holds `c`.
fn has_char(cs: &Vec<char>, from: usize, to: usize, c: char) -> (r: bool)
    requires
        from <= to <= cs.len(),
    ensures
        r == cs@.subrange(from as int, to as int).contains(c),
{
    let mut i: usize = from;
    while i < to
        invariant
            from <= i <= to <= cs.len(),
            forall|k: int| from <= k < i ==> cs@[k] != c,
        decreases to - i,
    {
        if cs[i] == c {
            assert(cs@.subrange(from as int, to as int)[i - from] == c);
            return true;
        }
        i = i + 1;
    }
    assert forall|k: int| 0 <= k < to - from implies cs@.subrange(from as int, to as int)[k] != c by {
        assert(cs@.subrange(from as int, to as int)[k] == cs@[from + k]);
    }
    false
}

/// Whether `cs[from..to]` is a name.
fn name_at(cs: &Vec<char>, from: usize, to: usize) -> (r: bool)
    requires
        from <= to <= cs.len(),
    ensures
        r == is_name(cs@.subrange(from as int, to as int)),
{
    from < to && !has_char(cs, from, to, '/') && !has_char(cs, from, to, '@') && !has_char(cs, from, to, '*')
}

/// Whether `cs[from..to]` is a subpath or ref.
fn segment_at(cs: &Vec<char>, from: usize, to: usize) -> (r: bool)
    requires
        from <= to <= cs.len(),
    ensures
        r == is_segment(cs@.subrange(from as int, to as int)),
{
    from < to && !has_char(cs, from, to, '@') && !has_char(cs, from, to, '*')
}

/// Whether `cs[from..to]` is exactly `*`.
fn star_at(cs: &Vec<char>, from: usize, to: usize) -> (r: bool)
    requires
        from <= to <= cs.len(),
    ensures
        r == (cs@.subrange(from as int, to as int) == "*"@),
{
    proof {
        reveal_strlit("*");
    }
    let ghost t = cs@.subrange(from as int, to as int);
    if to - from == 1 && cs[from] == '*' {
        assert(t =~= "*"@);
        true
    } else {
        if to - from == 1 {
            assert(t[0] != "*"@[0]);
        } else {
            assert(t.len() != "*"@.len());
        }
        false
    }
}

impl RepositoryUsesPattern {
    /// Reads a configuration key; `None` where it spells no pattern.
    pub fn parse(s: &str) -> (r: Option<RepositoryUsesPattern>)
        ensures
            r is None <==> parse_key(s@) is None,
            r is Some ==> key_of(r->0) == parse_key(s@)->0,
    {
        let cs = chars_of(s);
        let n = cs.len();
        let ghost e = Seq::<char>::empty();
        assert(cs@.subrange(0, n as int) =~= cs@);
        if star_at(&cs, 0, n) {
            return Some(RepositoryUsesPattern::Any);
        }
        let at = find_char(&cs, 0, '@');
        proof {
            lemma_first_index_bound(cs@, '@');
        }
        let ghost path = cs@.take(at as int);
        assert(path =~= cs@.subrange(0, at as int));
        let slash = find_char(&cs, 0, '/');
        proof {
            lemma_first_index_bound(cs@, '/');
            lemma_first_index_bound(path, '/');
        }
        // The first `/` of the path is the first of the whole text, if it
        // comes before the `@`.
        let slash = if slash < at { slash } else { at };
        proof {
            if slash < at {
                crate::text::lemma_first_index_unique(path, '/', slash as int);
            } else {
                assert forall|k: int| 0 <= k < path.len() implies path[k] != '/' by {
                    assert(path[k] == cs@[k]);
                }
                crate::text::lemma_first_index_unique(path, '/', path.len() as int);
            }
        }
        let ghost owner = path.take(slash as int);
        assert(owner =~= cs@.subrange(0, slash as int));
        if slash >= at || !name_at(&cs, 0, slash) {
            return None;
        }
        let ghost rest = path.subrange(slash + 1, path.len() as int);
        assert(rest =~= cs@.subrange(slash + 1, at as int));
        let slash2 = find_char(&cs, slash + 1, '/');
        let slash2 = if slash2 < at { slash2 } else { at };
        proof {
            let t = cs@.subrange(slash + 1, n as int);
            lemma_first_index_bound(t, '/');
            if slash2 < at {
                assert forall|k: int| 0 <= k < slash2 - slash - 1 implies rest[k] != '/' by {
                    assert(rest[k] == t[k]);
                }
                assert(rest[slash2 - slash - 1] == t[slash2 - slash - 1]);
                crate::text::lemma_first_index_unique(rest, '/', slash2 - slash - 1);
            } else {
                assert forall|k: int| 0 <= k < rest.len() implies rest[k] != '/' by {
                    assert(rest[k] == t[k]);
                }
                crate::text::lemma_first_index_unique(rest, '/', rest.len() as int);
            }
        }
        let ghost repo = rest.take(slash2 - slash - 1);
        assert(repo =~= cs@.subrange(slash + 1, slash2 as int));
        let ghost sub = rest.subrange(slash2 - slash, rest.len() as int);
        let owner_s = string_of(&cs, 0, slash);
        if at < n {
            let ghost git_ref = cs@.subrange(at + 1, n as int);
            if !segment_at(&cs, at + 1, n) || !name_at(&cs, slash + 1, slash2) {
                return None;
            }
            let repo_s = string_of(&cs, slash + 1, slash2);
            let ref_s = string_of(&cs, at + 1, n);
            if slash2 >= at {
                return Some(
                    RepositoryUsesPattern::ExactWithRef {
                        owner: owner_s,
                        repo: repo_s,
                        subpath: None,
                        git_ref: ref_s,
                    },
                );
            }
            assert(sub =~= cs@.subrange(slash2 + 1, at as int));
            if segment_at(&cs, slash2 + 1, at) {
                let sub_s = string_of(&cs, slash2 + 1, at);
                return Some(
                    RepositoryUsesPattern::ExactWithRef {
                        owner: owner_s,
                        repo: repo_s,
                        subpath: Some(sub_s),
                        git_ref: ref_s,
                    },
                );
            }
            return None;
        }
        if star_at(&cs, slash + 1, at) {
            return Some(RepositoryUsesPattern::InOwner(owner_s));
        }
        if !name_at(&cs, slash + 1, slash2) {
            return None;
        }
        let repo_s = string_of(&cs, slash + 1, slash2);
        if slash2 >= at {
            return Some(RepositoryUsesPattern::ExactRepo { owner: owner_s, repo: repo_s });
        }
        assert(sub =~= cs@.subrange(slash2 + 1, at as int));
        if star_at(&cs, slash2 + 1, at) {
            return Some(RepositoryUsesPattern::InRepo { owner: owner_s, repo: repo_s });
        }
        if segment_at(&cs, slash2 + 1, at) {
            let sub_s = string_of(&cs, slash2 + 1, at);
            return Some(RepositoryUsesPattern::ExactPath { owner: owner_s, repo: repo_s, subpath: sub_s });
        }
        None
    }
}

/// The text by which a finding names the pattern that imposed its policy.
pub open spec fn description(p: Option<RepositoryUsesPattern>) -> Seq<char> {
    match p {
        None => "blanket"@,
        Some(RepositoryUsesPattern::Any) => "blanket"@,
        Some(RepositoryUsesPattern::InOwner(owner)) => owner@ + "/*"@,
        Some(RepositoryUsesPattern::InRepo { owner, repo }) => owner@ + "/"@ + repo@ + "/*"@,
        Some(RepositoryUsesPattern::ExactRepo { owner, repo }) => owner@ + "/"@ + repo@,
        Some(RepositoryUsesPattern::ExactPath { owner, repo, subpath }) => owner@ + "/"@ + repo@
            + "/"@ + subpath@,
        Some(RepositoryUsesPattern::ExactWithRef { owner, repo, subpath, git_ref }) => owner@
            + "/"@ + repo@ + match subpath {
            Some(sp) => "/"@ + sp@,
            None => Seq::empty(),
        } + "@"@ + git_ref@,
    }
}

/// Renders `description(p)`.
pub fn describe(p: &Option<RepositoryUsesPattern>) -> (r: String)
    ensures
        r@ == description(*p),
{
    match p {
        None => String::from_str("blanket"),
        Some(RepositoryUsesPattern::Any) => String::from_str("blanket"),
        Some(RepositoryUsesPattern::InOwner(owner)) => {
            let mut r = owner.clone();
            r.append("/*");
            r
        },
        Some(RepositoryUsesPattern::InRepo { owner, repo }) => {
            let mut r = owner.clone();
            r.append("/");
            r.append(repo.as_str());
            r.append("/*");
            r
        },
        Some(RepositoryUsesPattern::ExactRepo { owner, repo }) => {
            let mut r = owner.clone();
            r.append("/");
            r.append(repo.as_str());
            r
        },
        Some(RepositoryUsesPattern::ExactPath { owner, repo, subpath }) => {
            let mut r = owner.clone();
            r.append("/");
            r.append(repo.as_str());
            r.append("/");
            r.append(subpath.as_str());
            r
        },
        Some(RepositoryUsesPattern::ExactWithRef { owner, repo, subpath, git_ref }) => {
            let mut r = owner.clone();
            r.append("/");
            r.append(repo.as_str());
            if let Some(sp) = subpath {
                r.append("/");
                r.append(sp.as_str());
            }
            r.append("@");
            r.append(git_ref.as_str());
            proof {
                let tail = match subpath {
                    Some(sp) => "/"@ + sp@,
                    None => Seq::<char>::empty(),
                };
                assert(r@ =~= owner@ + "/"@ + repo@ + tail + "@"@ + git_ref@);
            }
            r
        },
    }
}

} // verus!
