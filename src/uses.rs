//! The `uses:` reference model: where a reference points and how it is pinned.

use vstd::prelude::*;

use crate::text::chars_of;

verus! {

/// How strongly a reference is pinned.
#[derive(Clone, Copy, Debug, PartialEq, Eq, Structural)]
pub enum PinState {
    /// No ref, tag, branch or hash at all.
    Unpinned,
    /// Pinned to a branch or other mutable ref.
    PinnedToRefOrBranch,
    /// Pinned to a tag.
    PinnedToTag,
    /// Pinned to a full commit hash or image digest.
    PinnedToHash,
}

impl PinState {
    /// No selector at all.
    pub open spec fn spec_unpinned(&self) -> bool {
        *self == PinState::Unpinned
    }

    /// Anything short of a full hash, including no selector at all.
    pub open spec fn spec_unhashed(&self) -> bool {
        *self != PinState::PinnedToHash
    }

    #[verifier::when_used_as_spec(spec_unpinned)]
    pub fn unpinned(&self) -> (r: bool)
        ensures
            r == self.spec_unpinned(),
    {
        match self {
            PinState::Unpinned => true,
            _ => false,
        }
    }

    #[verifier::when_used_as_spec(spec_unhashed)]
    pub fn unhashed(&self) -> (r: bool)
        ensures
            r == self.spec_unhashed(),
    {
        match self {
            PinState::PinnedToHash => false,
            _ => true,
        }
    }
}


/// A full commit hash: forty hexadecimal digits.
pub open spec fn is_commit_hash(s: Seq<char>) -> bool {
    s.len() == 40 && forall|i: int| 0 <= i < s.len() ==> is_hex_digit(#[trigger] s[i])
}

pub open spec fn is_hex_digit(c: char) -> bool {
    ('0' <= c <= '9') || ('a' <= c <= 'f') || ('A' <= c <= 'F')
}

impl PinState {
    /// The pin state of a repository reference with the given `@<ref>`.
    pub fn of_git_ref(git_ref: Option<&str>) -> (r: PinState)
        ensures
            git_ref is None ==> r == PinState::Unpinned,
            git_ref is Some && is_commit_hash(git_ref->0@) ==> r == PinState::PinnedToHash,
            git_ref is Some && !is_commit_hash(git_ref->0@) ==> r == PinState::PinnedToRefOrBranch,
    {
        match git_ref {
            None => PinState::Unpinned,
            Some(g) => {
                let cs = chars_of(g);
                if cs.len() != 40 {
                    return PinState::PinnedToRefOrBranch;
                }
                let mut i: usize = 0;
                while i < cs.len()
                    invariant
                        cs@ == g@,
                        git_ref == Some(g),
                        cs.len() == 40,
                        i <= cs.len(),
                        forall|k: int| 0 <= k < i ==> is_hex_digit(#[trigger] cs@[k]),
                    decreases cs.len() - i,
                {
                    let c = cs[i];
                    if !(('0' <= c && c <= '9') || ('a' <= c && c <= 'f') || ('A' <= c && c <= 'F')) {
                        return PinState::PinnedToRefOrBranch;
                    }
                    i = i + 1;
                }
                PinState::PinnedToHash
            },
        }
    }

    /// The pin state of a container image with the given tag and digest.
    pub fn of_image(tag: Option<&str>, hash: Option<&str>) -> (r: PinState)
        ensures
            hash is Some ==> r == PinState::PinnedToHash,
            hash is None && tag is Some ==> r == PinState::PinnedToTag,
            hash is None && tag is None ==> r == PinState::Unpinned,
    {
        match (tag, hash) {
            (_, Some(_)) => PinState::PinnedToHash,
            (Some(_), None) => PinState::PinnedToTag,
            (None, None) => PinState::Unpinned,
        }
    }
}

/// A `uses: owner/repo[/subpath]@ref` reference to a hosted repository.
#[derive(Clone, Debug)]
pub struct RepositoryUses {
    pub owner: String,
    pub repo: String,
    pub subpath: Option<String>,
    pub pin: PinState,
}

/// A `uses: docker://image` reference to a container image.
#[derive(Clone, Debug)]
pub struct DockerUses {
    pub image: String,
    pub pin: PinState,
}

/// A `uses:` reference, by origin.
#[derive(Clone, Debug)]
pub enum Uses {
    /// A path inside the repository itself.
    Local,
    /// A container image.
    Docker(DockerUses),
    /// An action or reusable workflow in a hosted repository.
    Repository(RepositoryUses),
}

} // verus!
