//! The trust allowlist: owners exempt from the third-party hashing rule.

use vstd::prelude::*;

use crate::text::{lines_of, lower_of, split_lines, to_lower, trim, trim_of};

verus! {

/// Whether a trimmed allowlist-file line names an owner: it is neither
/// blank nor a `#` comment.
pub open spec fn is_entry_line(t: Seq<char>) -> bool {
    t.len() > 0 && t[0] != '#'
}

/// Whether a trimmed allowlist-file line names an owner.
pub fn is_entry(trimmed: &str) -> (r: bool)
    ensures
        r == is_entry_line(trimmed@),
{
    let cs = crate::text::chars_of(trimmed);
    cs.len() > 0 && cs[0] != '#'
}

/// The owners named by allowlist-file contents, lowercased.
pub open spec fn file_names(contents: Seq<char>) -> Set<Seq<char>> {
    Set::new(
        |x: Seq<char>|
            exists|i: int|
                0 <= i < lines_of(contents).len() && is_entry_line(
                    trim_of(#[trigger] lines_of(contents)[i]),
                ) && x == lower_of(trim_of(lines_of(contents)[i])),
    )
}

/// The owners of a list, lowercased.
pub open spec fn list_names(orgs: Seq<String>) -> Set<Seq<char>> {
    Set::new(|x: Seq<char>| exists|i: int| 0 <= i < orgs.len() && x == lower_of((#[trigger] orgs[i])@))
}

/// One source of trusted owners.
#[derive(Clone, Debug)]
pub enum AllowlistSource {
    /// The contents of an allowlist file: one owner per line.
    File(String),
    /// Owners given directly.
    Orgs(Vec<String>),
}

/// The owners that a source contributes.
pub open spec fn source_names(src: AllowlistSource) -> Set<Seq<char>> {
    match src {
        AllowlistSource::File(c) => file_names(c@),
        AllowlistSource::Orgs(v) => list_names(v@),
    }
}

/// `base` with the owners of each source added, first to last.
pub open spec fn merged(base: Set<Seq<char>>, srcs: Seq<AllowlistSource>) -> Set<Seq<char>>
    decreases srcs.len(),
{
    if srcs.len() == 0 {
        base
    } else {
        merged(base, srcs.drop_last()).union(source_names(srcs.last()))
    }
}

/// The built-in trusted owners, lowercased.
pub open spec fn default_names() -> Set<Seq<char>> {
    set![lower_of("actions"@), lower_of("github"@), lower_of("dependabot"@)]
}

/// A set of trusted owners, each stored lowercased.
#[derive(Clone, Debug)]
pub struct TrustAllowlist {
    pub orgs: Vec<String>,
}

impl View for TrustAllowlist {
    type V = Set<Seq<char>>;

    open spec fn view(&self) -> Set<Seq<char>> {
        Set::new(|x: Seq<char>| exists|i: int| 0 <= i < self.orgs.len() && x == (#[trigger] self.orgs@[i])@)
    }
}

impl TrustAllowlist {
    /// An allowlist holding nothing.
    pub fn empty() -> (r: Self)
        ensures
            r@ == Set::<Seq<char>>::empty(),
    {
        let r = TrustAllowlist { orgs: Vec::new() };
        assert(r@ =~= Set::<Seq<char>>::empty());
        r
    }

    /// An allowlist holding the built-in trusted owners.
    pub fn with_defaults() -> (r: Self)
        ensures
            r@ == default_names(),
    {
        let mut r = Self::empty();
        r.insert("actions");
        r.insert("github");
        r.insert("dependabot");
        assert(r@ =~= default_names());
        r
    }

    /// Whether `lower`, taken as already lowercased, is stored.
    pub fn holds(&self, lower: &String) -> (r: bool)
        ensures
            r == self@.contains(lower@),
    {
        let mut i: usize = 0;
        while i < self.orgs.len()
            invariant
                i <= self.orgs.len(),
                forall|k: int| 0 <= k < i ==> (#[trigger] self.orgs@[k])@ != lower@,
            decreases self.orgs.len() - i,
        {
            if self.orgs[i] == *lower {
                assert(self@.contains(lower@)) by {
                    assert(lower@ == self.orgs@[i as int]@);
                }
                return true;
            }
            i = i + 1;
        }
        false
    }

    /// Adds `org`, lowercased.
    pub fn insert(&mut self, org: &str)
        ensures
            final(self)@ == old(self)@.insert(lower_of(org@)),
    {
        let lower = to_lower(org);
        if !self.holds(&lower) {
            let ghost before = self.orgs@;
            self.orgs.push(lower);
            assert forall|x: Seq<char>| #[trigger] self@.contains(x) == old(self)@.insert(lower_of(org@)).contains(x) by {
                if old(self)@.contains(x) {
                    let k = choose|k: int| 0 <= k < before.len() && x == (#[trigger] before[k])@;
                    assert(self.orgs@[k] == before[k]);
                }
                if x == lower_of(org@) {
                    assert(self.orgs@[before.len() as int]@ == x);
                }
                if self@.contains(x) && x != lower_of(org@) {
                    let k = choose|k: int| 0 <= k < self.orgs.len() && x == (#[trigger] self.orgs@[k])@;
                    assert(self.orgs@[k] == before[k]);
                }
            }
        }
        assert(self@ =~= old(self)@.insert(lower_of(org@)));
    }

    /// Whether `owner`, lowercased, is trusted.
    pub fn contains(&self, owner: &str) -> (r: bool)
        ensures
            r == self@.contains(lower_of(owner@)),
    {
        let lower = to_lower(owner);
        self.holds(&lower)
    }

    /// Adds each owner of `orgs`.
    pub fn add_orgs(&mut self, orgs: &Vec<String>)
        ensures
            final(self)@ == old(self)@.union(list_names(orgs@)),
    {
        let ghost start = self@;
        let mut i: usize = 0;
        while i < orgs.len()
            invariant
                i <= orgs.len(),
                self@ == start.union(list_names(orgs@.take(i as int))),
            decreases orgs.len() - i,
        {
            let ghost prev = self@;
            let o = orgs[i].as_str();
            self.insert(o);
            assert(o@ == orgs@[i as int]@);
            assert(self@ == prev.insert(lower_of(orgs@[i as int]@)));
            assert(self@ =~= start.union(list_names(orgs@.take(i + 1)))) by {
                assert forall|x: Seq<char>| #[trigger] list_names(orgs@.take(i + 1)).contains(x) == (list_names(orgs@.take(i as int)).contains(x) || x == lower_of(orgs@[i as int]@)) by {
                    if list_names(orgs@.take(i + 1)).contains(x) {
                        let k = choose|k: int| 0 <= k < i + 1 && x == lower_of((#[trigger] orgs@.take(i + 1)[k])@);
                        if k < i {
                            assert(orgs@.take(i + 1)[k] == orgs@.take(i as int)[k]);
                        }
                    }
                    if list_names(orgs@.take(i as int)).contains(x) {
                        let k = choose|k: int| 0 <= k < i && x == lower_of((#[trigger] orgs@.take(i as int)[k])@);
                        assert(orgs@.take(i + 1)[k] == orgs@.take(i as int)[k]);
                    }
                    if x == lower_of(orgs@[i as int]@) {
                        assert(orgs@.take(i + 1)[i as int] == orgs@[i as int]);
                    }
                }
            }
            i = i + 1;
        }
        assert(orgs@.take(orgs.len() as int) =~= orgs@);
    }

    /// Adds each owner named in allowlist-file `contents`: one per line,
    /// trimmed; blank lines and `#` comments are skipped.
    pub fn add_file(&mut self, contents: &str)
        ensures
            final(self)@ == old(self)@.union(file_names(contents@)),
    {
        let ghost start = self@;
        let lines = split_lines(contents);
        let ghost ls = lines_of(contents@);
        let mut i: usize = 0;
        while i < lines.len()
            invariant
                i <= lines.len(),
                lines.len() == ls.len(),
                forall|k: int| 0 <= k < lines.len() ==> (#[trigger] lines@[k])@ == ls[k],
                self@ == start.union(Set::new(
                    |x: Seq<char>|
                        exists|k: int|
                            0 <= k < i && is_entry_line(trim_of(#[trigger] ls[k])) && x == lower_of(trim_of(ls[k])),
                )),
            decreases lines.len() - i,
        {
            let t = trim(lines[i]);
            let ghost prev = self@;
            if is_entry(t) {
                self.insert(t);
            }
            assert(self@ =~= start.union(Set::new(
                |x: Seq<char>|
                    exists|k: int|
                        0 <= k < i + 1 && is_entry_line(trim_of(#[trigger] ls[k])) && x == lower_of(trim_of(ls[k])),
            ))) by {
                assert(t@ == trim_of(ls[i as int]));
            }
            i = i + 1;
        }
        assert(self@ =~= old(self)@.union(file_names(contents@)));
    }

    /// Adds the owners of `src`.
    pub fn add_source(&mut self, src: &AllowlistSource)
        ensures
            final(self)@ == old(self)@.union(source_names(*src)),
    {
        match src {
            AllowlistSource::File(c) => self.add_file(c.as_str()),
            AllowlistSource::Orgs(v) => self.add_orgs(v),
        }
    }

    /// The built-in owners merged with every source, in order.
    pub fn from_sources(srcs: &Vec<AllowlistSource>) -> (r: Self)
        ensures
            r@ == merged(default_names(), srcs@),
    {
        let mut r = Self::with_defaults();
        let mut i: usize = 0;
        while i < srcs.len()
            invariant
                i <= srcs.len(),
                r@ == merged(default_names(), srcs@.take(i as int)),
            decreases srcs.len() - i,
        {
            r.add_source(&srcs[i]);
            assert(srcs@.take(i + 1).drop_last() =~= srcs@.take(i as int));
            i = i + 1;
        }
        assert(srcs@.take(srcs.len() as int) =~= srcs@);
        r
    }
}

/// Membership in a merged allowlist: in the base, or named by some source.
pub proof fn lemma_merged_contains(base: Set<Seq<char>>, srcs: Seq<AllowlistSource>, x: Seq<char>)
    ensures
        merged(base, srcs).contains(x) <==> (base.contains(x) || exists|i: int|
            0 <= i < srcs.len() && source_names(#[trigger] srcs[i]).contains(x)),
    decreases srcs.len(),
{
    if srcs.len() > 0 {
        let d = srcs.drop_last();
        lemma_merged_contains(base, d, x);
        if exists|i: int| 0 <= i < srcs.len() && source_names(#[trigger] srcs[i]).contains(x) {
            let i = choose|i: int| 0 <= i < srcs.len() && source_names(#[trigger] srcs[i]).contains(x);
            if i < d.len() {
                assert(d[i] == srcs[i]);
            }
        }
        if exists|i: int| 0 <= i < d.len() && source_names(#[trigger] d[i]).contains(x) {
            let i = choose|i: int| 0 <= i < d.len() && source_names(#[trigger] d[i]).contains(x);
            assert(d[i] == srcs[i]);
        }
    }
}

/// The trusted set does not depend on the order in which the sources are
/// merged: any reordering of the same sources yields the same owners.
pub proof fn lemma_source_order_irrelevant(
    base: Set<Seq<char>>,
    s1: Seq<AllowlistSource>,
    s2: Seq<AllowlistSource>,
)
    requires
        s1.to_multiset() == s2.to_multiset(),
    ensures
        merged(base, s1) == merged(base, s2),
{
    broadcast use vstd::seq_lib::to_multiset_contains;

    assert forall|x: Seq<char>| merged(base, s1).contains(x) == merged(base, s2).contains(x) by {
        lemma_merged_contains(base, s1, x);
        lemma_merged_contains(base, s2, x);
        if exists|i: int| 0 <= i < s1.len() && source_names(#[trigger] s1[i]).contains(x) {
            let i = choose|i: int| 0 <= i < s1.len() && source_names(#[trigger] s1[i]).contains(x);
            assert(s1.contains(s1[i]));
            assert(s1.to_multiset().count(s1[i]) > 0);
            assert(s2.contains(s1[i]));
        }
        if exists|i: int| 0 <= i < s2.len() && source_names(#[trigger] s2[i]).contains(x) {
            let i = choose|i: int| 0 <= i < s2.len() && source_names(#[trigger] s2[i]).contains(x);
            assert(s2.contains(s2[i]));
            assert(s2.to_multiset().count(s2[i]) > 0);
            assert(s1.contains(s2[i]));
        }
    }
    assert(merged(base, s1) =~= merged(base, s2));
}

} // verus!
