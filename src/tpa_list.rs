//! Listing of the actions that a workflow text uses, with the third-party
//! ones that are not pinned to a commit hash singled out.

use vstd::prelude::*;

use crate::text::{
    chars_of, find_char, first_index, lemma_first_index_bound, lower_of, string_of, to_lower, trim,
    trim_of,
};
use crate::uses::is_hex_digit;

verus! {

/// The line shape that introduces a `uses:` value: optional indentation and
/// list dash, the key, then the value up to the end of the line.
pub const USES_LINE_PATTERN: &'static str = r"(?m)^\s*-?\s*uses:\s*([^\n]+)";

/// What the first group captures in each match of `pattern` in `text`, in
/// order of the matches; absent where the group took no part in a match.
pub uninterp spec fn group_one_of(pattern: Seq<char>, text: Seq<char>) -> Seq<Option<Seq<char>>>;

/// The texts of a list of optional captures.
pub open spec fn captured_texts(caps: Seq<Option<&str>>) -> Seq<Option<Seq<char>>> {
    Seq::new(
        caps.len(),
        |i: int|
            match caps[i] {
                Some(a) => Some(a@),
                None => None,
            },
    )
}

/// Whether `regex::Regex::new` accepts a pattern.
pub uninterp spec fn regex_valid(pattern: Seq<char>) -> bool;

/// Relies on `regex::Regex::new` (an error for an invalid pattern) and
/// `Regex::captures_iter`, `Captures::get(1)`: the first group of each
/// successive non-overlapping match.
#[verifier::external_body]
fn group_one_captures<'h>(pattern: &str, text: &'h str) -> (r: Option<Vec<Option<&'h str>>>)
    ensures
        r is Some <==> regex_valid(pattern@),
        r is Some ==> captured_texts(r->0@) == group_one_of(pattern@, text@),
{
    match regex::Regex::new(pattern) {
        Ok(re) => Some(re.captures_iter(text).map(|c| c.get(1).map(|m| m.as_str())).collect()),
        Err(_) => None,
    }
}

/// An action that a workflow uses.
#[derive(Clone, Debug)]
pub struct Action {
    /// The reference, e.g. `actions/checkout@v3`.
    pub reference: String,
    /// Whether it is pinned to a commit hash.
    pub pinned_to_sha: bool,
    /// Whether its owner is outside the official ones.
    pub third_party: bool,
    /// The `uses:` line that names it.
    pub line: String,
    /// The workflow file that uses it.
    pub file_path: String,
}

/// Counts over a list of actions.
#[derive(Clone, Copy, Debug, PartialEq, Eq, Structural)]
pub struct Summary {
    pub total_actions: usize,
    pub unpinned_third_party: usize,
    pub pinned_third_party: usize,
    pub official_actions: usize,
}

/// The text before the first `c`, or all of `s`.
pub open spec fn before_first(s: Seq<char>, c: char) -> Seq<char> {
    s.take(first_index(s, c))
}

/// The owner part of a reference: what precedes its first `/`.
pub open spec fn org_of(s: Seq<char>) -> Seq<char> {
    before_first(s, '/')
}

/// Whether a lowercased owner is an official one.
pub open spec fn is_official_lower(l: Seq<char>) -> bool {
    l == "actions"@ || l == "github"@ || l == "dependabot"@
}

/// Whether the reference's owner, lowercased, is an official one.
pub open spec fn is_official(s: Seq<char>) -> bool {
    is_official_lower(lower_of(org_of(s)))
}

/// Whether the part between the first `@` and the next `@` (or the end) is
/// at least forty hexadecimal digits.
pub open spec fn is_pinned(s: Seq<char>) -> bool {
    let i = first_index(s, '@');
    if i >= s.len() {
        false
    } else {
        let rest = s.subrange(i + 1, s.len() as int);
        let part = before_first(rest, '@');
        part.len() >= 40 && forall|k: int| 0 <= k < part.len() ==> is_hex_digit(#[trigger] part[k])
    }
}

/// Whether an action reference's owner is an official one.
pub fn is_official_action(action_ref: &str) -> (r: bool)
    ensures
        r == is_official(action_ref@),
{
    let cs = chars_of(action_ref);
    let end = find_char(&cs, 0, '/');
    assert(cs@.subrange(0, cs.len() as int) =~= cs@);
    proof {
        lemma_first_index_bound(cs@, '/');
    }
    let org = string_of(&cs, 0, end);
    let lower = to_lower(org.as_str());
    is_official_org(lower.as_str())
}

/// Whether an owner, already lowercased, is an official one.
pub fn is_official_org(lower: &str) -> (r: bool)
    ensures
        r == is_official_lower(lower@),
{
    let lower = String::from_str(lower);
    lower == String::from_str("actions") || lower == String::from_str("github") || lower
        == String::from_str("dependabot")
}

/// Whether an action reference is pinned to a commit hash.
pub fn is_pinned_to_sha(action_ref: &str) -> (r: bool)
    ensures
        r == is_pinned(action_ref@),
{
    let cs = chars_of(action_ref);
    let at = find_char(&cs, 0, '@');
    assert(cs@.subrange(0, cs.len() as int) =~= cs@);
    proof {
        lemma_first_index_bound(cs@, '@');
    }
    if at >= cs.len() {
        return false;
    }
    let start = at + 1;
    let end = find_char(&cs, start, '@');
    let ghost rest = cs@.subrange(start as int, cs.len() as int);
    proof {
        lemma_first_index_bound(rest, '@');
    }
    let ghost part = before_first(rest, '@');
    assert(part =~= cs@.subrange(start as int, end as int));
    if end - start < 40 {
        return false;
    }
    let mut i: usize = start;
    while i < end
        invariant
            start <= i <= end <= cs.len(),
            end - start >= 40,
            cs@ == action_ref@,
            at == first_index(cs@, '@'),
            at < cs.len(),
            start == at + 1,
            rest == cs@.subrange(start as int, cs.len() as int),
            part == before_first(rest, '@'),
            part == cs@.subrange(start as int, end as int),
            forall|k: int| 0 <= k < i - start ==> is_hex_digit(#[trigger] part[k]),
        decreases end - i,
    {
        let c = cs[i];
        if !(('0' <= c && c <= '9') || ('a' <= c && c <= 'f') || ('A' <= c && c <= 'F')) {
            assert(part[i - start] == c);
            return false;
        }
        i = i + 1;
    }
    true
}

/// The summary counts of `actions`: all, unpinned third-party, pinned
/// third-party, official.
pub open spec fn summary_of(actions: Seq<Action>) -> (nat, nat, nat, nat)
    decreases actions.len(),
{
    if actions.len() == 0 {
        (0, 0, 0, 0)
    } else {
        let (t, u, p, o) = summary_of(actions.drop_last());
        let a = actions.last();
        (
            t + 1,
            if a.third_party && !a.pinned_to_sha { u + 1 } else { u },
            if a.third_party && a.pinned_to_sha { p + 1 } else { p },
            if !a.third_party { o + 1 } else { o },
        )
    }
}

proof fn lemma_summary_bound(actions: Seq<Action>)
    ensures
        summary_of(actions).0 == actions.len(),
        summary_of(actions).1 <= actions.len(),
        summary_of(actions).2 <= actions.len(),
        summary_of(actions).3 <= actions.len(),
    decreases actions.len(),
{
    if actions.len() > 0 {
        lemma_summary_bound(actions.drop_last());
    }
}

/// Counts the actions: all of them, the third-party ones unpinned and
/// pinned, and the official ones.
pub fn generate_summary(actions: &[Action]) -> (r: Summary)
    ensures
        (r.total_actions as nat, r.unpinned_third_party as nat, r.pinned_third_party as nat, r.official_actions as nat) == summary_of(actions@),
{
    let mut r = Summary { total_actions: 0, unpinned_third_party: 0, pinned_third_party: 0, official_actions: 0 };
    let mut i: usize = 0;
    while i < actions.len()
        invariant
            i <= actions.len(),
            (r.total_actions as nat, r.unpinned_third_party as nat, r.pinned_third_party as nat, r.official_actions as nat) == summary_of(actions@.take(i as int)),
        decreases actions.len() - i,
    {
        proof {
            lemma_summary_bound(actions@.take(i + 1));
        }
        assert(actions@.take(i + 1).drop_last() =~= actions@.take(i as int));
        let a = &actions[i];
        r.total_actions = r.total_actions + 1;
        if a.third_party && !a.pinned_to_sha {
            r.unpinned_third_party = r.unpinned_third_party + 1;
        }
        if a.third_party && a.pinned_to_sha {
            r.pinned_third_party = r.pinned_third_party + 1;
        }
        if !a.third_party {
            r.official_actions = r.official_actions + 1;
        }
        i = i + 1;
    }
    assert(actions@.take(actions.len() as int) =~= actions@);
    r
}

pub open spec fn is_quote(c: char) -> bool {
    c == '\'' || c == '"'
}

/// Number of leading quote characters.
pub open spec fn lead_quotes(s: Seq<char>) -> int
    decreases s.len(),
{
    if s.len() > 0 && is_quote(s[0]) {
        1 + lead_quotes(s.drop_first())
    } else {
        0
    }
}

/// Number of trailing quote characters.
pub open spec fn trail_quotes(s: Seq<char>) -> int
    decreases s.len(),
{
    if s.len() > 0 && is_quote(s.last()) {
        1 + trail_quotes(s.drop_last())
    } else {
        0
    }
}

/// `s` without its leading and trailing quote characters.
pub open spec fn unquoted(s: Seq<char>) -> Seq<char> {
    let t = s.subrange(lead_quotes(s), s.len() as int);
    t.subrange(0, t.len() - trail_quotes(t))
}

/// Whether `s` begins with `p`.
pub open spec fn starts_with(s: Seq<char>, p: Seq<char>) -> bool {
    p.len() <= s.len() && s.take(p.len() as int) == p
}

/// The reference that a captured `uses:` value names, if it is one worth
/// listing: not empty, not a container image, and of the `owner/...` form.
pub open spec fn listed_ref(cap: Seq<char>) -> Option<Seq<char>> {
    listed_trimmed(trim_of(cap))
}

/// `listed_ref` of a value whose surrounding whitespace is already gone.
pub open spec fn listed_trimmed(a: Seq<char>) -> Option<Seq<char>> {
    if a.len() == 0 || starts_with(a, "docker://"@) {
        None
    } else {
        let c = unquoted(a);
        if c.contains('/') {
            Some(c)
        } else {
            None
        }
    }
}

/// The references listed from successive captures, each once, in order of
/// first appearance.
pub open spec fn listed_refs(caps: Seq<Option<Seq<char>>>) -> Seq<Seq<char>>
    decreases caps.len(),
{
    if caps.len() == 0 {
        Seq::empty()
    } else {
        let prev = listed_refs(caps.drop_last());
        match caps.last() {
            Some(cap) => match listed_ref(cap) {
                Some(r) => if prev.contains(r) {
                    prev
                } else {
                    prev.push(r)
                },
                None => prev,
            },
            None => prev,
        }
    }
}

proof fn lemma_lead_quotes(s: Seq<char>, i: int)
    requires
        0 <= i <= s.len(),
        forall|k: int| 0 <= k < i ==> is_quote(#[trigger] s[k]),
        i < s.len() ==> !is_quote(s[i]),
    ensures
        lead_quotes(s) == i,
    decreases s.len(),
{
    if i > 0 {
        let d = s.drop_first();
        assert forall|k: int| 0 <= k < i - 1 implies is_quote(#[trigger] d[k]) by {
            assert(d[k] == s[k + 1]);
        }
        lemma_lead_quotes(d, i - 1);
    }
}

proof fn lemma_trail_quotes(s: Seq<char>, j: int)
    requires
        0 <= j <= s.len(),
        forall|k: int| j <= k < s.len() ==> is_quote(#[trigger] s[k]),
        j > 0 ==> !is_quote(s[j - 1]),
    ensures
        trail_quotes(s) == s.len() - j,
    decreases s.len(),
{
    if j < s.len() {
        let d = s.drop_last();
        assert forall|k: int| j <= k < d.len() implies is_quote(#[trigger] d[k]) by {
            assert(d[k] == s[k]);
        }
        lemma_trail_quotes(d, j);
    }
}

/// The reference in a captured value, per `listed_ref`.
fn clean_ref(cap: &str) -> (r: Option<String>)
    ensures
        r is None <==> listed_ref(cap@) is None,
        r is Some ==> r->0@ == listed_ref(cap@)->0,
{
    listed_from_trimmed(trim(cap))
}

/// The reference in a captured value whose surrounding whitespace is
/// already gone: unquoted, unless it is empty, a container image, or not of
/// the `owner/...` form.
pub fn listed_from_trimmed(a: &str) -> (r: Option<String>)
    ensures
        r is None <==> listed_trimmed(a@) is None,
        r is Some ==> r->0@ == listed_trimmed(a@)->0,
{
    let cs = chars_of(a);
    if cs.len() == 0 {
        return None;
    }
    let prefix = chars_of("docker://");
    proof {
        reveal_strlit("docker://");
    }
    if cs.len() >= prefix.len() {
        let mut k: usize = 0;
        while k < prefix.len() && cs[k] == prefix[k]
            invariant
                k <= prefix.len() <= cs.len(),
                forall|m: int| 0 <= m < k ==> cs@[m] == prefix@[m],
            decreases prefix.len() - k,
        {
            k = k + 1;
        }
        if k == prefix.len() {
            assert(cs@.take(prefix.len() as int) =~= prefix@);
            return None;
        }
        assert(cs@.take(prefix.len() as int)[k as int] != prefix@[k as int]);
    }
    let mut i: usize = 0;
    while i < cs.len() && (cs[i] == '\'' || cs[i] == '"')
        invariant
            i <= cs.len(),
            forall|m: int| 0 <= m < i ==> is_quote(#[trigger] cs@[m]),
        decreases cs.len() - i,
    {
        i = i + 1;
    }
    proof {
        lemma_lead_quotes(cs@, i as int);
    }
    let ghost t = cs@.subrange(i as int, cs.len() as int);
    let mut j: usize = cs.len();
    while j > i && (cs[j - 1] == '\'' || cs[j - 1] == '"')
        invariant
            i <= j <= cs.len(),
            forall|m: int| j <= m < cs.len() ==> is_quote(#[trigger] cs@[m]),
        decreases j,
    {
        j = j - 1;
    }
    proof {
        assert forall|m: int| j - i <= m < t.len() implies is_quote(#[trigger] t[m]) by {
            assert(t[m] == cs@[i + m]);
        }
        if j > i {
            assert(t[j - i - 1] == cs@[j - 1]);
        }
        lemma_trail_quotes(t, j - i);
    }
    let mut k: usize = i;
    while k < j && cs[k] != '/'
        invariant
            i <= k <= j <= cs.len(),
            forall|m: int| i <= m < k ==> cs@[m] != '/',
        decreases j - k,
    {
        k = k + 1;
    }
    let ghost c = unquoted(a@);
    assert(c =~= cs@.subrange(i as int, j as int));
    if k == j {
        assert forall|m: int| 0 <= m < c.len() implies c[m] != '/' by {
            assert(c[m] == cs@[i + m]);
        }
        return None;
    }
    assert(c[k - i] == '/');
    Some(string_of(&cs, i, j))
}

/// Whether `seen` holds a string with the view of `s`.
fn seen_before(seen: &Vec<String>, s: &String) -> (r: bool)
    ensures
        r == exists|k: int| 0 <= k < seen.len() && (#[trigger] seen@[k])@ == s@,
{
    let mut i: usize = 0;
    while i < seen.len()
        invariant
            i <= seen.len(),
            forall|k: int| 0 <= k < i ==> (#[trigger] seen@[k])@ != s@,
        decreases seen.len() - i,
    {
        if seen[i] == *s {
            return true;
        }
        i = i + 1;
    }
    false
}

/// `"uses: {r}"`.
pub open spec fn uses_line(r: Seq<char>) -> Seq<char> {
    "uses: "@ + r
}

/// Whether `r` lists the references `refs`, in order, each as an action of
/// the file `file_path`.
pub open spec fn lists_refs(r: Seq<Action>, refs: Seq<Seq<char>>, file_path: Seq<char>) -> bool {
    &&& r.len() == refs.len()
    &&& forall|i: int|
        0 <= i < r.len() ==> {
            let a = #[trigger] r[i];
            &&& a.reference@ == refs[i]
            &&& a.pinned_to_sha == is_pinned(refs[i])
            &&& a.third_party == !is_official(refs[i])
            &&& a.line@ == uses_line(refs[i])
            &&& a.file_path@ == file_path
        }
}

/// Lists the actions that a workflow text uses: each `uses:` value that
/// names an `owner/...` reference, container images left out, unquoted,
/// each reference once in order of first appearance.
pub fn extract_actions_from_workflow(content: &str, file_path: &str) -> (r: Vec<Action>)
    ensures
        !regex_valid(USES_LINE_PATTERN@) ==> r.len() == 0,
        regex_valid(USES_LINE_PATTERN@) ==> lists_refs(
            r@,
            listed_refs(group_one_of(USES_LINE_PATTERN@, content@)),
            file_path@,
        ),
{
    match group_one_captures(USES_LINE_PATTERN, content) {
        Some(found) => actions_from_captures(&found, file_path),
        None => Vec::new(),
    }
}

/// The actions named by successive captured `uses:` values (absent where
/// the value took no part in its match), each reference once.
pub fn actions_from_captures(found: &Vec<Option<&str>>, file_path: &str) -> (r: Vec<Action>)
    ensures
        lists_refs(r@, listed_refs(captured_texts(found@)), file_path@),
{
    let mut actions: Vec<Action> = Vec::new();
    let mut seen: Vec<String> = Vec::new();
    let ghost caps = captured_texts(found@);
    let mut j: usize = 0;
    while j < found.len()
        invariant
            caps == captured_texts(found@),
            j <= found.len(),
            ({
                let refs = listed_refs(caps.take(j as int));
                &&& actions.len() == refs.len()
                &&& seen.len() == refs.len()
                &&& forall|i: int| 0 <= i < seen.len() ==> (#[trigger] seen@[i])@ == refs[i]
                &&& forall|i: int| 0 <= i < actions.len() ==> {
                    let a = #[trigger] actions@[i];
                    &&& a.reference@ == refs[i]
                    &&& a.pinned_to_sha == is_pinned(refs[i])
                    &&& a.third_party == !is_official(refs[i])
                    &&& a.line@ == uses_line(refs[i])
                    &&& a.file_path@ == file_path@
                }
            }),
        decreases found.len() - j,
    {
        let ghost prev = listed_refs(caps.take(j as int));
        assert(caps.take(j + 1).drop_last() =~= caps.take(j as int));
        assert(caps.take(j + 1).last() == caps[j as int]);
        let fj = found[j];
        if fj.is_none() {
            assert(caps[j as int] is None);
            assert(listed_refs(caps.take(j + 1)) == prev);
        }
        if let Some(cap) = fj {
            assert(caps[j as int] == Some(cap@));
            let cleaned = clean_ref(cap);
            if cleaned.is_none() {
                assert(listed_refs(caps.take(j + 1)) == prev);
            }
            if let Some(clean) = cleaned {
                let dup = seen_before(&seen, &clean);
                proof {
                    if prev.contains(clean@) {
                        let k = choose|k: int| 0 <= k < prev.len() && prev[k] == clean@;
                        assert(seen@[k]@ == prev[k]);
                    }
                    if dup {
                        let k = choose|k: int| 0 <= k < seen.len() && (#[trigger] seen@[k])@ == clean@;
                        assert(prev[k] == clean@);
                        assert(listed_refs(caps.take(j + 1)) == prev);
                    }
                }
                if !dup {
                    let pinned = is_pinned_to_sha(clean.as_str());
                    let official = is_official_action(clean.as_str());
                    let mut line = String::from_str("uses: ");
                    line.append(clean.as_str());
                    let ghost before = actions@;
                    let ghost seen_old = seen@;
                    seen.push(clean.clone());
                    actions.push(
                        Action {
                            reference: clean,
                            pinned_to_sha: pinned,
                            third_party: !official,
                            line,
                            file_path: String::from_str(file_path),
                        },
                    );
                    proof {
                        let refs = listed_refs(caps.take(j + 1));
                        assert(refs == prev.push(clean@));
                        assert forall|i: int| 0 <= i < seen.len() implies (#[trigger] seen@[i])@ == refs[i] by {
                            if i < seen_old.len() {
                                assert(seen@[i] == seen_old[i]);
                            }
                        }
                        assert forall|i: int| 0 <= i < actions.len() implies {
                            let a = #[trigger] actions@[i];
                            &&& a.reference@ == refs[i]
                            &&& a.pinned_to_sha == is_pinned(refs[i])
                            &&& a.third_party == !is_official(refs[i])
                            &&& a.line@ == uses_line(refs[i])
                            &&& a.file_path@ == file_path@
                        } by {
                            if i < before.len() {
                                assert(actions@[i] == before[i]);
                            }
                        }
                    }
                }
            }
        }
        j = j + 1;
    }
    assert(caps.take(found.len() as int) =~= caps);
    actions
}

/// `"{file_path}: uses: {reference}"`.
pub open spec fn report_line(a: Action) -> Seq<char> {
    a.file_path@ + ": uses: "@ + a.reference@
}

/// The report lines of the third-party actions not pinned to a hash, in order.
pub open spec fn report_lines(actions: Seq<Action>) -> Seq<Seq<char>>
    decreases actions.len(),
{
    if actions.len() == 0 {
        Seq::empty()
    } else {
        let prev = report_lines(actions.drop_last());
        let a = actions.last();
        if a.third_party && !a.pinned_to_sha {
            prev.push(report_line(a))
        } else {
            prev
        }
    }
}

/// One line per third-party action that is not pinned to a hash, naming
/// its file and reference.
pub fn tpa_lines(actions: &[Action]) -> (r: Vec<String>)
    ensures
        r.len() == report_lines(actions@).len(),
        forall|i: int| 0 <= i < r.len() ==> (#[trigger] r@[i])@ == report_lines(actions@)[i],
{
    let mut r: Vec<String> = Vec::new();
    let mut i: usize = 0;
    while i < actions.len()
        invariant
            i <= actions.len(),
            r.len() == report_lines(actions@.take(i as int)).len(),
            forall|k: int| 0 <= k < r.len() ==> (#[trigger] r@[k])@ == report_lines(actions@.take(i as int))[k],
        decreases actions.len() - i,
    {
        assert(actions@.take(i + 1).drop_last() =~= actions@.take(i as int));
        let a = &actions[i];
        if a.third_party && !a.pinned_to_sha {
            let mut line = a.file_path.clone();
            line.append(": uses: ");
            line.append(a.reference.as_str());
            r.push(line);
        }
        i = i + 1;
    }
    assert(actions@.take(actions.len() as int) =~= actions@);
    r
}

} // verus!
