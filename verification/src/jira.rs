//! The issue tracker's issues as the workflow uses them: the order they are
//! offered in, lookup by key, the query, and the hints shown on API errors.
use vstd::prelude::*;
use crate::order::{is_stable_order, stable_order, SortKey};
use crate::text::{chars_of, first_index, is_first_index, lemma_first_index_is, lemma_first_index_none, str_eq, to_owned_string};

verus! {

/// An issue's assignee.
#[derive(Clone, Debug)]
pub struct JiraUser {
    pub display_name: String,
}

/// An issue's workflow status.
#[derive(Clone, Debug)]
pub struct JiraStatus {
    pub name: String,
}

/// The fields of an issue that are read.
#[derive(Clone, Debug)]
pub struct JiraFields {
    pub summary: String,
    pub status: JiraStatus,
    pub assignee: Option<JiraUser>,
}

/// An issue.
#[derive(Clone, Debug)]
pub struct JiraIssue {
    pub key: String,
    pub fields: JiraFields,
}

/// The sort key of each issue: assigned issues first, then by status name,
/// then by key.
pub open spec fn issue_keys(issues: Seq<JiraIssue>) -> Seq<(u64, Seq<char>, Seq<char>)> {
    issues.map_values(
        |i: JiraIssue|
            (
                if i.fields.assignee is Some {
                    0u64
                } else {
                    1u64
                },
                i.fields.status.name@,
                i.key@,
            ),
    )
}

/// The order issues are offered in: assigned ones first, then by status
/// name, then by key, ties kept in their order.
pub fn issue_order(issues: &Vec<JiraIssue>) -> (r: Vec<usize>)
    ensures
        is_stable_order(issue_keys(issues@), r@),
{
    let mut keys: Vec<SortKey> = Vec::new();
    let mut i: usize = 0;
    while i < issues.len()
        invariant
            i <= issues@.len(),
            keys@.len() == i,
            forall|j: int|
                0 <= j < i ==> crate::order::key_view(#[trigger] keys@[j]) == issue_keys(issues@)[j],
        decreases issues.len() - i,
    {
        let issue = &issues[i];
        let rank: u64 = if issue.fields.assignee.is_some() {
            0
        } else {
            1
        };
        keys.push(
            SortKey {
                rank,
                first: chars_of(issue.fields.status.name.as_str()),
                second: chars_of(issue.key.as_str()),
            },
        );
        i += 1;
    }
    assert(crate::order::keys_view(keys@) =~= issue_keys(issues@));
    stable_order(&keys)
}

/// The issue with key `key`, the first one if several have it.
pub fn find_issue(issues: &Vec<JiraIssue>, key: &str) -> (r: Option<usize>)
    ensures
        match r {
            Some(i) => first_index(issues@, |x: JiraIssue| x.key@ == key@) == Some(i as int),
            None => first_index(issues@, |x: JiraIssue| x.key@ == key@) is None,
        },
{
    let ghost p = |x: JiraIssue| x.key@ == key@;
    let mut i: usize = 0;
    while i < issues.len()
        invariant
            i <= issues@.len(),
            p == (|x: JiraIssue| x.key@ == key@),
            forall|j: int| 0 <= j < i ==> !p(issues@[j]),
        decreases issues.len() - i,
    {
        if str_eq(issues[i].key.as_str(), key) {
            proof {
                assert(is_first_index(issues@, p, i as int));
                lemma_first_index_is(issues@, p, i as int);
            }
            return Some(i);
        }
        i += 1;
    }
    proof {
        lemma_first_index_none(issues@, p);
    }
    None
}

/// The query of the issue list: the quick filter's JQL, then a space and
/// the configured extension when there is one.
pub fn extend_jql(jql: &str, extension: Option<&str>) -> (r: String)
    ensures
        r@ == match extension {
            Some(e) => jql@ + " "@ + e@,
            None => jql@,
        },
{
    let mut r = to_owned_string(jql);
    match extension {
        Some(e) => {
            r.append(" ");
            r.append(e);
        },
        None => {},
    }
    r
}

/// The hint shown after an API error with HTTP status `code`.
pub open spec fn status_hint(code: u16) -> Seq<char> {
    if code == 401 {
        "\n  → Your Jira token may be invalid or expired. Regenerate it and update the env var."@
    } else if code == 403 {
        "\n  → Your Jira account may lack permission to access this board or resource."@
    } else if code == 404 {
        "\n  → Board ID or quick-filter ID not found. Check 'boardId' and 'quickFilterId' in your config."@
    } else {
        ""@
    }
}

/// The hint shown after an API error with HTTP status `code`.
pub fn jira_status_hint(code: u16) -> (r: &'static str)
    ensures
        r@ == status_hint(code),
{
    if code == 401 {
        "\n  → Your Jira token may be invalid or expired. Regenerate it and update the env var."
    } else if code == 403 {
        "\n  → Your Jira account may lack permission to access this board or resource."
    } else if code == 404 {
        "\n  → Board ID or quick-filter ID not found. Check 'boardId' and 'quickFilterId' in your config."
    } else {
        ""
    }
}

/// In the order issues are offered every issue comes once, and issues
/// assigned to someone come before unassigned ones.
pub proof fn lemma_assigned_first(issues: Seq<JiraIssue>, perm: Seq<usize>)
    requires
        is_stable_order(issue_keys(issues), perm),
    ensures
        perm.len() == issues.len(),
        forall|a: int, b: int| 0 <= a < b < perm.len() ==> perm[a] != perm[b],
        forall|a: int, b: int|
            #![trigger perm[a], perm[b]]
            0 <= a < b < perm.len() ==> (issues[perm[b] as int].fields.assignee is Some
                ==> issues[perm[a] as int].fields.assignee is Some),
{
    let keys = issue_keys(issues);
    assert forall|a: int, b: int|
        #![trigger perm[a], perm[b]]
        0 <= a < b < perm.len() implies (issues[perm[b] as int].fields.assignee is Some
            ==> issues[perm[a] as int].fields.assignee is Some) by {
        let i = perm[a] as int;
        let j = perm[b] as int;
        assert(crate::order::before(keys, i, j));
        assert(keys[i].0 == if issues[i].fields.assignee is Some { 0u64 } else { 1u64 });
        assert(keys[j].0 == if issues[j].fields.assignee is Some { 0u64 } else { 1u64 });
    }
}

} // verus!
