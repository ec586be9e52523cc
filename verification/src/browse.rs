//! The contributor browse loop's decisions.
//!
//! The loop presents an immutable contributor list with an exit sentinel as
//! its last entry, and maps the selected index either to a detail view or to
//! termination. The blocking work (menus, the backend call, the
//! acknowledgement) happens outside; only the decision is made here.

use vstd::prelude::*;
use vstd::string::*;
use crate::stats::ContributorStats;
use crate::text::dec_rep;
use crate::text::fmt_u64;

verus! {

/// What a selection in the contributor list means.
#[derive(Debug, Clone, Copy, PartialEq, Eq, Structural)]
pub enum BrowseOutcome {
    /// Show this contributor's details, then return to the list.
    Detail(usize),
    /// The exit sentinel was chosen: the loop terminates.
    Done,
}

/// The menu line shown for one contributor.
pub open spec fn menu_line(name: Seq<char>, email: Seq<char>, commits: nat) -> Seq<char> {
    name + " <"@ + email + "> ("@ + dec_rep(commits) + " commits)"@
}

pub fn contributor_menu_item(c: &ContributorStats) -> (r: String)
    ensures
        r@ == menu_line(c.name@, c.email@, c.commit_count as nat),
{
    let mut r = c.name.clone();
    r.append(" <");
    r.append(c.email.as_str());
    r.append("> (");
    let num = fmt_u64(c.commit_count);
    r.append(num.as_str());
    r.append(" commits)");
    r
}

/// The full selection menu: one line per contributor, in list order, and the
/// exit sentinel as the last entry.
pub fn build_contributor_menu(list: &Vec<ContributorStats>) -> (r: Vec<String>)
    ensures
        r@.len() == list@.len() + 1,
        forall|i: int|
            0 <= i < list@.len() ==> #[trigger] r@[i]@ == menu_line(
                list@[i].name@,
                list@[i].email@,
                list@[i].commit_count as nat,
            ),
        r@[list@.len() as int]@ == "❌ Exit"@,
{
    let mut r: Vec<String> = Vec::new();
    let n = list.len();
    let mut i: usize = 0;
    while i < n
        invariant
            0 <= i <= n,
            n == list@.len(),
            r@.len() == i,
            forall|k: int|
                0 <= k < i ==> #[trigger] r@[k]@ == menu_line(
                    list@[k].name@,
                    list@[k].email@,
                    list@[k].commit_count as nat,
                ),
        decreases n - i,
    {
        let item = contributor_menu_item(&list[i]);
        r.push(item);
        i = i + 1;
    }
    r.push(String::from_str("❌ Exit"));
    r
}

/// Decide what a selected index in the menu means. The sentinel is always
/// the last entry, at index `n_contributors`; every smaller index maps
/// directly into the unchanged contributor list.
pub fn browse_step(n_contributors: usize, selection: usize) -> (r: BrowseOutcome)
    requires
        selection <= n_contributors,
    ensures
        r == (if selection == n_contributors {
            BrowseOutcome::Done
        } else {
            BrowseOutcome::Detail(selection)
        }),
        r is Done <==> selection == n_contributors,
{
    if selection == n_contributors {
        BrowseOutcome::Done
    } else {
        BrowseOutcome::Detail(selection)
    }
}

} // verus!
