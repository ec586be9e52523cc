//! Pure text formatting: the analysis report handed to the generation
//! backend, the per-file analysis block, and the display ordering of the
//! file-type histogram.
//!
//! Every section keeps its header even when its list is empty, so an empty
//! statistics record still yields a well-formed document.

use vstd::prelude::*;
use vstd::string::*;
use crate::stats::ContributorStats;
use crate::stats::desc_by_count;
use crate::stats::distinct_keys;
use crate::stats::same_rows;
use crate::stats::sort_desc_by_count;
use crate::text::dec_rep;
use crate::text::fmt_u64;
use crate::text::join_items;
use crate::text::joined;

verus! {

/// How many recent commits the report quotes.
pub const RECENT_SHOWN: usize = 5;

pub open spec fn modified_file_line(p: Seq<char>, c: nat) -> Seq<char> {
    "- "@ + p + " ("@ + dec_rep(c) + " modifications)"@
}

pub open spec fn file_type_line(e: Seq<char>, c: nat) -> Seq<char> {
    "- "@ + e + ": "@ + dec_rep(c) + " files"@
}

pub open spec fn largest_line(a: nat, d: nat, m: Seq<char>) -> Seq<char> {
    "- +"@ + dec_rep(a) + " -"@ + dec_rep(d) + " : "@ + m
}

pub open spec fn bullet_line(s: Seq<char>) -> Seq<char> {
    "- "@ + s
}

/// The whole report: identity, counters, and one section per derived view,
/// with the first `RECENT_SHOWN` recent commits quoted.
pub open spec fn report_model(s: ContributorStats, recent: Seq<Seq<char>>) -> Seq<char> {
    "## Contributor: "@ + s.name@ + " <"@ + s.email@ + ">\n\n### Statistics\n- Total commits: "@
        + dec_rep(s.commit_count as nat) + "\n- Lines added: "@ + dec_rep(s.additions as nat)
        + "\n- Lines deleted: "@ + dec_rep(s.deletions as nat) + "\n- Files modified: "@ + dec_rep(
        s.files_changed@.len(),
    ) + "\n\n### Most frequently modified files\n"@ + joined(
        s.most_modified_files@.map_values(|e: (String, u64)| modified_file_line(e.0@, e.1 as nat)),
        "\n"@,
    ) + "\n\n### File type distribution\n"@ + joined(
        s.file_types@.map_values(|e: (String, u64)| file_type_line(e.0@, e.1 as nat)),
        "\n"@,
    ) + "\n\n### Largest contributions\n"@ + joined(
        s.largest_commits@.map_values(
            |e: (u64, u64, String)| largest_line(e.0 as nat, e.1 as nat, e.2@),
        ),
        "\n"@,
    ) + "\n\n### Recent commits\n"@ + joined(
        recent.take(
            if recent.len() < RECENT_SHOWN {
                recent.len() as int
            } else {
                RECENT_SHOWN as int
            },
        ).map_values(|m: Seq<char>| bullet_line(m)),
        "\n"@,
    ) + "\n\n### Modified files\n"@ + joined(
        s.files_changed@.map_values(|f: String| bullet_line(f@)),
        "\n"@,
    )
}

fn modified_file_entry(p: &String, c: u64) -> (r: String)
    ensures
        r@ == modified_file_line(p@, c as nat),
{
    let mut r = String::from_str("- ");
    r.append(p.as_str());
    r.append(" (");
    let num = fmt_u64(c);
    r.append(num.as_str());
    r.append(" modifications)");
    r
}

fn file_type_entry(e: &String, c: u64) -> (r: String)
    ensures
        r@ == file_type_line(e@, c as nat),
{
    let mut r = String::from_str("- ");
    r.append(e.as_str());
    r.append(": ");
    let num = fmt_u64(c);
    r.append(num.as_str());
    r.append(" files");
    r
}

fn largest_entry(a: u64, d: u64, m: &String) -> (r: String)
    ensures
        r@ == largest_line(a as nat, d as nat, m@),
{
    let mut r = String::from_str("- +");
    let na = fmt_u64(a);
    r.append(na.as_str());
    r.append(" -");
    let nd = fmt_u64(d);
    r.append(nd.as_str());
    r.append(" : ");
    r.append(m.as_str());
    r
}

fn bullet_entry(s: &String) -> (r: String)
    ensures
        r@ == bullet_line(s@),
{
    let mut r = String::from_str("- ");
    r.append(s.as_str());
    r
}

/// Render one contributor's statistics and recent commits as the structured
/// report handed to the generation backend.
pub fn format_contributor_report(s: &ContributorStats, recent: &Vec<String>) -> (r: String)
    ensures
        r@ == report_model(*s, recent@.map_values(|m: String| m@)),
{
    let mut mmf_lines: Vec<String> = Vec::new();
    let mut i: usize = 0;
    while i < s.most_modified_files.len()
        invariant
            0 <= i <= s.most_modified_files@.len(),
            mmf_lines@.len() == i,
            forall|k: int|
                0 <= k < i ==> #[trigger] mmf_lines@[k]@ == modified_file_line(
                    s.most_modified_files@[k].0@,
                    s.most_modified_files@[k].1 as nat,
                ),
        decreases s.most_modified_files@.len() - i,
    {
        let line = modified_file_entry(&s.most_modified_files[i].0, s.most_modified_files[i].1);
        mmf_lines.push(line);
        i = i + 1;
    }
    let mmf_text = join_items(&mmf_lines, "\n");
    proof {
        assert(mmf_lines@.map_values(|m: String| m@) =~= s.most_modified_files@.map_values(
            |e: (String, u64)| modified_file_line(e.0@, e.1 as nat),
        ));
    }
    let mut ft_lines: Vec<String> = Vec::new();
    let mut i: usize = 0;
    while i < s.file_types.len()
        invariant
            0 <= i <= s.file_types@.len(),
            ft_lines@.len() == i,
            forall|k: int|
                0 <= k < i ==> #[trigger] ft_lines@[k]@ == file_type_line(
                    s.file_types@[k].0@,
                    s.file_types@[k].1 as nat,
                ),
        decreases s.file_types@.len() - i,
    {
        let line = file_type_entry(&s.file_types[i].0, s.file_types[i].1);
        ft_lines.push(line);
        i = i + 1;
    }
    let ft_text = join_items(&ft_lines, "\n");
    proof {
        assert(ft_lines@.map_values(|m: String| m@) =~= s.file_types@.map_values(
            |e: (String, u64)| file_type_line(e.0@, e.1 as nat),
        ));
    }
    let mut lc_lines: Vec<String> = Vec::new();
    let mut i: usize = 0;
    while i < s.largest_commits.len()
        invariant
            0 <= i <= s.largest_commits@.len(),
            lc_lines@.len() == i,
            forall|k: int|
                0 <= k < i ==> #[trigger] lc_lines@[k]@ == largest_line(
                    s.largest_commits@[k].0 as nat,
                    s.largest_commits@[k].1 as nat,
                    s.largest_commits@[k].2@,
                ),
        decreases s.largest_commits@.len() - i,
    {
        let line = largest_entry(
            s.largest_commits[i].0,
            s.largest_commits[i].1,
            &s.largest_commits[i].2,
        );
        lc_lines.push(line);
        i = i + 1;
    }
    let lc_text = join_items(&lc_lines, "\n");
    proof {
        assert(lc_lines@.map_values(|m: String| m@) =~= s.largest_commits@.map_values(
            |e: (u64, u64, String)| largest_line(e.0 as nat, e.1 as nat, e.2@),
        ));
    }
    let ghost recent_views = recent@.map_values(|m: String| m@);
    let mut rc_lines: Vec<String> = Vec::new();
    let mut i: usize = 0;
    while i < recent.len() && i < RECENT_SHOWN
        invariant
            0 <= i <= recent@.len(),
            i <= RECENT_SHOWN,
            recent_views == recent@.map_values(|m: String| m@),
            rc_lines@.len() == i,
            forall|k: int|
                0 <= k < i ==> #[trigger] rc_lines@[k]@ == bullet_line(recent_views[k]),
        decreases recent@.len() - i,
    {
        let line = bullet_entry(&recent[i]);
        rc_lines.push(line);
        i = i + 1;
    }
    let rc_text = join_items(&rc_lines, "\n");
    proof {
        let bound = if recent_views.len() < RECENT_SHOWN {
            recent_views.len() as int
        } else {
            RECENT_SHOWN as int
        };
        assert(rc_lines@.map_values(|m: String| m@) =~= recent_views.take(bound).map_values(
            |m: Seq<char>| bullet_line(m),
        ));
    }
    let mut mf_lines: Vec<String> = Vec::new();
    let mut i: usize = 0;
    while i < s.files_changed.len()
        invariant
            0 <= i <= s.files_changed@.len(),
            mf_lines@.len() == i,
            forall|k: int|
                0 <= k < i ==> #[trigger] mf_lines@[k]@ == bullet_line(s.files_changed@[k]@),
        decreases s.files_changed@.len() - i,
    {
        let line = bullet_entry(&s.files_changed[i]);
        mf_lines.push(line);
        i = i + 1;
    }
    let mf_text = join_items(&mf_lines, "\n");
    proof {
        assert(mf_lines@.map_values(|m: String| m@) =~= s.files_changed@.map_values(
            |f: String| bullet_line(f@),
        ));
    }
    let mut out = String::from_str("## Contributor: ");
    out.append(s.name.as_str());
    out.append(" <");
    out.append(s.email.as_str());
    out.append(">\n\n### Statistics\n- Total commits: ");
    let num = fmt_u64(s.commit_count);
    out.append(num.as_str());
    out.append("\n- Lines added: ");
    let num = fmt_u64(s.additions);
    out.append(num.as_str());
    out.append("\n- Lines deleted: ");
    let num = fmt_u64(s.deletions);
    out.append(num.as_str());
    out.append("\n- Files modified: ");
    let num = fmt_u64(s.files_changed.len() as u64);
    out.append(num.as_str());
    out.append("\n\n### Most frequently modified files\n");
    out.append(mmf_text.as_str());
    out.append("\n\n### File type distribution\n");
    out.append(ft_text.as_str());
    out.append("\n\n### Largest contributions\n");
    out.append(lc_text.as_str());
    out.append("\n\n### Recent commits\n");
    out.append(rc_text.as_str());
    out.append("\n\n### Modified files\n");
    out.append(mf_text.as_str());
    proof {
        assert(out@ =~= report_model(*s, recent_views));
    }
    out
}

/// The block shown for one analyzed file.
pub fn file_analysis_block(path: &str, explanation: &str) -> (r: String)
    ensures
        r@ == "## 📁 "@ + path@ + "\n"@ + explanation@,
{
    let mut r = String::from_str("## 📁 ");
    r.append(path);
    r.append("\n");
    r.append(explanation);
    proof {
        assert(r@ =~= "## 📁 "@ + path@ + "\n"@ + explanation@);
    }
    r
}

/// The file-type histogram in display order: descending by count, the rows
/// themselves unchanged.
pub fn sorted_file_types(s: &ContributorStats) -> (r: Vec<(String, u64)>)
    requires
        distinct_keys(s.file_types@),
    ensures
        desc_by_count(r@),
        same_rows(s.file_types@, r@),
        distinct_keys(r@),
{
    sort_desc_by_count(&s.file_types)
}

} // verus!
