//! Contributor statistics aggregation.
//!
//! A repository scan hands this module, per contributor, the plain facts of
//! each commit: line counts, message, and the changed paths. Aggregation
//! turns those into one `ContributorStats` record: cumulative counts, the
//! set of files touched, per-path and per-extension histograms, and a small
//! retained set of the largest commits.

use vstd::prelude::*;
use vstd::string::*;

verus! {

/// How many of the largest commits are retained.
pub const LARGEST_RETAINED: usize = 5;

/// The plain facts of one commit, as the repository scan reports them.
#[derive(Debug)]
pub struct CommitRecord {
    pub additions: u64,
    pub deletions: u64,
    pub message: String,
    pub paths: Vec<String>,
}

/// One contributor's aggregated record.
#[derive(Debug)]
pub struct ContributorStats {
    pub name: String,
    pub email: String,
    pub commit_count: u64,
    pub additions: u64,
    pub deletions: u64,
    /// Every path this identity touched, unique, in first-touch order.
    pub files_changed: Vec<String>,
    /// (path, modification count), descending by count.
    pub most_modified_files: Vec<(String, u64)>,
    /// (extension, file count), unique keys, unordered.
    pub file_types: Vec<(String, u64)>,
    /// (additions, deletions, message): a bounded top set by total change
    /// size.
    pub largest_commits: Vec<(u64, u64, String)>,
}

pub open spec fn commit_paths(c: CommitRecord) -> Seq<Seq<char>> {
    c.paths@.map_values(|p: String| p@)
}

pub open spec fn total_additions(cs: Seq<CommitRecord>) -> int
    decreases cs.len(),
{
    if cs.len() == 0 {
        0
    } else {
        total_additions(cs.drop_last()) + cs.last().additions
    }
}

pub open spec fn total_deletions(cs: Seq<CommitRecord>) -> int
    decreases cs.len(),
{
    if cs.len() == 0 {
        0
    } else {
        total_deletions(cs.drop_last()) + cs.last().deletions
    }
}

/// Every changed path of every commit, in commit order, with repeats.
pub open spec fn all_paths(cs: Seq<CommitRecord>) -> Seq<Seq<char>>
    decreases cs.len(),
{
    if cs.len() == 0 {
        Seq::empty()
    } else {
        all_paths(cs.drop_last()) + commit_paths(cs.last())
    }
}

/// How often `p` occurs in the path stream `ps`.
pub open spec fn occ(p: Seq<char>, ps: Seq<Seq<char>>) -> nat
    decreases ps.len(),
{
    if ps.len() == 0 {
        0
    } else {
        occ(p, ps.drop_last()) + (if ps.last() == p {
            1nat
        } else {
            0nat
        })
    }
}

pub proof fn lemma_occ_le_len(p: Seq<char>, ps: Seq<Seq<char>>)
    ensures
        occ(p, ps) <= ps.len(),
    decreases ps.len(),
{
    if ps.len() > 0 {
        lemma_occ_le_len(p, ps.drop_last());
    }
}

pub proof fn lemma_occ_push(p: Seq<char>, ps: Seq<Seq<char>>, q: Seq<char>)
    ensures
        occ(p, ps.push(q)) == occ(p, ps) + (if p == q {
            1nat
        } else {
            0nat
        }),
{
    assert(ps.push(q).drop_last() =~= ps);
}

/// No key occurs twice.
pub open spec fn distinct_keys(t: Seq<(String, u64)>) -> bool {
    forall|i: int, j: int| 0 <= i < j < t.len() ==> t[i].0@ != t[j].0@
}

/// `p` is one of the table's keys.
pub open spec fn key_present(t: Seq<(String, u64)>, p: Seq<char>) -> bool {
    exists|i: int| 0 <= i < t.len() && t[i].0@ == p
}

/// The table counts exactly the occurrences in the stream `ps`: unique keys,
/// one per distinct stream element, each with its exact count.
pub open spec fn counts_stream(t: Seq<(String, u64)>, ps: Seq<Seq<char>>) -> bool {
    &&& distinct_keys(t)
    &&& forall|i: int| 0 <= i < t.len() ==> #[trigger] t[i].1 == occ(t[i].0@, ps)
    &&& forall|i: int| 0 <= i < t.len() ==> #[trigger] t[i].1 >= 1
    &&& forall|p: Seq<char>| occ(p, ps) > 0 ==> key_present(t, p)
}

/// Incrementing the count at the key's own row counts one more occurrence.
proof fn lemma_bump_existing(
    pre: Seq<(String, u64)>,
    post: Seq<(String, u64)>,
    ps: Seq<Seq<char>>,
    key: Seq<char>,
    i: int,
)
    requires
        counts_stream(pre, ps),
        0 <= i < pre.len(),
        pre[i].0@ == key,
        post.len() == pre.len(),
        post[i].0@ == key,
        post[i].1 == pre[i].1 + 1,
        forall|j: int| 0 <= j < pre.len() && j != i ==> post[j] == pre[j],
    ensures
        counts_stream(post, ps.push(key)),
{
    let ps1 = ps.push(key);
    assert forall|p: Seq<char>| occ(p, ps1) > 0 implies key_present(post, p) by {
        lemma_occ_push(p, ps, key);
        if p == key {
            assert(post[i].0@ == p);
        } else {
            assert(occ(p, ps) > 0);
            assert(key_present(pre, p));
            let w = choose|w: int| 0 <= w < pre.len() && pre[w].0@ == p;
            assert(w != i);
            assert(post[w].0@ == p);
        }
    }
    assert forall|j: int| 0 <= j < post.len() implies #[trigger] post[j].1 == occ(
        post[j].0@,
        ps1,
    ) by {
        lemma_occ_push(post[j].0@, ps, key);
        if j != i {
            assert(post[j] == pre[j]);
            assert(pre[j].1 == occ(pre[j].0@, ps));
            assert(pre[j].0@ != key);
        }
    }
}

/// Appending a fresh row with count one counts the key's first occurrence.
proof fn lemma_bump_fresh(
    pre: Seq<(String, u64)>,
    post: Seq<(String, u64)>,
    ps: Seq<Seq<char>>,
    key: Seq<char>,
)
    requires
        counts_stream(pre, ps),
        !key_present(pre, key),
        post.len() == pre.len() + 1,
        post[post.len() - 1].0@ == key,
        post[post.len() - 1].1 == 1,
        forall|j: int| 0 <= j < pre.len() ==> post[j] == pre[j],
    ensures
        counts_stream(post, ps.push(key)),
{
    let ps1 = ps.push(key);
    let m = post.len() - 1;
    assert(occ(key, ps) == 0) by {
        if occ(key, ps) > 0 {
            assert(key_present(pre, key));
        }
    }
    assert forall|p: Seq<char>| occ(p, ps1) > 0 implies key_present(post, p) by {
        lemma_occ_push(p, ps, key);
        if p == key {
            assert(post[m].0@ == p);
        } else {
            assert(occ(p, ps) > 0);
            assert(key_present(pre, p));
            let w = choose|w: int| 0 <= w < pre.len() && pre[w].0@ == p;
            assert(post[w].0@ == p);
        }
    }
    assert forall|j: int| 0 <= j < post.len() implies #[trigger] post[j].1 == occ(
        post[j].0@,
        ps1,
    ) by {
        lemma_occ_push(post[j].0@, ps, key);
        if j < m {
            assert(post[j] == pre[j]);
            assert(pre[j].1 == occ(pre[j].0@, ps));
        }
    }
    assert forall|a: int, b: int| 0 <= a < b < post.len() implies post[a].0@ != post[b].0@ by {
        if b < m {
            assert(post[a] == pre[a] && post[b] == pre[b]);
        } else {
            assert(post[a] == pre[a]);
            assert(!(pre[a].0@ == key));
        }
    }
}

/// Record one more occurrence of `key` in the table counting the ghost
/// stream `ps`.
fn bump_count(t: &mut Vec<(String, u64)>, key: &str, Ghost(ps): Ghost<Seq<Seq<char>>>)
    requires
        counts_stream(old(t)@, ps),
        ps.len() < u64::MAX,
    ensures
        counts_stream(final(t)@, ps.push(key@)),
{
    let key_string = String::from_str(key);
    let n = t.len();
    let mut i: usize = 0;
    while i < n
        invariant
            0 <= i <= n,
            n == t@.len(),
            t@ == old(t)@,
            key_string@ == key@,
            counts_stream(t@, ps),
            ps.len() < u64::MAX,
            forall|j: int| 0 <= j < i ==> t@[j].0@ != key@,
        decreases n - i,
    {
        if key_string.eq(&t[i].0) {
            let k = t[i].0.clone();
            let v = t[i].1;
            let ghost pre = t@;
            proof {
                assert(pre[i as int].1 == occ(pre[i as int].0@, ps));
                lemma_occ_le_len(key@, ps);
            }
            t.set(i, (k, v + 1));
            proof {
                lemma_bump_existing(pre, t@, ps, key@, i as int);
            }
            return ;
        }
        i = i + 1;
    }
    let ghost pre = t@;
    let fresh = String::from_str(key);
    t.push((fresh, 1));
    proof {
        lemma_bump_fresh(pre, t@, ps, key@);
    }
}

/// The position of the last occurrence of `c` in `s`, or -1.
pub open spec fn last_index_of(s: Seq<char>, c: char) -> int
    decreases s.len(),
{
    if s.len() == 0 {
        -1
    } else if s.last() == c {
        s.len() - 1
    } else {
        last_index_of(s.drop_last(), c)
    }
}

pub proof fn lemma_last_index_of(s: Seq<char>, c: char)
    ensures
        -1 <= last_index_of(s, c) < s.len(),
        last_index_of(s, c) >= 0 ==> s[last_index_of(s, c)] == c,
        forall|j: int| last_index_of(s, c) < j < s.len() ==> s[j] != c,
    decreases s.len(),
{
    if s.len() > 0 && s.last() != c {
        lemma_last_index_of(s.drop_last(), c);
        assert forall|j: int| last_index_of(s, c) < j < s.len() implies s[j] != c by {
            if j < s.len() - 1 {
                assert(s.drop_last()[j] != c);
            }
        }
    }
}

/// The bucket that paths without an extension are grouped under.
pub open spec fn no_extension_bucket() -> Seq<char> {
    "(no extension)"@
}

/// The final path component of `p`: everything after the last separator.
pub open spec fn basename(p: Seq<char>) -> Seq<char> {
    p.subrange(last_index_of(p, '/') + 1, p.len() as int)
}

/// The extension of `p`: everything after the final dot of the basename, or
/// the "no extension" bucket when the basename has no dot.
pub open spec fn ext_of(p: Seq<char>) -> Seq<char> {
    let b = basename(p);
    let d = last_index_of(b, '.');
    if d >= 0 {
        b.subrange(d + 1, b.len() as int)
    } else {
        no_extension_bucket()
    }
}

/// The position of the last occurrence of `c` in `s`, if any.
fn last_char_index(s: &str, c: char) -> (r: Option<usize>)
    ensures
        match r {
            Some(i) => last_index_of(s@, c) == i,
            None => last_index_of(s@, c) == -1,
        },
{
    proof {
        lemma_last_index_of(s@, c);
    }
    let n = s.unicode_len();
    let mut i: usize = n;
    while i > 0
        invariant
            0 <= i <= n,
            n == s@.len(),
            forall|j: int| i <= j < n ==> s@[j] != c,
        decreases i,
    {
        if s.get_char(i - 1) == c {
            proof {
                lemma_last_index_of(s@, c);
                let w = last_index_of(s@, c);
                assert(s@[i - 1] == c);
                if w > i - 1 {
                    assert(s@[w] != c);
                }
            }
            return Some(i - 1);
        }
        i = i - 1;
    }
    proof {
        let w = last_index_of(s@, c);
        if w >= 0 {
            assert(s@[w] != c);
        }
    }
    None
}

/// The extension bucket of path `p`.
pub fn extension_of(p: &str) -> (r: String)
    ensures
        r@ == ext_of(p@),
{
    let n = p.unicode_len();
    proof {
        lemma_last_index_of(p@, '/');
    }
    let b_start: usize = match last_char_index(p, '/') {
        Some(i) => i + 1,
        None => 0,
    };
    let base = p.substring_char(b_start, n);
    assert(base@ == basename(p@));
    let m = base.unicode_len();
    match last_char_index(base, '.') {
        Some(d) => {
            proof {
                lemma_last_index_of(base@, '.');
            }
            let e = base.substring_char(d + 1, m);
            String::from_str(e)
        },
        None => String::from_str("(no extension)"),
    }
}

/// Counts are non-increasing along the table.
pub open spec fn desc_by_count(t: Seq<(String, u64)>) -> bool {
    forall|i: int, j: int| 0 <= i < j < t.len() ==> t[i].1 >= t[j].1
}

/// Row `e` occurs somewhere in `t`.
pub open spec fn row_in(e: (String, u64), t: Seq<(String, u64)>) -> bool {
    exists|j: int| 0 <= j < t.len() && t[j] == e
}

/// `b` holds exactly the rows of `a`, in some order.
pub open spec fn same_rows(a: Seq<(String, u64)>, b: Seq<(String, u64)>) -> bool {
    &&& a.len() == b.len()
    &&& forall|i: int| 0 <= i < a.len() ==> row_in(#[trigger] a[i], b)
    &&& forall|j: int| 0 <= j < b.len() ==> row_in(#[trigger] b[j], a)
}

/// A reordering of a counting table still counts the same stream.
pub proof fn lemma_counts_stream_reordered(
    a: Seq<(String, u64)>,
    b: Seq<(String, u64)>,
    ps: Seq<Seq<char>>,
)
    requires
        counts_stream(a, ps),
        same_rows(a, b),
        distinct_keys(b),
    ensures
        counts_stream(b, ps),
{
    assert forall|i: int| 0 <= i < b.len() implies #[trigger] b[i].1 == occ(b[i].0@, ps)
        && b[i].1 >= 1 by {
        assert(row_in(b[i], a));
        let w = choose|w: int| 0 <= w < a.len() && a[w] == b[i];
        assert(a[w].1 == occ(a[w].0@, ps));
    }
    assert forall|p: Seq<char>| occ(p, ps) > 0 implies key_present(b, p) by {
        assert(key_present(a, p));
        let w = choose|w: int| 0 <= w < a.len() && a[w].0@ == p;
        assert(row_in(a[w], b));
        let v = choose|v: int| 0 <= v < b.len() && b[v] == a[w];
        assert(b[v].0@ == p);
    }
}

/// One sorted-insert step keeps the table sorted and keeps its rows exactly
/// those of the first `i + 1` rows of `t`.
proof fn lemma_sorted_insert_step(
    t: Seq<(String, u64)>,
    pre: Seq<(String, u64)>,
    now: Seq<(String, u64)>,
    i: int,
    p: int,
)
    requires
        distinct_keys(t),
        0 <= i < t.len(),
        0 <= p <= pre.len(),
        now == pre.insert(p, t[i]),
        desc_by_count(pre),
        distinct_keys(pre),
        forall|j: int| 0 <= j < p ==> pre[j].1 >= t[i].1,
        p < pre.len() ==> pre[p].1 < t[i].1,
        forall|k: int| 0 <= k < i ==> row_in(#[trigger] t[k], pre),
        forall|j: int| 0 <= j < pre.len() ==> row_in(#[trigger] pre[j], t.subrange(0, i)),
    ensures
        now.len() == pre.len() + 1,
        desc_by_count(now),
        distinct_keys(now),
        forall|k: int| 0 <= k < i + 1 ==> row_in(#[trigger] t[k], now),
        forall|j: int| 0 <= j < now.len() ==> row_in(#[trigger] now[j], t.subrange(0, i + 1)),
{
    pre.insert_ensures(p, t[i]);
    let t0 = t.subrange(0, i);
    let t1 = t.subrange(0, i + 1);
    assert forall|x: int, y: int| 0 <= x < y < now.len() implies now[x].1 >= now[y].1 by {
        if y < p {
        } else if x == p {
            if y > p {
                assert(now[y] == pre[y - 1]);
                assert(pre[p].1 < t[i].1);
                assert(pre[p].1 >= pre[y - 1].1);
            }
        } else if x < p {
            if y == p {
                assert(pre[x].1 >= t[i].1);
            } else {
                assert(now[y] == pre[y - 1]);
                if p <= y - 1 && p < pre.len() {
                    assert(pre[x].1 >= t[i].1);
                }
            }
        } else {
            assert(now[x] == pre[x - 1] && now[y] == pre[y - 1]);
        }
    }
    assert forall|k: int| 0 <= k < i + 1 implies row_in(#[trigger] t[k], now) by {
        if k < i {
            assert(row_in(t[k], pre));
            let j = choose|j: int| 0 <= j < pre.len() && pre[j] == t[k];
            if j < p {
                assert(now[j] == t[k]);
            } else {
                assert(now[j + 1] == pre[j]);
                assert(now[j + 1] == t[k]);
            }
        } else {
            assert(now[p] == t[k]);
        }
    }
    assert forall|j: int| 0 <= j < now.len() implies row_in(#[trigger] now[j], t1) by {
        if j == p {
            assert(t1[i] == now[j]);
        } else {
            let j1 = if j < p {
                j
            } else {
                j - 1
            };
            assert(now[j] == pre[j1]);
            assert(row_in(pre[j1], t0));
            let k = choose|k: int| 0 <= k < t0.len() && t0[k] == pre[j1];
            assert(t1[k] == t0[k]);
            assert(t1[k] == now[j]);
        }
    }
    assert forall|x: int, y: int| 0 <= x < y < now.len() implies now[x].0@ != now[y].0@ by {
        if x == p || y == p {
            let o = if x == p {
                y
            } else {
                x
            };
            let o1 = if o < p {
                o
            } else {
                o - 1
            };
            assert(now[o] == pre[o1]);
            assert(row_in(pre[o1], t0));
            let k = choose|k: int| 0 <= k < t0.len() && t0[k] == pre[o1];
            assert(t[k] == t0[k]);
            assert(t[k].0@ != t[i].0@);
            assert(now[p] == t[i]);
        } else {
            let x1 = if x < p {
                x
            } else {
                x - 1
            };
            let y1 = if y < p {
                y
            } else {
                y - 1
            };
            assert(now[x] == pre[x1] && now[y] == pre[y1]);
            assert(x1 < y1);
            assert(pre[x1].0@ != pre[y1].0@);
        }
    }
}

/// Sort a counting table descending by count. Rows are preserved exactly;
/// equal counts keep no contractual order.
pub fn sort_desc_by_count(t: &Vec<(String, u64)>) -> (r: Vec<(String, u64)>)
    requires
        distinct_keys(t@),
    ensures
        desc_by_count(r@),
        same_rows(t@, r@),
        distinct_keys(r@),
{
    let mut r: Vec<(String, u64)> = Vec::new();
    let n = t.len();
    let mut i: usize = 0;
    while i < n
        invariant
            0 <= i <= n,
            n == t@.len(),
            distinct_keys(t@),
            r@.len() == i,
            desc_by_count(r@),
            distinct_keys(r@),
            forall|k: int| 0 <= k < i ==> row_in(#[trigger] t@[k], r@),
            forall|j: int| 0 <= j < r@.len() ==> row_in(#[trigger] r@[j], t@.subrange(0, i as int)),
        decreases n - i,
    {
        let key = t[i].0.clone();
        let v = t[i].1;
        let ghost pre = r@;
        let mut pos: usize = 0;
        while pos < r.len() && r[pos].1 >= v
            invariant
                0 <= pos <= r@.len(),
                r@ == pre,
                forall|j: int| 0 <= j < pos ==> r@[j].1 >= v,
            decreases r@.len() - pos,
        {
            pos = pos + 1;
        }
        proof {
            assert(pos < pre.len() ==> pre[pos as int].1 < v);
        }
        let pair = (key, v);
        let ghost epair = pair;
        r.insert(pos, pair);
        proof {
            assert(epair.0 == t@[i as int].0 && epair.1 == t@[i as int].1);
            assert(epair == t@[i as int]);
            lemma_sorted_insert_step(t@, pre, r@, i as int, pos as int);
        }
        i = i + 1;
    }
    proof {
        assert(t@.subrange(0, n as int) =~= t@);
    }
    r
}

/// Total change size of a retained-commit entry.
pub open spec fn entry_size(e: (u64, u64, String)) -> int {
    e.0 + e.1
}

/// Entry sizes are non-increasing along the retained list.
pub open spec fn sizes_desc(t: Seq<(u64, u64, String)>) -> bool {
    forall|i: int, j: int|
        0 <= i < j < t.len() ==> entry_size(#[trigger] t[i]) >= entry_size(#[trigger] t[j])
}

pub open spec fn sum_sizes(t: Seq<(u64, u64, String)>) -> int
    decreases t.len(),
{
    if t.len() == 0 {
        0
    } else {
        sum_sizes(t.drop_last()) + entry_size(t.last())
    }
}

proof fn lemma_sum_insert(t: Seq<(u64, u64, String)>, p: int, e: (u64, u64, String))
    requires
        0 <= p <= t.len(),
    ensures
        sum_sizes(t.insert(p, e)) == sum_sizes(t) + entry_size(e),
    decreases t.len(),
{
    let t1 = t.insert(p, e);
    t.insert_ensures(p, e);
    if p == t.len() {
        assert(t1.drop_last() =~= t);
        assert(t1.last() == e);
    } else {
        assert(t1.drop_last() =~= t.drop_last().insert(p, e));
        assert(t1.last() == t.last());
        lemma_sum_insert(t.drop_last(), p, e);
    }
}

/// The entry `e` is the record of commit `k`.
pub open spec fn entry_of(e: (u64, u64, String), c: CommitRecord) -> bool {
    e.0 == c.additions && e.1 == c.deletions && e.2@ == c.message@
}

/// Every retained entry records one of the commits in `cs`.
pub open spec fn entries_from(t: Seq<(u64, u64, String)>, cs: Seq<CommitRecord>) -> bool {
    forall|x: int|
        0 <= x < t.len() ==> exists|k: int| 0 <= k < cs.len() && entry_of(#[trigger] t[x], cs[k])
}

/// Entry `e` occurs somewhere in `t`.
pub open spec fn entry_in(e: (u64, u64, String), t: Seq<(u64, u64, String)>) -> bool {
    exists|x: int| 0 <= x < t.len() && t[x] == e
}

/// The retained list is the top of the commit set: every commit is either
/// recorded by a retained entry, or the list is full and the commit is no
/// larger than the smallest retained entry -- so on a tie the earlier,
/// already retained commit stays.
#[verifier::opaque]
pub open spec fn retains_largest(lc: Seq<(u64, u64, String)>, cs: Seq<CommitRecord>) -> bool {
    forall|k: int|
        #![trigger cs[k]]
        0 <= k < cs.len() ==> (exists|x: int|
            0 <= x < lc.len() && entry_of(#[trigger] lc[x], cs[k])) || (lc.len()
            == LARGEST_RETAINED && cs[k].additions + cs[k].deletions <= entry_size(
            lc[lc.len() - 1],
        ))
}

/// Insert an entry into the retained list, keeping it sorted by size.
fn insert_by_size(lc: &mut Vec<(u64, u64, String)>, e: (u64, u64, String))
    requires
        sizes_desc(old(lc)@),
        e.0 + e.1 <= u64::MAX,
        forall|x: int| 0 <= x < old(lc)@.len() ==> entry_size(#[trigger] old(lc)@[x]) <= u64::MAX,
        old(lc)@.len() < 100,
    ensures
        final(lc)@.len() == old(lc)@.len() + 1,
        sizes_desc(final(lc)@),
        sum_sizes(final(lc)@) == sum_sizes(old(lc)@) + entry_size(e),
        forall|x: int|
            0 <= x < final(lc)@.len() ==> final(lc)@[x] == e || entry_in(
                #[trigger] final(lc)@[x],
                old(lc)@,
            ),
        forall|j: int| 0 <= j < old(lc)@.len() ==> entry_in(#[trigger] old(lc)@[j], final(lc)@),
        entry_in(e, final(lc)@),
        final(lc)@[final(lc)@.len() - 1] == e || (old(lc)@.len() > 0 && final(lc)@[final(lc)@.len()
            - 1] == old(lc)@[old(lc)@.len() - 1]),
        entry_size(final(lc)@[0]) >= entry_size(e),
        old(lc)@.len() > 0 ==> entry_size(final(lc)@[0]) >= entry_size(old(lc)@[0]),
{
    let ghost pre = lc@;
    let esize = e.0 + e.1;
    let mut pos: usize = 0;
    while pos < lc.len() && lc[pos].0 + lc[pos].1 >= esize
        invariant
            0 <= pos <= lc@.len(),
            lc@ == pre,
            esize == entry_size(e),
            forall|j: int| 0 <= j < lc@.len() ==> entry_size(#[trigger] lc@[j]) <= u64::MAX,
            forall|j: int| 0 <= j < pos ==> entry_size(#[trigger] lc@[j]) >= esize,
        decreases lc@.len() - pos,
    {
        pos = pos + 1;
    }
    proof {
        assert(pos < pre.len() ==> entry_size(pre[pos as int]) < entry_size(e));
    }
    let ghost ee = e;
    lc.insert(pos, e);
    proof {
        lemma_size_insert_step(pre, lc@, ee, pos as int);
    }
}

/// One sorted-by-size insert keeps the list sorted and adds exactly the new
/// entry's size.
proof fn lemma_size_insert_step(
    pre: Seq<(u64, u64, String)>,
    now: Seq<(u64, u64, String)>,
    e: (u64, u64, String),
    p: int,
)
    requires
        sizes_desc(pre),
        0 <= p <= pre.len(),
        now == pre.insert(p, e),
        entry_size(e) <= u64::MAX,
        forall|x: int| 0 <= x < pre.len() ==> entry_size(#[trigger] pre[x]) <= u64::MAX,
        forall|j: int| 0 <= j < p ==> entry_size(#[trigger] pre[j]) >= entry_size(e),
        p < pre.len() ==> entry_size(pre[p]) < entry_size(e),
    ensures
        now.len() == pre.len() + 1,
        sizes_desc(now),
        sum_sizes(now) == sum_sizes(pre) + entry_size(e),
        forall|x: int| 0 <= x < now.len() ==> now[x] == e || entry_in(#[trigger] now[x], pre),
        forall|j: int| 0 <= j < pre.len() ==> entry_in(#[trigger] pre[j], now),
        entry_in(e, now),
        now[now.len() - 1] == e || (pre.len() > 0 && now[now.len() - 1] == pre[pre.len() - 1]),
        entry_size(now[0]) >= entry_size(e),
        pre.len() > 0 ==> entry_size(now[0]) >= entry_size(pre[0]),
{
    pre.insert_ensures(p, e);
    lemma_sum_insert(pre, p, e);
    assert(now[p] == e);
    assert forall|j: int| 0 <= j < pre.len() implies entry_in(#[trigger] pre[j], now) by {
        if j < p {
            assert(now[j] == pre[j]);
        } else {
            assert(now[j + 1] == pre[j]);
        }
    }
    if p < pre.len() {
        assert(now[pre.len() as int] == pre[pre.len() - 1]);
    }
    assert forall|x: int, y: int|
        0 <= x < y < now.len() implies entry_size(#[trigger] now[x]) >= entry_size(
        #[trigger] now[y],
    ) by {
        if y < p {
        } else if x == p {
            if y > p {
                assert(now[y] == pre[y - 1]);
                assert(entry_size(pre[p]) < entry_size(e));
                assert(entry_size(pre[p]) >= entry_size(pre[y - 1]));
            }
        } else if x < p {
            if y == p {
                assert(entry_size(pre[x]) >= entry_size(e));
            } else {
                assert(now[y] == pre[y - 1]);
            }
        } else {
            assert(now[x] == pre[x - 1] && now[y] == pre[y - 1]);
        }
    }
    assert forall|x: int| 0 <= x < now.len() implies now[x] == e || entry_in(
        #[trigger] now[x],
        pre,
    ) by {
        if x != p {
            let x1 = if x < p {
                x
            } else {
                x - 1
            };
            assert(pre[x1] == now[x]);
        }
    }
    if p > 0 {
        assert(now[0] == pre[0]);
        assert(entry_size(pre[0]) >= entry_size(e));
    }
}

/// Fold one commit into the retained-largest list: insert while there is
/// room, otherwise replace the smallest retained entry when this commit is
/// strictly larger; on a tie the earlier commit stays.
/// Folding one commit into the retained list keeps it the top of the
/// processed prefix.
proof fn lemma_retains_step(
    pre: Seq<(u64, u64, String)>,
    now: Seq<(u64, u64, String)>,
    cs: Seq<CommitRecord>,
    i: int,
    c: CommitRecord,
)
    requires
        0 <= i < cs.len(),
        c == cs[i],
        pre.len() <= LARGEST_RETAINED,
        retains_largest(pre, cs.subrange(0, i)),
        now.len() == if pre.len() < LARGEST_RETAINED {
            pre.len() + 1nat
        } else {
            LARGEST_RETAINED as nat
        },
        pre.len() == LARGEST_RETAINED && c.additions + c.deletions <= entry_size(
            pre[pre.len() - 1],
        ) ==> now == pre,
        pre.len() < LARGEST_RETAINED || c.additions + c.deletions > entry_size(
            pre[pre.len() - 1],
        ) ==> exists|x: int| 0 <= x < now.len() && entry_of(#[trigger] now[x], c),
        pre.len() == LARGEST_RETAINED ==> entry_size(now[now.len() - 1]) >= entry_size(
            pre[pre.len() - 1],
        ),
        forall|j: int|
            0 <= j < pre.len() ==> entry_in(#[trigger] pre[j], now) || (pre.len()
                == LARGEST_RETAINED && entry_size(pre[j]) <= entry_size(now[now.len() - 1])),
    ensures
        retains_largest(now, cs.subrange(0, i + 1)),
{
    reveal(retains_largest);
    let cs0 = cs.subrange(0, i);
    let cs1 = cs.subrange(0, i + 1);
    let last = now.len() - 1;
    assert forall|k: int|
        #![trigger cs1[k]]
        0 <= k < cs1.len() implies (exists|x: int|
            0 <= x < now.len() && entry_of(#[trigger] now[x], cs1[k])) || (now.len()
            == LARGEST_RETAINED && cs1[k].additions + cs1[k].deletions <= entry_size(
            now[last],
        )) by {
        if k == i {
            assert(cs1[k] == cs[i]);
            if pre.len() < LARGEST_RETAINED || c.additions + c.deletions > entry_size(
                pre[pre.len() - 1],
            ) {
                let w = choose|w: int| 0 <= w < now.len() && entry_of(#[trigger] now[w], c);
                assert(entry_of(now[w], cs1[k]));
            } else {
                assert(now == pre);
            }
        } else {
            assert(cs1[k] == cs0[k]);
            assert(0 <= k < cs0.len());
            if exists|x0: int| 0 <= x0 < pre.len() && entry_of(#[trigger] pre[x0], cs0[k]) {
                let x0 = choose|x0: int|
                    0 <= x0 < pre.len() && entry_of(#[trigger] pre[x0], cs0[k]);
                if entry_in(pre[x0], now) {
                    let y = choose|y: int| 0 <= y < now.len() && now[y] == pre[x0];
                    assert(entry_of(now[y], cs1[k]));
                } else {
                    assert(pre.len() == LARGEST_RETAINED && entry_size(pre[x0]) <= entry_size(
                        now[last],
                    ));
                }
            } else {
                assert(pre.len() == LARGEST_RETAINED && cs0[k].additions + cs0[k].deletions
                    <= entry_size(pre[pre.len() - 1]));
                assert(entry_size(now[last]) >= entry_size(pre[pre.len() - 1]));
            }
        }
    }
}

fn update_largest(lc: &mut Vec<(u64, u64, String)>, c: &CommitRecord)
    requires
        sizes_desc(old(lc)@),
        forall|x: int| 0 <= x < old(lc)@.len() ==> entry_size(#[trigger] old(lc)@[x]) <= u64::MAX,
        c.additions + c.deletions <= u64::MAX,
        old(lc)@.len() <= LARGEST_RETAINED,
    ensures
        sizes_desc(final(lc)@),
        forall|x: int| 0 <= x < final(lc)@.len() ==> entry_size(#[trigger] final(lc)@[x])
            <= u64::MAX,
        final(lc)@.len() == if old(lc)@.len() < LARGEST_RETAINED {
            old(lc)@.len() + 1nat
        } else {
            LARGEST_RETAINED as nat
        },
        sum_sizes(final(lc)@) <= sum_sizes(old(lc)@) + c.additions + c.deletions,
        forall|x: int|
            0 <= x < final(lc)@.len() ==> entry_of(#[trigger] final(lc)@[x], *c) || entry_in(
                final(lc)@[x],
                old(lc)@,
            ),
        final(lc)@.len() > 0,
        entry_size(final(lc)@[0]) >= c.additions + c.deletions,
        old(lc)@.len() > 0 ==> entry_size(final(lc)@[0]) >= entry_size(old(lc)@[0]),
        old(lc)@.len() == LARGEST_RETAINED && c.additions + c.deletions <= entry_size(
            old(lc)@[old(lc)@.len() - 1],
        ) ==> final(lc)@ == old(lc)@,
        old(lc)@.len() < LARGEST_RETAINED || c.additions + c.deletions > entry_size(
            old(lc)@[old(lc)@.len() - 1],
        ) ==> exists|x: int| 0 <= x < final(lc)@.len() && entry_of(#[trigger] final(lc)@[x], *c),
        old(lc)@.len() == LARGEST_RETAINED ==> entry_size(final(lc)@[final(lc)@.len() - 1])
            >= entry_size(old(lc)@[old(lc)@.len() - 1]),
        forall|j: int|
            0 <= j < old(lc)@.len() ==> entry_in(#[trigger] old(lc)@[j], final(lc)@) || (old(
                lc,
            )@.len() == LARGEST_RETAINED && entry_size(old(lc)@[j]) <= entry_size(
                final(lc)@[final(lc)@.len() - 1],
            )),
{
    let size = c.additions + c.deletions;
    let entry = (c.additions, c.deletions, c.message.clone());
    let ghost gentry = entry;
    proof {
        assert(entry_of(gentry, *c));
        assert(entry_size(gentry) == c.additions + c.deletions);
    }
    if lc.len() < LARGEST_RETAINED {
        insert_by_size(lc, entry);
        proof {
            assert(entry_in(gentry, lc@));
            let x = choose|x: int| 0 <= x < lc@.len() && lc@[x] == gentry;
            assert(entry_of(lc@[x], *c));
        }
    } else {
        let tail = lc.len() - 1;
        let smallest = lc[tail].0 + lc[tail].1;
        if size > smallest {
            let ghost before_pop = lc@;
            lc.pop();
            proof {
                assert(lc@ =~= before_pop.drop_last());
                assert(sum_sizes(lc@) == sum_sizes(before_pop) - entry_size(before_pop.last()));
                assert(entry_size(before_pop.last()) >= 0);
            }
            let ghost popped = before_pop.drop_last();
            insert_by_size(lc, entry);
            proof {
                assert(entry_in(gentry, lc@));
                let w = choose|w: int| 0 <= w < lc@.len() && lc@[w] == gentry;
                assert(entry_of(lc@[w], *c));
                let m = lc@.len() - 1;
                assert(entry_size(lc@[m]) >= entry_size(before_pop[before_pop.len() - 1])) by {
                    if lc@[m] == gentry {
                    } else {
                        assert(popped.len() > 0 && lc@[m] == popped[popped.len() - 1]);
                        assert(popped[popped.len() - 1] == before_pop[before_pop.len() - 2]);
                        assert(entry_size(before_pop[before_pop.len() - 2]) >= entry_size(
                            before_pop[before_pop.len() - 1],
                        ));
                    }
                }
                assert forall|x: int|
                    0 <= x < lc@.len() implies entry_of(#[trigger] lc@[x], *c) || entry_in(
                        lc@[x],
                        before_pop,
                    ) by {
                    if lc@[x] != gentry {
                        assert(entry_in(lc@[x], popped));
                        let y = choose|y: int| 0 <= y < popped.len() && popped[y] == lc@[x];
                        assert(before_pop[y] == lc@[x]);
                        assert(entry_in(lc@[x], before_pop));
                    }
                }
                assert forall|j: int|
                    0 <= j < before_pop.len() implies entry_in(
                        #[trigger] before_pop[j],
                        lc@,
                    ) || entry_size(before_pop[j]) <= entry_size(lc@[m]) by {
                    if j < before_pop.len() - 1 {
                        assert(popped[j] == before_pop[j]);
                        assert(entry_in(popped[j], lc@));
                    }
                }
            }
        } else {
            proof {
                assert forall|j: int|
                    0 <= j < lc@.len() implies entry_in(#[trigger] lc@[j], lc@) by {
                    assert(0 <= j < lc@.len() && lc@[j] == lc@[j]);
                }
            }
        }
    }
}

proof fn lemma_prefix_step(cs: Seq<CommitRecord>, i: int)
    requires
        0 <= i < cs.len(),
    ensures
        total_additions(cs.subrange(0, i + 1)) == total_additions(cs.subrange(0, i))
            + cs[i].additions,
        total_deletions(cs.subrange(0, i + 1)) == total_deletions(cs.subrange(0, i))
            + cs[i].deletions,
        all_paths(cs.subrange(0, i + 1)) == all_paths(cs.subrange(0, i)) + commit_paths(cs[i]),
{
    let a = cs.subrange(0, i + 1);
    assert(a.drop_last() =~= cs.subrange(0, i));
    assert(a.last() == cs[i]);
}

proof fn lemma_prefix_le(cs: Seq<CommitRecord>, i: int)
    requires
        0 <= i <= cs.len(),
    ensures
        total_additions(cs.subrange(0, i)) <= total_additions(cs),
        total_deletions(cs.subrange(0, i)) <= total_deletions(cs),
        total_additions(cs.subrange(0, i)) >= 0,
        total_deletions(cs.subrange(0, i)) >= 0,
        all_paths(cs.subrange(0, i)).len() <= all_paths(cs).len(),
    decreases cs.len() - i,
{
    if i == cs.len() {
        assert(cs.subrange(0, i) =~= cs);
        lemma_totals_nonneg(cs);
    } else {
        lemma_prefix_step(cs, i);
        lemma_prefix_le(cs, i + 1);
        lemma_totals_nonneg(cs.subrange(0, i));
    }
}

proof fn lemma_totals_nonneg(cs: Seq<CommitRecord>)
    ensures
        total_additions(cs) >= 0,
        total_deletions(cs) >= 0,
    decreases cs.len(),
{
    if cs.len() > 0 {
        lemma_totals_nonneg(cs.drop_last());
    }
}

/// Each commit's own counts are bounded by the totals.
proof fn lemma_commit_le_total(cs: Seq<CommitRecord>, k: int)
    requires
        0 <= k < cs.len(),
    ensures
        cs[k].additions <= total_additions(cs),
        cs[k].deletions <= total_deletions(cs),
    decreases cs.len(),
{
    lemma_totals_nonneg(cs.drop_last());
    if k == cs.len() - 1 {
    } else {
        lemma_commit_le_total(cs.drop_last(), k);
        assert(cs.drop_last()[k] == cs[k]);
    }
}

/// The extension stream of a path stream.
pub open spec fn ext_stream_of(ps: Seq<Seq<char>>) -> Seq<Seq<char>> {
    ps.map_values(|p: Seq<char>| ext_of(p))
}

/// What `aggregate` promises of its result, for identity (`name`, `email`)
/// and commit set `cs`.
pub open spec fn stats_of(
    r: ContributorStats,
    name: Seq<char>,
    email: Seq<char>,
    cs: Seq<CommitRecord>,
) -> bool {
    &&& r.name@ == name
    &&& r.email@ == email
    &&& r.commit_count == cs.len()
    &&& r.additions == total_additions(cs)
    &&& r.deletions == total_deletions(cs)
    &&& forall|i: int, j: int|
        0 <= i < j < r.files_changed@.len() ==> r.files_changed@[i]@ != r.files_changed@[j]@
    &&& forall|i: int|
        0 <= i < r.files_changed@.len() ==> occ(#[trigger] r.files_changed@[i]@, all_paths(cs)) > 0
    &&& forall|p: Seq<char>|
        occ(p, all_paths(cs)) > 0 ==> exists|i: int|
            0 <= i < r.files_changed@.len() && #[trigger] r.files_changed@[i]@ == p
    &&& counts_stream(r.most_modified_files@, all_paths(cs))
    &&& desc_by_count(r.most_modified_files@)
    &&& r.most_modified_files@.len() == r.files_changed@.len()
    &&& counts_stream(r.file_types@, ext_stream_of(all_paths(cs)))
    &&& r.largest_commits@.len() == if cs.len() < LARGEST_RETAINED {
        cs.len() as int
    } else {
        LARGEST_RETAINED as int
    }
    &&& sizes_desc(r.largest_commits@)
    &&& sum_sizes(r.largest_commits@) <= total_additions(cs) + total_deletions(cs)
    &&& entries_from(r.largest_commits@, cs)
    &&& retains_largest(r.largest_commits@, cs)
    &&& cs.len() > 0 ==> forall|k: int|
        0 <= k < cs.len() ==> cs[k].additions + cs[k].deletions <= entry_size(
            r.largest_commits@[0],
        )
}

/// `p` is one of the listed file names.
pub open spec fn path_listed(files: Seq<String>, p: Seq<char>) -> bool {
    exists|i: int| 0 <= i < files.len() && files[i]@ == p
}

/// The listed path of every `most_modified_files` row is a member of
/// `files_changed`.
pub open spec fn most_modified_within(r: ContributorStats) -> bool {
    forall|x: int|
        0 <= x < r.most_modified_files@.len() ==> path_listed(
            r.files_changed@,
            #[trigger] r.most_modified_files@[x].0@,
        )
}

/// Every path listed in `most_modified_files` is a member of
/// `files_changed`, so the number of distinct listed paths never exceeds
/// `files_changed`'s length.
pub proof fn lemma_most_modified_within_files(
    r: ContributorStats,
    name: Seq<char>,
    email: Seq<char>,
    cs: Seq<CommitRecord>,
)
    requires
        stats_of(r, name, email, cs),
    ensures
        r.files_changed@.len() >= r.most_modified_files@.len(),
        most_modified_within(r),
{
    assert forall|x: int|
        0 <= x < r.most_modified_files@.len() implies path_listed(
        r.files_changed@,
        #[trigger] r.most_modified_files@[x].0@,
    ) by {
        let p = r.most_modified_files@[x].0@;
        assert(r.most_modified_files@[x].1 == occ(p, all_paths(cs)));
        assert(r.most_modified_files@[x].1 >= 1);
        assert(occ(p, all_paths(cs)) > 0);
        let w = choose|w: int|
            0 <= w < r.files_changed@.len() && #[trigger] r.files_changed@[w]@ == p;
        assert(r.files_changed@[w]@ == p);
    }
}

/// The total change size retained in `largest_commits` never exceeds the
/// identity's own total change size.
pub proof fn lemma_largest_within_totals(
    r: ContributorStats,
    name: Seq<char>,
    email: Seq<char>,
    cs: Seq<CommitRecord>,
)
    requires
        stats_of(r, name, email, cs),
    ensures
        sum_sizes(r.largest_commits@) <= r.additions + r.deletions,
{
}

/// Aggregate one identity's commits into its statistics record.
///
/// The bounds in `requires` only keep the accumulated counters within
/// machine range.
#[verifier::rlimit(100)]
pub fn aggregate(name: &str, email: &str, commits: &Vec<CommitRecord>) -> (r: ContributorStats)
    requires
        total_additions(commits@) + total_deletions(commits@) <= u64::MAX,
        all_paths(commits@).len() < u64::MAX,
    ensures
        stats_of(r, name@, email@, commits@),
{
    let ghost cs = commits@;
    let mut adds: u64 = 0;
    let mut dels: u64 = 0;
    let mut path_counts: Vec<(String, u64)> = Vec::new();
    let mut ext_counts: Vec<(String, u64)> = Vec::new();
    let mut largest: Vec<(u64, u64, String)> = Vec::new();
    let ghost mut ps = Seq::<Seq<char>>::empty();
    let n = commits.len();
    let mut i: usize = 0;
    proof {
        assert(cs.subrange(0, 0) =~= Seq::<CommitRecord>::empty());
        assert(all_paths(cs.subrange(0, 0)) =~= Seq::<Seq<char>>::empty());
        assert(ext_stream_of(ps) =~= Seq::<Seq<char>>::empty());
        assert(retains_largest(largest@, cs.subrange(0, 0))) by {
            reveal(retains_largest);
        }
    }
    while i < n
        invariant
            0 <= i <= n,
            n == cs.len(),
            commits@ == cs,
            total_additions(cs) + total_deletions(cs) <= u64::MAX,
            all_paths(cs).len() < u64::MAX,
            ps == all_paths(cs.subrange(0, i as int)),
            adds == total_additions(cs.subrange(0, i as int)),
            dels == total_deletions(cs.subrange(0, i as int)),
            counts_stream(path_counts@, ps),
            counts_stream(ext_counts@, ext_stream_of(ps)),
            sizes_desc(largest@),
            forall|x: int| 0 <= x < largest@.len() ==> entry_size(#[trigger] largest@[x])
                <= u64::MAX,
            largest@.len() == if i < LARGEST_RETAINED {
                i as int
            } else {
                LARGEST_RETAINED as int
            },
            sum_sizes(largest@) <= adds + dels,
            entries_from(largest@, cs.subrange(0, i as int)),
            retains_largest(largest@, cs.subrange(0, i as int)),
            i > 0 ==> forall|k: int|
                0 <= k < i ==> cs[k].additions + cs[k].deletions <= entry_size(largest@[0]),
        decreases n - i,
    {
        let c = &commits[i];
        proof {
            lemma_prefix_step(cs, i as int);
            lemma_prefix_le(cs, i as int + 1);
            lemma_commit_le_total(cs, i as int);
        }
        let m = c.paths.len();
        let mut j: usize = 0;
        while j < m
            invariant
                0 <= j <= m,
                0 <= i < n,
                n == cs.len(),
                commits@ == cs,
                m == cs[i as int].paths@.len(),
                *c == cs[i as int],
                all_paths(cs).len() < u64::MAX,
                ps == all_paths(cs.subrange(0, i as int)) + commit_paths(cs[i as int]).take(
                    j as int,
                ),
                all_paths(cs.subrange(0, i as int + 1)).len() <= all_paths(cs).len(),
                all_paths(cs.subrange(0, i as int + 1)) == all_paths(cs.subrange(0, i as int))
                    + commit_paths(cs[i as int]),
                counts_stream(path_counts@, ps),
                counts_stream(ext_counts@, ext_stream_of(ps)),
            decreases m - j,
        {
            let path = &c.paths[j];
            proof {
                assert(commit_paths(cs[i as int])[j as int] == path@);
                assert(commit_paths(cs[i as int]).take(j as int + 1) =~= commit_paths(
                    cs[i as int],
                ).take(j as int).push(path@));
                assert(ps.push(path@).len() <= all_paths(cs.subrange(0, i as int + 1)).len());
            }
            bump_count(&mut path_counts, path.as_str(), Ghost(ps));
            let ext = extension_of(path.as_str());
            bump_count(&mut ext_counts, ext.as_str(), Ghost(ext_stream_of(ps)));
            proof {
                assert(ext_stream_of(ps.push(path@)) =~= ext_stream_of(ps).push(ext_of(path@)));
                ps = ps.push(path@);
            }
            j = j + 1;
        }
        proof {
            assert(commit_paths(cs[i as int]).take(m as int) =~= commit_paths(cs[i as int]));
        }
        let ghost pre_largest = largest@;
        update_largest(&mut largest, c);
        proof {
            let i1 = i as int + 1;
            assert forall|x: int|
                0 <= x < largest@.len() implies exists|k: int|
                    0 <= k < i1 && entry_of(#[trigger] largest@[x], cs.subrange(0, i1)[k]) by {
                if entry_of(largest@[x], cs[i as int]) {
                    assert(cs.subrange(0, i1)[i as int] == cs[i as int]);
                } else {
                    let y = choose|y: int| 0 <= y < pre_largest.len() && pre_largest[y]
                        == largest@[x];
                    let k = choose|k: int|
                        0 <= k < i && entry_of(pre_largest[y], cs.subrange(0, i as int)[k]);
                    assert(cs.subrange(0, i1)[k] == cs.subrange(0, i as int)[k]);
                    assert(entry_of(largest@[x], cs.subrange(0, i1)[k]));
                }
            }
            lemma_retains_step(pre_largest, largest@, cs, i as int, cs[i as int]);
        }
        adds = adds + c.additions;
        dels = dels + c.deletions;
        i = i + 1;
    }
    proof {
        assert(cs.subrange(0, n as int) =~= cs);
    }
    let mut files: Vec<String> = Vec::new();
    let pn = path_counts.len();
    let mut x: usize = 0;
    while x < pn
        invariant
            0 <= x <= pn,
            pn == path_counts@.len(),
            files@.len() == x,
            forall|y: int| 0 <= y < x ==> #[trigger] files@[y]@ == path_counts@[y].0@,
        decreases pn - x,
    {
        files.push(path_counts[x].0.clone());
        x = x + 1;
    }
    let most_modified = sort_desc_by_count(&path_counts);
    proof {
        lemma_counts_stream_reordered(path_counts@, most_modified@, all_paths(cs));
    }
    let ghost fcv = files@;
    proof {
        assert forall|ii: int|
            0 <= ii < fcv.len() implies occ(#[trigger] fcv[ii]@, all_paths(cs)) > 0 by {
            assert(path_counts@[ii].1 == occ(path_counts@[ii].0@, all_paths(cs)));
            assert(path_counts@[ii].1 >= 1);
        }
        assert forall|p: Seq<char>| occ(p, all_paths(cs)) > 0 implies exists|ii: int|
            0 <= ii < fcv.len() && #[trigger] fcv[ii]@ == p by {
            assert(key_present(path_counts@, p));
            let w = choose|w: int| 0 <= w < path_counts@.len() && path_counts@[w].0@ == p;
            assert(fcv[w]@ == p);
        }
        assert forall|ii: int, jj: int|
            0 <= ii < jj < fcv.len() implies fcv[ii]@ != fcv[jj]@ by {
            assert(path_counts@[ii].0@ != path_counts@[jj].0@);
        }
    }
    let r = ContributorStats {
        name: String::from_str(name),
        email: String::from_str(email),
        commit_count: n as u64,
        additions: adds,
        deletions: dels,
        files_changed: files,
        most_modified_files: most_modified,
        file_types: ext_counts,
        largest_commits: largest,
    };
    proof {
        assert(r.files_changed@ == fcv);
        assert forall|p: Seq<char>| occ(p, all_paths(cs)) > 0 implies exists|ii: int|
            0 <= ii < r.files_changed@.len() && #[trigger] r.files_changed@[ii]@ == p by {
            let w = choose|w: int| 0 <= w < fcv.len() && fcv[w]@ == p;
            assert(r.files_changed@[w]@ == p);
        }
    }
    r
}

} // verus!
