//! The detail page of a dynamic: its comments arranged as a tree.

use vstd::prelude::*;
use crate::dynamic::strings_view;
use crate::json::{or_null, Json, JsonV};
use crate::store::{string_list, string_list_of};

verus! {

/// A stored comment, as the detail page reads it.
#[derive(Debug, PartialEq)]
pub struct ReplyRow {
    pub rpid: i64,
    pub parent_rpid: Option<i64>,
    pub uname: String,
    pub avatar: String,
    pub content: String,
    pub images: Option<Json>,
    pub ctime: i64,
}

/// A comment of the detail page, with the replies placed under it.
#[derive(Debug, PartialEq)]
pub struct ReplyItem {
    pub rpid: i64,
    pub parent_rpid: Option<i64>,
    pub uname: String,
    pub avatar: String,
    pub content: String,
    pub images: Vec<String>,
    pub ctime: i64,
    pub sub_replies: Vec<ReplyItem>,
}

/// The mathematical value of a [`ReplyItem`].
pub struct ReplyItemV {
    pub rpid: i64,
    pub parent_rpid: Option<i64>,
    pub uname: Seq<char>,
    pub avatar: Seq<char>,
    pub content: Seq<char>,
    pub images: Seq<Seq<char>>,
    pub ctime: i64,
    pub sub_replies: Seq<ReplyItemV>,
}

pub open spec fn item_view(it: ReplyItem) -> ReplyItemV
    decreases it, 0nat,
{
    ReplyItemV {
        rpid: it.rpid,
        parent_rpid: it.parent_rpid,
        uname: it.uname@,
        avatar: it.avatar@,
        content: it.content@,
        images: strings_view(it.images@),
        ctime: it.ctime,
        sub_replies: item_list_view(it.sub_replies@),
    }
}

pub open spec fn item_list_view(s: Seq<ReplyItem>) -> Seq<ReplyItemV>
    decreases s, s.len(),
{
    if s.len() == 0 {
        Seq::empty()
    } else {
        item_list_view(s.subrange(0, s.len() - 1)).push(item_view(s[s.len() - 1]))
    }
}

proof fn lemma_item_list_view_push(s: Seq<ReplyItem>, x: ReplyItem)
    ensures
        item_list_view(s.push(x)) == item_list_view(s).push(item_view(x)),
{
    assert(s.push(x).subrange(0, s.len() as int) =~= s);
}

/// The comments of the page are stored with distinct ids, and none
/// replies to itself.
pub open spec fn well_formed_rows(rows: Seq<ReplyRow>) -> bool {
    &&& forall|i: int, j: int|
        0 <= i < rows.len() && 0 <= j < rows.len() && i != j ==> #[trigger] rows[i].rpid
            != #[trigger] rows[j].rpid
    &&& forall|i: int| 0 <= i < rows.len() ==> (#[trigger] rows[i]).parent_rpid != Some(rows[i].rpid)
}

/// Row `k` replies to a comment of the page.
pub open spec fn has_parent(rows: Seq<ReplyRow>, k: int) -> bool {
    rows[k].parent_rpid matches Some(p) && exists|j: int| 0 <= j < rows.len() && #[trigger] rows[j].rpid == p
}

/// The row that row `j` replies to (when it has one on the page).
pub open spec fn up(rows: Seq<ReplyRow>, j: int) -> int {
    choose|i: int| 0 <= i < rows.len() && rows[i].rpid == rows[j].parent_rpid->0
}

/// The row `d` replies up from row `j`; `-1` once the chain of replies
/// leaves the page.
pub open spec fn ups(rows: Seq<ReplyRow>, j: int, d: nat) -> int
    decreases d,
{
    if d == 0 {
        j
    } else {
        let a = ups(rows, j, (d - 1) as nat);
        if 0 <= a < rows.len() && has_parent(rows, a) {
            up(rows, a)
        } else {
            -1
        }
    }
}

/// Going up the replies from row `j` comes back to it.
pub open spec fn on_reply_cycle(rows: Seq<ReplyRow>, j: int) -> bool {
    exists|d: nat| 1 <= d <= rows.len() && #[trigger] ups(rows, j, d) == j
}

/// No row above row `j` (within the page's length) comes after it.
pub open spec fn latest_on_chain(rows: Seq<ReplyRow>, j: int) -> bool {
    forall|d: nat| d <= rows.len() ==> #[trigger] ups(rows, j, d) <= j
}

/// Row `j` heads a tree of the page: it replies to no comment of the
/// page, or it closes a cycle of replies and comes last on that cycle.
pub open spec fn heads_tree(rows: Seq<ReplyRow>, j: int) -> bool {
    !has_parent(rows, j) || (on_reply_cycle(rows, j) && latest_on_chain(rows, j))
}

/// Row `c` is placed below row `k`: it replies to `k` and heads no tree.
pub open spec fn placed_below(rows: Seq<ReplyRow>, c: int, k: int) -> bool {
    rows[c].parent_rpid == Some(rows[k].rpid) && !heads_tree(rows, c)
}

/// The comment of row `k` with the replies placed below it, in page
/// order, each with its own replies, down to `depth` levels.
pub open spec fn node_of(rows: Seq<ReplyRow>, k: int, depth: nat) -> ReplyItemV
    decreases depth, 0int, 0int,
{
    ReplyItemV {
        rpid: rows[k].rpid,
        parent_rpid: rows[k].parent_rpid,
        uname: rows[k].uname@,
        avatar: rows[k].avatar@,
        content: rows[k].content@,
        images: string_list_of(
            match rows[k].images {
                Some(j) => j@,
                None => JsonV::Null,
            },
        ),
        ctime: rows[k].ctime,
        sub_replies: if depth == 0 {
            Seq::empty()
        } else {
            children_of(rows, k, (depth - 1) as nat, rows.len() as int)
        },
    }
}

/// The replies placed below row `k` among the first `i` rows, each as a
/// comment with `depth` levels of replies below it.
pub open spec fn children_of(rows: Seq<ReplyRow>, k: int, depth: nat, i: int) -> Seq<ReplyItemV>
    decreases depth, 1int, i,
{
    if i <= 0 || i > rows.len() {
        Seq::empty()
    } else {
        let prev = children_of(rows, k, depth, i - 1);
        if placed_below(rows, i - 1, k) {
            prev.push(node_of(rows, i - 1, depth))
        } else {
            prev
        }
    }
}

/// The top level of the page among the first `n` rows: the comments that
/// head a tree, in page order, each with all the replies below it (a page
/// of `len` comments is at most `len` deep).
pub open spec fn top_nodes(rows: Seq<ReplyRow>, n: int) -> Seq<ReplyItemV>
    decreases n,
{
    if n <= 0 {
        Seq::empty()
    } else {
        let prev = top_nodes(rows, n - 1);
        if heads_tree(rows, n - 1) {
            prev.push(node_of(rows, n - 1, rows.len()))
        } else {
            prev
        }
    }
}

fn build_node(rows: &Vec<ReplyRow>, heads: &Vec<bool>, k: usize, depth: usize) -> (r: ReplyItem)
    requires
        k < rows@.len(),
        heads@.len() == rows@.len(),
        forall|j: int| 0 <= j < rows@.len() ==> heads@[j] == heads_tree(rows@, j),
    ensures
        item_view(r) == node_of(rows@, k as int, depth as nat),
    decreases depth,
{
    let row = &rows[k];
    let mut subs: Vec<ReplyItem> = Vec::new();
    if depth > 0 {
        let n = rows.len();
        for i in 0..n
            invariant
                n == rows@.len(),
                k < rows@.len(),
                depth > 0,
                *row == rows@[k as int],
                heads@.len() == rows@.len(),
                forall|j: int| 0 <= j < rows@.len() ==> heads@[j] == heads_tree(rows@, j),
                item_list_view(subs@) == children_of(rows@, k as int, (depth - 1) as nat, i as int),
        {
            if rows[i].parent_rpid == Some(row.rpid) && !heads[i] {
                let child = build_node(rows, heads, i, depth - 1);
                proof {
                    lemma_item_list_view_push(subs@, child);
                }
                subs.push(child);
            }
        }
    }
    let images = match &row.images {
        Some(j) => string_list(Some(j)),
        None => string_list(None),
    };
    proof {
        if depth == 0 {
            assert(item_list_view(subs@) =~= Seq::<ReplyItemV>::empty());
        }
    }
    ReplyItem {
        rpid: row.rpid,
        parent_rpid: row.parent_rpid,
        uname: row.uname.clone(),
        avatar: row.avatar.clone(),
        content: row.content.clone(),
        images,
        ctime: row.ctime,
        sub_replies: subs,
    }
}

/// The row that row `k` replies to, if it is on the page.
fn parent_index(rows: &Vec<ReplyRow>, k: usize) -> (r: Option<usize>)
    requires
        well_formed_rows(rows@),
        k < rows@.len(),
    ensures
        match r {
            Some(i) => has_parent(rows@, k as int) && i == up(rows@, k as int) && i < rows@.len(),
            None => !has_parent(rows@, k as int),
        },
{
    match rows[k].parent_rpid {
        Some(p) => {
            let n = rows.len();
            for j in 0..n
                invariant
                    n == rows@.len(),
                    well_formed_rows(rows@),
                    k < n,
                    rows@[k as int].parent_rpid == Some(p),
                    forall|q: int| 0 <= q < j ==> #[trigger] rows@[q].rpid != p,
            {
                if rows[j].rpid == p {
                    proof {
                        assert(has_parent(rows@, k as int));
                        let u = up(rows@, k as int);
                        assert(0 <= u < n && rows@[u].rpid == p);
                        if u != j {
                            assert(rows@[u].rpid != rows@[j as int].rpid);
                        }
                    }
                    return Some(j);
                }
            }
            None
        },
        None => None,
    }
}

/// An index as a row number, `-1` for none.
pub open spec fn index_of(o: Option<usize>) -> int {
    match o {
        Some(i) => i as int,
        None => -1,
    }
}

/// Whether row `j` heads a tree, given the parent row of every row.
fn heads_tree_at(rows: &Vec<ReplyRow>, parents: &Vec<Option<usize>>, j: usize) -> (r: bool)
    requires
        j < rows@.len(),
        parents@.len() == rows@.len(),
        forall|i: int|
            0 <= i < rows@.len() ==> match #[trigger] parents@[i] {
                Some(p) => has_parent(rows@, i) && p == up(rows@, i) && p < rows@.len(),
                None => !has_parent(rows@, i),
            },
    ensures
        r == heads_tree(rows@, j as int),
{
    let n = rows.len();
    if parents[j].is_none() {
        return true;
    }
    let mut cur: Option<usize> = Some(j);
    let mut cycle = false;
    let mut latest = true;
    let mut d: usize = 0;
    while d < n
        invariant
            n == rows@.len(),
            j < n,
            d <= n,
            parents@.len() == rows@.len(),
            forall|i: int|
                0 <= i < rows@.len() ==> match #[trigger] parents@[i] {
                    Some(p) => has_parent(rows@, i) && p == up(rows@, i) && p < rows@.len(),
                    None => !has_parent(rows@, i),
                },
            index_of(cur) == ups(rows@, j as int, d as nat),
            cur matches Some(x) ==> x < n,
            cycle == exists|e: nat| 1 <= e <= d && #[trigger] ups(rows@, j as int, e) == j,
            latest == forall|e: nat| e <= d ==> #[trigger] ups(rows@, j as int, e) <= j,
        decreases n - d,
    {
        let ghost old_d = d as nat;
        let ghost old_cycle = cycle;
        let ghost old_latest = latest;
        cur = match cur {
            Some(x) => parents[x],
            None => None,
        };
        d = d + 1;
        proof {
            assert(index_of(cur) == ups(rows@, j as int, d as nat));
        }
        match cur {
            Some(x) => {
                if x == j {
                    cycle = true;
                }
                if x > j {
                    latest = false;
                }
            },
            None => {},
        }
        proof {
            let u = ups(rows@, j as int, d as nat);
            assert(cycle == exists|e: nat| 1 <= e <= d && #[trigger] ups(rows@, j as int, e) == j) by {
                if old_cycle {
                    let e = choose|e: nat| 1 <= e <= old_d && #[trigger] ups(rows@, j as int, e) == j;
                    assert(1 <= e <= d);
                }
                if u == j {
                    assert(ups(rows@, j as int, d as nat) == j);
                }
            }
            assert(latest == forall|e: nat| e <= d ==> #[trigger] ups(rows@, j as int, e) <= j) by {
                if !latest {
                    if u > j {
                        assert(ups(rows@, j as int, d as nat) > j);
                    } else {
                        let e = choose|e: nat| e <= old_d && !(#[trigger] ups(rows@, j as int, e) <= j);
                        assert(e <= d);
                    }
                } else {
                    assert forall|e: nat| e <= d implies #[trigger] ups(rows@, j as int, e) <= j by {
                        if e < d {
                            assert(e <= old_d);
                        }
                    }
                }
            }
        }
    }
    cycle && latest
}

/// Arranges the comments of a dynamic (ordered by time) as the detail
/// page shows them: every comment that replies to a comment of the page
/// is placed under that comment, whatever their order; the others form
/// the top level, and so does the last comment (in page order) of a
/// cycle of comments replying to each other. Each level keeps the page
/// order, and every comment appears exactly once.
pub fn build_reply_tree(rows: &Vec<ReplyRow>) -> (r: Vec<ReplyItem>)
    requires
        well_formed_rows(rows@),
    ensures
        item_list_view(r@) == top_nodes(rows@, rows@.len() as int),
{
    let n = rows.len();
    let mut parents: Vec<Option<usize>> = Vec::new();
    for i in 0..n
        invariant
            n == rows@.len(),
            well_formed_rows(rows@),
            parents@.len() == i,
            forall|q: int|
                0 <= q < i ==> match #[trigger] parents@[q] {
                    Some(p) => has_parent(rows@, q) && p == up(rows@, q) && p < rows@.len(),
                    None => !has_parent(rows@, q),
                },
    {
        let p = parent_index(rows, i);
        parents.push(p);
    }
    let mut heads: Vec<bool> = Vec::new();
    for i in 0..n
        invariant
            n == rows@.len(),
            parents@.len() == n,
            forall|q: int|
                0 <= q < rows@.len() ==> match #[trigger] parents@[q] {
                    Some(p) => has_parent(rows@, q) && p == up(rows@, q) && p < rows@.len(),
                    None => !has_parent(rows@, q),
                },
            heads@.len() == i,
            forall|q: int| 0 <= q < i ==> heads@[q] == heads_tree(rows@, q),
    {
        let h = heads_tree_at(rows, &parents, i);
        heads.push(h);
    }
    let mut top: Vec<ReplyItem> = Vec::new();
    for k in 0..n
        invariant
            n == rows@.len(),
            heads@.len() == n,
            forall|q: int| 0 <= q < rows@.len() ==> heads@[q] == heads_tree(rows@, q),
            item_list_view(top@) == top_nodes(rows@, k as int),
    {
        if heads[k] {
            let node = build_node(rows, &heads, k, n);
            proof {
                lemma_item_list_view_push(top@, node);
            }
            top.push(node);
        }
    }
    top
}

/// The comments in a tree: the comment and all the replies below it.
pub open spec fn node_count(v: ReplyItemV) -> nat
    decreases v, 0nat,
{
    1 + list_count(v.sub_replies)
}

/// The comments in a list of trees.
pub open spec fn list_count(s: Seq<ReplyItemV>) -> nat
    decreases s, s.len(),
{
    if s.len() == 0 {
        0
    } else {
        list_count(s.subrange(0, s.len() - 1)) + node_count(s[s.len() - 1])
    }
}


/// Whether the comments of a page have distinct ids and none replies to itself.
pub fn rows_well_formed(rows: &Vec<ReplyRow>) -> (r: bool)
    ensures
        r == well_formed_rows(rows@),
{
    let n = rows.len();
    for i in 0..n
        invariant
            n == rows@.len(),
            forall|a: int, b: int|
                0 <= a < i && 0 <= b < n && a != b ==> #[trigger] rows@[a].rpid != #[trigger] rows@[b].rpid,
            forall|a: int| 0 <= a < i ==> (#[trigger] rows@[a]).parent_rpid != Some(rows@[a].rpid),
    {
        if rows[i].parent_rpid == Some(rows[i].rpid) {
            return false;
        }
        for j in 0..n
            invariant
                n == rows@.len(),
                i < n,
                forall|b: int| 0 <= b < j && b != i ==> #[trigger] rows@[b].rpid != rows@[i as int].rpid,
        {
            if j != i && rows[j].rpid == rows[i].rpid {
                return false;
            }
        }
    }
    true
}

/// Arranges the comments of a page as a tree, or `None` when two comments
/// share an id or one replies to itself.
pub fn build_reply_tree_checked(rows: &Vec<ReplyRow>) -> (r: Option<Vec<ReplyItem>>)
    ensures
        match r {
            Some(t) => well_formed_rows(rows@) && item_list_view(t@) == top_nodes(
                rows@,
                rows@.len() as int,
            ),
            None => !well_formed_rows(rows@),
        },
{
    if rows_well_formed(rows) {
        Some(build_reply_tree(rows))
    } else {
        None
    }
}

} // verus!
