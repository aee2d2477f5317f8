//! Properties that hold across the library's functions.

use vstd::prelude::*;
use vstd::multiset::Multiset;
use vstd::relations::injective_on;
use vstd::set_lib::{lemma_int_range, lemma_len_subset, lemma_map_size, set_int_range};
use crate::detail::{
    children_of, has_parent, heads_tree, latest_on_chain, list_count, node_count, node_of,
    on_reply_cycle, placed_below, top_nodes, up, ups, well_formed_rows,
    ReplyItemV, ReplyRow,
};
use crate::dynamic::{trimmed_part, join_nonempty, major_parts, module_parts, module_text, nonblank_part, normalized_url};
use crate::json::JsonV;
use crate::store::string_list_of;
use crate::loghistory::{pushed_history, MAX_HISTORY_LOGS};
use crate::stats::{same_identity, versions_of, StatRow, VersionV};
use crate::text::{has_prefix, trimmed};
use crate::upper::UpperProfile;
use crate::workflow::{
    flagged_indices, records_profile, round_indices, same_profile, take_at_most, MAX_NEW_PER_ROUND,
    MAX_RESCAN_PER_ROUND,
};

verus! {

/// No normalized picture URL is plain `http`, and normalizing twice
/// changes nothing.
pub proof fn law_normalized_url_is_not_http(url: Seq<char>)
    ensures
        !has_prefix(normalized_url(url), "http://"@),
        normalized_url(normalized_url(url)) == normalized_url(url),
{
    reveal_strlit("http://");
    reveal_strlit("https://");
    let r = normalized_url(url);
    if has_prefix(url, "http://"@) {
        assert(r[4] == 's');
        assert(r.subrange(0, 7)[4] == 's');
    }
}


proof fn lemma_flagged(flags: Seq<bool>, want: bool)
    requires
        flags.len() <= usize::MAX,
    ensures
        flagged_indices(flags, want).len() <= flags.len(),
        forall|k: int|
            #![trigger flagged_indices(flags, want)[k]]
            0 <= k < flagged_indices(flags, want).len() ==> flagged_indices(flags, want)[k]
                < flags.len() && flags[flagged_indices(flags, want)[k] as int] == want,
        forall|a: int, b: int|
            0 <= a < b < flagged_indices(flags, want).len() ==> #[trigger] flagged_indices(
                flags,
                want,
            )[a] < #[trigger] flagged_indices(flags, want)[b],
        forall|i: int|
            0 <= i < flags.len() && #[trigger] flags[i] == want ==> flagged_indices(
                flags,
                want,
            ).contains(i as usize),
    decreases flags.len(),
{
    if flags.len() > 0 {
        let prev = flags.drop_last();
        lemma_flagged(prev, want);
        let p = flagged_indices(prev, want);
        let f = flagged_indices(flags, want);
        assert forall|i: int| 0 <= i < flags.len() && #[trigger] flags[i] == want implies f.contains(
            i as usize,
        ) by {
            if i < flags.len() - 1 {
                assert(prev[i] == flags[i]);
                let k = choose|k: int| 0 <= k < p.len() && p[k] == i as usize;
                assert(f[k] == i as usize);
            } else {
                assert(f[f.len() - 1] == i as usize);
            }
        }
    }
}

/// A round handles at most [`MAX_RESCAN_PER_ROUND`] + [`MAX_NEW_PER_ROUND`]
/// dynamics, each once; the rescans come first and are at most
/// [`MAX_RESCAN_PER_ROUND`]; and a dynamic marked for a rescan is left for
/// a later round only when the round already holds the full number of rescans.
pub proof fn law_round_selection(rescan: Seq<bool>)
    requires
        rescan.len() <= usize::MAX,
    ensures
        round_indices(rescan).len() <= MAX_RESCAN_PER_ROUND + MAX_NEW_PER_ROUND,
        forall|k: int|
            0 <= k < round_indices(rescan).len() ==> #[trigger] round_indices(rescan)[k]
                < rescan.len(),
        forall|a: int, b: int|
            0 <= a < b < round_indices(rescan).len() ==> #[trigger] round_indices(rescan)[a]
                != #[trigger] round_indices(rescan)[b],
        forall|a: int, b: int|
            0 <= a < b < round_indices(rescan).len() && rescan[#[trigger] round_indices(
                rescan,
            )[b] as int] ==> rescan[#[trigger] round_indices(rescan)[a] as int],
        forall|k: int|
            0 <= k < round_indices(rescan).len() && rescan[#[trigger] round_indices(rescan)[k] as int]
                ==> k < MAX_RESCAN_PER_ROUND,
        forall|i: int|
            0 <= i < rescan.len() && #[trigger] rescan[i] && !round_indices(rescan).contains(
                i as usize,
            ) ==> round_indices(rescan).len() >= MAX_RESCAN_PER_ROUND && forall|k: int|
                0 <= k < MAX_RESCAN_PER_ROUND ==> rescan[#[trigger] round_indices(rescan)[k] as int],
{
    lemma_flagged(rescan, true);
    lemma_flagged(rescan, false);
    let t = flagged_indices(rescan, true);
    let f = flagged_indices(rescan, false);
    let a = take_at_most(t, MAX_RESCAN_PER_ROUND as nat);
    let b = take_at_most(f, MAX_NEW_PER_ROUND as nat);
    let r = round_indices(rescan);
    assert(r == a + b);
    assert forall|k: int| 0 <= k < a.len() implies #[trigger] a[k] == t[k] by {}
    assert forall|k: int| 0 <= k < b.len() implies #[trigger] b[k] == f[k] by {}
    assert forall|k: int| 0 <= k < r.len() implies (k < a.len() ==> r[k] == t[k] && rescan[(
    r[k] as int)]) && (k >= a.len() ==> r[k] == f[k - a.len()] && !rescan[(r[k] as int)]) by {
        if k < a.len() {
            assert(r[k] == a[k]);
        } else {
            assert(r[k] == b[k - a.len()]);
        }
    }
    assert forall|x: int, y: int| 0 <= x < y < r.len() implies #[trigger] r[x] != #[trigger] r[y] by {
        if y < a.len() {
            assert(t[x] < t[y]);
        } else if x >= a.len() {
            assert(f[x - a.len()] < f[y - a.len()]);
        }
    }
    assert forall|i: int|
        0 <= i < rescan.len() && #[trigger] rescan[i] && !r.contains(i as usize) implies r.len()
        >= MAX_RESCAN_PER_ROUND && forall|k: int|
        0 <= k < MAX_RESCAN_PER_ROUND ==> rescan[#[trigger] r[k] as int] by {
        let j = choose|j: int| 0 <= j < t.len() && t[j] == i as usize;
        if t.len() <= MAX_RESCAN_PER_ROUND {
            assert(r[j] == i as usize);
        }
    }
}

/// A profile equal to the latest snapshot is not recorded again, and a
/// profile recorded as the first snapshot is.
pub proof fn law_unchanged_profile_not_recorded(p: UpperProfile, q: UpperProfile)
    ensures
        !records_profile(Some(p), p),
        same_profile(p, q) ==> !records_profile(Some(p), q),
        records_profile(None, p),
{
}

/// The log history never holds more than [`MAX_HISTORY_LOGS`] lines, and
/// its newest line is the last one appended.
pub proof fn law_history_bounded(h: Seq<Seq<char>>, message: Seq<char>)
    requires
        h.len() <= MAX_HISTORY_LOGS,
    ensures
        pushed_history(h, message).len() <= MAX_HISTORY_LOGS,
        pushed_history(h, message).last() == message,
{
}

/// The name/sign/face history has at most one version per snapshot, and
/// two consecutive versions never share name, sign and face.
pub proof fn law_versions_change(rows: Seq<StatRow>)
    ensures
        versions_of(rows).len() <= rows.len(),
        forall|k: int|
            0 <= k < versions_of(rows).len() - 1 ==> !(#[trigger] versions_of(rows)[k].name
                == versions_of(rows)[k + 1].name && versions_of(rows)[k].sign == versions_of(
                rows,
            )[k + 1].sign && versions_of(rows)[k].face == versions_of(rows)[k + 1].face),
    decreases rows.len(),
{
    if rows.len() > 0 {
        law_versions_change(rows.drop_last());
        let prev = versions_of(rows.drop_last());
        let v = versions_of(rows);
        let s = rows.last();
        if prev.len() > 0 && same_identity(prev.last(), s) {
            assert forall|k: int| 0 <= k < v.len() - 1 implies !(#[trigger] v[k].name == v[k + 1].name
                && v[k].sign == v[k + 1].sign && v[k].face == v[k + 1].face) by {
                assert(v[k] == prev[k]);
                if k + 1 < v.len() - 1 {
                    assert(v[k + 1] == prev[k + 1]);
                } else {
                    assert(v[k + 1].name == prev[k + 1].name);
                }
            }
        } else {
            assert forall|k: int| 0 <= k < v.len() - 1 implies !(#[trigger] v[k].name == v[k + 1].name
                && v[k].sign == v[k + 1].sign && v[k].face == v[k + 1].face) by {
                assert(v[k] == prev[k]);
                if k + 1 < v.len() - 1 {
                    assert(v[k + 1] == prev[k + 1]);
                }
            }
        }
    }
}


proof fn lemma_top_count(rows: Seq<ReplyRow>, m: int, j: int)
    requires
        well_formed_rows(rows),
        0 <= j < rows.len(),
        0 <= m <= rows.len(),
    ensures
        top_nodes(rows, m).to_multiset().count(node_of(rows, j, rows.len())) == if j < m && heads_tree(rows, j) {
            1nat
        } else {
            0nat
        },
    decreases m,
{
    broadcast use vstd::seq_lib::group_to_multiset_ensures, vstd::multiset::group_multiset_axioms,
        vstd::multiset::lemma_multiset_empty_len;

    let x = node_of(rows, j, rows.len());
    if m == 0 {
        let e = top_nodes(rows, 0);
        assert(e =~= Seq::<ReplyItemV>::empty());
        assert(e.to_multiset().len() == 0);
        assert(e.to_multiset() =~= vstd::multiset::Multiset::empty());
    } else {
        lemma_top_count(rows, m - 1, j);
        let prev = top_nodes(rows, m - 1);
        if heads_tree(rows, m - 1) {
            let y = node_of(rows, m - 1, rows.len());
            assert(prev.push(y).to_multiset() =~= prev.to_multiset().insert(y));
            if x == y {
                assert(rows[j].rpid == rows[m - 1].rpid);
            }
        }
    }
}

proof fn lemma_children_count(rows: Seq<ReplyRow>, k: int, d: nat, i: int, j: int)
    requires
        well_formed_rows(rows),
        0 <= j < rows.len(),
        0 <= k < rows.len(),
        0 <= i <= rows.len(),
    ensures
        children_of(rows, k, d, i).to_multiset().count(node_of(rows, j, d)) == if j < i
            && placed_below(rows, j, k) {
            1nat
        } else {
            0nat
        },
    decreases i,
{
    broadcast use vstd::seq_lib::group_to_multiset_ensures, vstd::multiset::group_multiset_axioms,
        vstd::multiset::lemma_multiset_empty_len;

    let x = node_of(rows, j, d);
    if i == 0 {
        let e = children_of(rows, k, d, 0);
        assert(e =~= Seq::<ReplyItemV>::empty());
        assert(e.to_multiset().len() == 0);
        assert(e.to_multiset() =~= vstd::multiset::Multiset::empty());
    } else {
        lemma_children_count(rows, k, d, i - 1, j);
        let prev = children_of(rows, k, d, i - 1);
        if placed_below(rows, i - 1, k) {
            let y = node_of(rows, i - 1, d);
            assert(prev.push(y).to_multiset() =~= prev.to_multiset().insert(y));
            if x == y {
                assert(rows[j].rpid == rows[i - 1].rpid);
            }
        }
    }
}

/// Every comment of a dynamic is placed on its detail page where it
/// belongs, whatever the time order of the comments: once at the top level
/// when it heads a tree (it replies to no comment of the page, or it is
/// the last of a cycle of comments replying to each other), else not
/// there; and once below the comment it replies to when it heads no tree,
/// and below no other.
pub proof fn law_reply_tree_places_every_comment(rows: Seq<ReplyRow>, j: int, k: int, depth: nat)
    requires
        well_formed_rows(rows),
        0 <= j < rows.len(),
        0 <= k < rows.len(),
    ensures
        top_nodes(rows, rows.len() as int).to_multiset().count(node_of(rows, j, rows.len())) == if heads_tree(rows, j) {
            1nat
        } else {
            0nat
        },
        node_of(rows, k, depth + 1).sub_replies.to_multiset().count(node_of(rows, j, depth)) == if placed_below(rows, j, k) {
            1nat
        } else {
            0nat
        },
{
    lemma_top_count(rows, rows.len() as int, j);
    lemma_children_count(rows, k, depth, rows.len() as int, j);
    assert(node_of(rows, k, depth + 1).sub_replies == children_of(rows, k, depth, rows.len() as int));
}

/// The row `d` steps up from row `j` along the tree of the page: a step
/// from a comment that heads a tree leaves the page (`-1`).
spec fn cut(rows: Seq<ReplyRow>, j: int, d: nat) -> int
    decreases d,
{
    if d == 0 {
        j
    } else {
        let a = cut(rows, j, (d - 1) as nat);
        if 0 <= a < rows.len() && !heads_tree(rows, a) {
            up(rows, a)
        } else {
            -1
        }
    }
}

/// Row `j` lies below row `k` (or is `k`) within `f` steps.
spec fn below(rows: Seq<ReplyRow>, j: int, k: int, f: nat) -> bool {
    exists|d: nat| d <= f && #[trigger] cut(rows, j, d) == k
}

/// Every comment of the page leads up, within the page, to a comment that
/// heads a tree.
spec fn every_comment_rooted(rows: Seq<ReplyRow>) -> bool {
    forall|j: int| 0 <= j < rows.len() ==> #[trigger] rooted(rows, j)
}

/// Comment `j` leads up, within the page, to a comment that heads a tree.
spec fn rooted(rows: Seq<ReplyRow>, j: int) -> bool {
    exists|d: nat|
        d <= rows.len() && 0 <= #[trigger] cut(rows, j, d) < rows.len() && heads_tree(
            rows,
            cut(rows, j, d),
        )
}

proof fn lemma_up(rows: Seq<ReplyRow>, j: int)
    requires
        well_formed_rows(rows),
        0 <= j < rows.len(),
        has_parent(rows, j),
    ensures
        0 <= up(rows, j) < rows.len(),
        rows[up(rows, j)].rpid == rows[j].parent_rpid->0,
        forall|i: int|
            0 <= i < rows.len() && rows[i].rpid == rows[j].parent_rpid->0 ==> i == up(rows, j),
{
    let p = rows[j].parent_rpid->0;
    let i0 = choose|i: int| 0 <= i < rows.len() && #[trigger] rows[i].rpid == p;
    assert(0 <= i0 < rows.len() && rows[i0].rpid == p);
}

proof fn lemma_cut_add(rows: Seq<ReplyRow>, j: int, a: nat, b: nat)
    ensures
        cut(rows, j, a + b) == cut(rows, cut(rows, j, a), b),
    decreases b,
{
    if b > 0 {
        lemma_cut_add(rows, j, a, (b - 1) as nat);
        assert((a + b - 1) as nat == a + (b - 1) as nat);
    }
}

proof fn lemma_cut_out(rows: Seq<ReplyRow>, b: nat)
    ensures
        cut(rows, -1, b) == -1,
    decreases b,
{
    if b > 0 {
        lemma_cut_out(rows, (b - 1) as nat);
    }
}

proof fn lemma_cut_outside(rows: Seq<ReplyRow>, j: int, y: nat)
    requires
        !(0 <= j < rows.len()),
        y >= 1,
    ensures
        cut(rows, j, y) == -1,
    decreases y,
{
    if y > 1 {
        lemma_cut_outside(rows, j, (y - 1) as nat);
    } else {
        assert(cut(rows, j, 0) == j);
    }
}

proof fn lemma_periodic(rows: Seq<ReplyRow>, k: int, m: nat, q: nat)
    requires
        cut(rows, k, m) == k,
    ensures
        cut(rows, k, q * m) == k,
    decreases q,
{
    if q > 0 {
        let p: nat = (q - 1) as nat;
        lemma_periodic(rows, k, m, p);
        let a: nat = p * m;
        assert(a + m == q * m) by (nonlinear_arith)
            requires
                p == q - 1,
                a == p * m,
        ;
        lemma_cut_add(rows, k, a, m);
    } else {
        assert(q * m == 0) by (nonlinear_arith)
            requires
                q == 0,
        ;
    }
}

proof fn lemma_no_cycle(rows: Seq<ReplyRow>, k: int, m: nat)
    requires
        well_formed_rows(rows),
        every_comment_rooted(rows),
        0 <= k < rows.len(),
        m >= 1,
    ensures
        cut(rows, k, m) != k,
{
    if cut(rows, k, m) == k {
        assert(rooted(rows, k));
        let d = choose|d: nat|
            d <= rows.len() && 0 <= #[trigger] cut(rows, k, d) < rows.len() && heads_tree(
                rows,
                cut(rows, k, d),
            );
        assert(cut(rows, k, d + 1) == -1);
        let q: nat = d + 1;
        lemma_periodic(rows, k, m, q);
        assert(q * m >= q) by (nonlinear_arith)
            requires
                m >= 1,
        ;
        lemma_cut_add(rows, k, q, (q * m - q) as nat);
        lemma_cut_out(rows, (q * m - q) as nat);
        assert(q + (q * m - q) as nat == q * m);
    }
}

/// Two depths reaching the same row of the page are equal.
proof fn lemma_unique_depth(rows: Seq<ReplyRow>, j: int, d1: nat, d2: nat)
    requires
        well_formed_rows(rows),
        every_comment_rooted(rows),
        0 <= cut(rows, j, d1) < rows.len(),
        cut(rows, j, d1) == cut(rows, j, d2),
    ensures
        d1 == d2,
{
    if d1 < d2 {
        lemma_cut_add(rows, j, d1, (d2 - d1) as nat);
        lemma_no_cycle(rows, cut(rows, j, d1), (d2 - d1) as nat);
    } else if d2 < d1 {
        lemma_cut_add(rows, j, d2, (d1 - d2) as nat);
        lemma_no_cycle(rows, cut(rows, j, d2), (d1 - d2) as nat);
    }
}

/// The rows of the tree of row `k`, `f` levels deep.
spec fn sub_ms(rows: Seq<ReplyRow>, k: int, f: nat) -> Multiset<int>
    decreases f, 0int, 0int,
{
    Multiset::singleton(k).add(
        if f == 0 {
            Multiset::empty()
        } else {
            kids_ms(rows, k, (f - 1) as nat, rows.len() as int)
        },
    )
}

/// The rows of the trees of the replies to row `k` among the first `i` rows.
spec fn kids_ms(rows: Seq<ReplyRow>, k: int, d: nat, i: int) -> Multiset<int>
    decreases d, 1int, i,
{
    if i <= 0 || i > rows.len() {
        Multiset::empty()
    } else if placed_below(rows, i - 1, k) {
        kids_ms(rows, k, d, i - 1).add(sub_ms(rows, i - 1, d))
    } else {
        kids_ms(rows, k, d, i - 1)
    }
}

/// The rows of the trees of the top level among the first `m` rows.
spec fn top_ms(rows: Seq<ReplyRow>, m: int) -> Multiset<int>
    decreases m,
{
    if m <= 0 {
        Multiset::empty()
    } else if heads_tree(rows, m - 1) {
        top_ms(rows, m - 1).add(sub_ms(rows, m - 1, rows.len()))
    } else {
        top_ms(rows, m - 1)
    }
}

proof fn lemma_list_count_push(s: Seq<ReplyItemV>, x: ReplyItemV)
    ensures
        list_count(s.push(x)) == list_count(s) + node_count(x),
{
    assert(s.push(x).subrange(0, s.len() as int) =~= s);
}

proof fn lemma_node_size(rows: Seq<ReplyRow>, k: int, d: nat)
    requires
        0 <= k < rows.len(),
    ensures
        node_count(node_of(rows, k, d)) == sub_ms(rows, k, d).len(),
    decreases d, 0int, 0int,
{
    broadcast use vstd::multiset::group_multiset_axioms;

    if d > 0 {
        lemma_kids_size(rows, k, (d - 1) as nat, rows.len() as int);
    } else {
        assert(node_of(rows, k, d).sub_replies =~= Seq::<ReplyItemV>::empty());
        assert(list_count(Seq::<ReplyItemV>::empty()) == 0);
    }
}

proof fn lemma_kids_size(rows: Seq<ReplyRow>, k: int, d: nat, i: int)
    requires
        0 <= k < rows.len(),
        0 <= i <= rows.len(),
    ensures
        list_count(children_of(rows, k, d, i)) == kids_ms(rows, k, d, i).len(),
    decreases d, 1int, i,
{
    broadcast use vstd::multiset::group_multiset_axioms;

    if i > 0 {
        lemma_kids_size(rows, k, d, i - 1);
        if placed_below(rows, i - 1, k) {
            lemma_node_size(rows, i - 1, d);
            lemma_list_count_push(children_of(rows, k, d, i - 1), node_of(rows, i - 1, d));
        }
    } else {
        assert(list_count(children_of(rows, k, d, i)) == 0);
    }
}

spec fn kid_below(rows: Seq<ReplyRow>, k: int, d: nat, i: int, j: int) -> bool {
    exists|c: int|
        0 <= c < i && placed_below(rows, c, k) && #[trigger] below(rows, j, c, d)
}

proof fn lemma_node_count(rows: Seq<ReplyRow>, k: int, d: nat, j: int)
    requires
        well_formed_rows(rows),
        every_comment_rooted(rows),
        0 <= k < rows.len(),
    ensures
        sub_ms(rows, k, d).count(j) == if below(rows, j, k, d) {
            1nat
        } else {
            0nat
        },
    decreases d, 0int, 0int,
{
    broadcast use vstd::multiset::group_multiset_axioms;

    // the tree of row k
    if d > 0 {
        lemma_kids_count(rows, k, (d - 1) as nat, rows.len() as int, j);
        assert(kid_below(rows, k, (d - 1) as nat, rows.len() as int, j) == (exists|c: int|
            0 <= c < rows.len() && placed_below(rows, c, k) && #[trigger] below(rows, j, c, (d - 1) as nat)));
        let dd = (d - 1) as nat;
        let ex = exists|c: int|
            0 <= c < rows.len() && placed_below(rows, c, k) && #[trigger] below(
                rows,
                j,
                c,
                dd,
            );
        if ex {
            let c = choose|c: int|
                0 <= c < rows.len() && placed_below(rows, c, k) && #[trigger] below(
                    rows,
                    j,
                    c,
                    dd,
                );
            let x = choose|x: nat| x <= dd && #[trigger] cut(rows, j, x) == c;
            lemma_up(rows, c);
            assert(has_parent(rows, c));
            assert(up(rows, c) == k);
            assert(cut(rows, j, x + 1) == k);
            assert(below(rows, j, k, d));
            if j == k {
                assert(cut(rows, j, 0) == k);
                lemma_unique_depth(rows, j, 0, x + 1);
            }
        } else if below(rows, j, k, d) && j != k {
            let x = choose|x: nat| x <= d && #[trigger] cut(rows, j, x) == k;
            assert(x > 0);
            let c = cut(rows, j, (x - 1) as nat);
            assert(0 <= c < rows.len() && !heads_tree(rows, c));
            lemma_up(rows, c);
            assert(rows[k].rpid == rows[c].parent_rpid->0);
            assert(below(rows, j, c, dd));
            assert(false);
        }
        if j == k {
            assert(cut(rows, j, 0) == k);
        }
    } else {
        if below(rows, j, k, d) {
            let x = choose|x: nat| x <= d && #[trigger] cut(rows, j, x) == k;
            assert(x == 0);
        }
        if j == k {
            assert(cut(rows, j, 0) == k);
        }
    }
}

proof fn lemma_kids_count(rows: Seq<ReplyRow>, k: int, d: nat, i: int, j: int)
    requires
        well_formed_rows(rows),
        every_comment_rooted(rows),
        0 <= k < rows.len(),
        0 <= i <= rows.len(),
    ensures
        kids_ms(rows, k, d, i).count(j) == if kid_below(rows, k, d, i, j) {
            1nat
        } else {
            0nat
        },
    decreases d, 1int, i,
{
    broadcast use vstd::multiset::group_multiset_axioms;

    // the replies
    if i > 0 {
        lemma_kids_count(rows, k, d, i - 1, j);
        let c1 = i - 1;
        if placed_below(rows, c1, k) {
            lemma_node_count(rows, c1, d, j);
            if below(rows, j, c1, d) && exists|c: int|
                0 <= c < i - 1 && placed_below(rows, c, k) && #[trigger] below(
                    rows,
                    j,
                    c,
                    d,
                ) {
                let c = choose|c: int|
                    0 <= c < i - 1 && placed_below(rows, c, k) && #[trigger] below(
                        rows,
                        j,
                        c,
                        d,
                    );
                let da = choose|x: nat| x <= d && #[trigger] cut(rows, j, x) == c;
                let db = choose|x: nat| x <= d && #[trigger] cut(rows, j, x) == c1;
                lemma_up(rows, c);
                lemma_up(rows, c1);
                assert(has_parent(rows, c));
                assert(has_parent(rows, c1));
                assert(up(rows, c) == k);
                assert(up(rows, c1) == k);
                assert(cut(rows, j, da + 1) == k);
                assert(cut(rows, j, db + 1) == k);
                lemma_unique_depth(rows, j, da + 1, db + 1);
            }
        }
    }
    if i > 0 {
        let c1 = i - 1;
        if kid_below(rows, k, d, i, j) && !kid_below(rows, k, d, i - 1, j) {
            let c = choose|c: int|
                0 <= c < i && placed_below(rows, c, k) && #[trigger] below(rows, j, c, d);
            assert(c == c1);
        }
        if kid_below(rows, k, d, i - 1, j) {
            let c = choose|c: int|
                0 <= c < i - 1 && placed_below(rows, c, k) && #[trigger] below(rows, j, c, d);
            assert(kid_below(rows, k, d, i, j));
        }
        if placed_below(rows, c1, k) && below(rows, j, c1, d) {
            assert(kid_below(rows, k, d, i, j));
        }
    }
}

proof fn lemma_top(rows: Seq<ReplyRow>, m: int, j: int)
    requires
        well_formed_rows(rows),
        every_comment_rooted(rows),
        0 <= m <= rows.len(),
    ensures
        list_count(top_nodes(rows, m)) == top_ms(rows, m).len(),
        top_ms(rows, m).count(j) == if exists|k: int|
            0 <= k < m && heads_tree(rows, k) && #[trigger] below(rows, j, k, rows.len()) {
            1nat
        } else {
            0nat
        },
    decreases m,
{
    broadcast use vstd::multiset::group_multiset_axioms;

    if m > 0 {
        lemma_top(rows, m - 1, j);
        let k1 = m - 1;
        if heads_tree(rows, k1) {
            lemma_node_size(rows, k1, rows.len());
            lemma_node_count(rows, k1, rows.len(), j);
            lemma_list_count_push(top_nodes(rows, m - 1), node_of(rows, k1, rows.len()));
            if below(rows, j, k1, rows.len()) && exists|k: int|
                0 <= k < m - 1 && heads_tree(rows, k) && #[trigger] below(rows, j, k, rows.len()) {
                let k = choose|k: int|
                    0 <= k < m - 1 && heads_tree(rows, k) && #[trigger] below(rows, j, k, rows.len());
                let da = choose|x: nat| x <= rows.len() && #[trigger] cut(rows, j, x) == k;
                let db = choose|x: nat| x <= rows.len() && #[trigger] cut(rows, j, x) == k1;
                if da < db {
                    assert(cut(rows, j, da + 1) == -1);
                    lemma_cut_add(rows, j, da + 1, (db - da - 1) as nat);
                    lemma_cut_out(rows, (db - da - 1) as nat);
                } else if db < da {
                    assert(cut(rows, j, db + 1) == -1);
                    lemma_cut_add(rows, j, db + 1, (da - db - 1) as nat);
                    lemma_cut_out(rows, (da - db - 1) as nat);
                }
            }
        }
    } else {
        assert(list_count(top_nodes(rows, m)) == 0);
    }
}

proof fn lemma_chain_add(rows: Seq<ReplyRow>, j: int, a: nat, b: nat)
    ensures
        ups(rows, j, a + b) == ups(rows, ups(rows, j, a), b),
    decreases b,
{
    if b > 0 {
        lemma_chain_add(rows, j, a, (b - 1) as nat);
        assert((a + b - 1) as nat == a + (b - 1) as nat);
    }
}

/// Along comments that head no tree, the tree's chain is the chain of replies.
proof fn lemma_cut_is_chain(rows: Seq<ReplyRow>, j: int, t: nat)
    requires
        well_formed_rows(rows),
        forall|e: nat|
            e < t ==> 0 <= #[trigger] ups(rows, j, e) < rows.len() && !heads_tree(rows, ups(rows, j, e)),
    ensures
        cut(rows, j, t) == ups(rows, j, t),
    decreases t,
{
    if t > 0 {
        lemma_cut_is_chain(rows, j, (t - 1) as nat);
        let a = ups(rows, j, (t - 1) as nat);
        assert(0 <= a < rows.len() && !heads_tree(rows, a));
    }
}

/// A comment that leads to no comment heading a tree stays, for the
/// page's length, among comments that head no tree.
proof fn lemma_chain_stays(rows: Seq<ReplyRow>, j: int, t: nat)
    requires
        well_formed_rows(rows),
        0 <= j < rows.len(),
        !rooted(rows, j),
        t <= rows.len(),
    ensures
        forall|e: nat|
            e <= t ==> 0 <= #[trigger] ups(rows, j, e) < rows.len() && !heads_tree(rows, ups(rows, j, e)),
    decreases t,
{
    if t == 0 {
        if heads_tree(rows, j) {
            assert(cut(rows, j, 0) == j);
            assert(rooted(rows, j));
        }
        assert forall|e: nat| e <= t implies 0 <= #[trigger] ups(rows, j, e) < rows.len()
            && !heads_tree(rows, ups(rows, j, e)) by {
            assert(e == 0);
        }
    } else {
        lemma_chain_stays(rows, j, (t - 1) as nat);
        let a = ups(rows, j, (t - 1) as nat);
        assert(0 <= a < rows.len() && !heads_tree(rows, a));
        lemma_up(rows, a);
        let u = ups(rows, j, t);
        assert(u == up(rows, a));
        lemma_cut_is_chain(rows, j, t);
        if heads_tree(rows, u) {
            assert(cut(rows, j, t) == u);
            assert(rooted(rows, j));
        }
        assert forall|e: nat| e <= t implies 0 <= #[trigger] ups(rows, j, e) < rows.len()
            && !heads_tree(rows, ups(rows, j, e)) by {
            if e < t {
                assert(e <= (t - 1) as nat);
            }
        }
    }
}

/// Going up `t` steps from a comment of a cycle of length `p` lands
/// where fewer than `p` steps land.
proof fn lemma_back(rows: Seq<ReplyRow>, x: int, p: nat, t: nat) -> (e: nat)
    requires
        p >= 1,
        ups(rows, x, p) == x,
    ensures
        e < p,
        ups(rows, x, t) == ups(rows, x, e),
    decreases t,
{
    if t < p {
        t
    } else {
        let r: nat = (t - p) as nat;
        let g = lemma_back(rows, x, p, r);
        lemma_chain_add(rows, x, p, r);
        assert(p + r == t);
        g
    }
}

/// Of the first `m` steps up from `x`, one lands on the latest row.
proof fn lemma_latest_step(rows: Seq<ReplyRow>, x: int, m: nat) -> (e: nat)
    requires
        m >= 1,
    ensures
        e < m,
        forall|f: nat| f < m ==> #[trigger] ups(rows, x, f) <= ups(rows, x, e),
    decreases m,
{
    if m == 1 {
        assert forall|f: nat| f < m implies #[trigger] ups(rows, x, f) <= ups(rows, x, 0) by {
            assert(f == 0);
        }
        0
    } else {
        let e0 = lemma_latest_step(rows, x, (m - 1) as nat);
        let last = (m - 1) as nat;
        if ups(rows, x, last) > ups(rows, x, e0) {
            assert forall|f: nat| f < m implies #[trigger] ups(rows, x, f) <= ups(rows, x, last) by {
                if f < last {
                    assert(ups(rows, x, f) <= ups(rows, x, e0));
                }
            }
            last
        } else {
            assert forall|f: nat| f < m implies #[trigger] ups(rows, x, f) <= ups(rows, x, e0) by {
                if f < last {
                } else {
                    assert(f == last);
                }
            }
            e0
        }
    }
}

/// Every comment leads up, within the page, to a comment that heads a
/// tree: a chain of replies that never reaches one would run through a
/// cycle, and the last comment of that cycle heads a tree.
proof fn lemma_rooted(rows: Seq<ReplyRow>, j: int)
    requires
        well_formed_rows(rows),
        0 <= j < rows.len(),
    ensures
        rooted(rows, j),
{
    if !rooted(rows, j) {
        let n = rows.len() as int;
        lemma_chain_stays(rows, j, rows.len());
        // two of the first n + 1 steps land on the same row
        let xs = set_int_range(0, n + 1);
        let f = |d: int| ups(rows, j, d as nat);
        lemma_int_range(0, n + 1);
        lemma_int_range(0, n);
        assert(xs.map(f).subset_of(set_int_range(0, n))) by {
            assert forall|v: int| #[trigger] xs.map(f).contains(v) implies set_int_range(0, n).contains(v) by {
                let d = choose|d: int| xs.contains(d) && v == f(d);
                assert(d as nat <= rows.len());
                assert(0 <= ups(rows, j, d as nat) < n);
            }
        }
        lemma_len_subset(xs.map(f), set_int_range(0, n));
        if injective_on(f, xs) {
            lemma_map_size(xs, xs.map(f), f);
            assert(false);
        }
        let (a0, b0) = choose|a0: int, b0: int|
            xs.contains(a0) && xs.contains(b0) && #[trigger] f(a0) == #[trigger] f(b0) && a0 != b0;
        let a: nat = if a0 < b0 { a0 as nat } else { b0 as nat };
        let b: nat = if a0 < b0 { b0 as nat } else { a0 as nat };
        assert(ups(rows, j, a) == ups(rows, j, b));
        let x = ups(rows, j, a);
        let p: nat = (b - a) as nat;
        lemma_chain_add(rows, j, a, p);
        assert(a + p == b);
        assert(ups(rows, x, p) == x);
        // the latest row of the cycle
        let e = lemma_latest_step(rows, x, p);
        let y = ups(rows, x, e);
        lemma_chain_add(rows, j, a, e);
        assert(y == ups(rows, j, a + e));
        assert(a + e <= rows.len());
        assert(!heads_tree(rows, y));
        // it is on a cycle
        lemma_chain_add(rows, x, e, p);
        lemma_chain_add(rows, x, p, e);
        assert(e + p == p + e);
        assert(ups(rows, y, p) == y);
        assert(on_reply_cycle(rows, y));
        // and nothing above it comes later
        assert forall|d: nat| d <= rows.len() implies #[trigger] ups(rows, y, d) <= y by {
            lemma_chain_add(rows, x, e, d);
            let g = lemma_back(rows, x, p, e + d);
            assert(ups(rows, x, g) <= y);
        }
        assert(latest_on_chain(rows, y));
        assert(heads_tree(rows, y));
    }
}

proof fn lemma_all_rooted(rows: Seq<ReplyRow>)
    requires
        well_formed_rows(rows),
    ensures
        every_comment_rooted(rows),
{
    assert forall|j: int| 0 <= j < rows.len() implies #[trigger] rooted(rows, j) by {
        lemma_rooted(rows, j);
    }
}

/// A multiset holding each of `0, .., i - 1` once.
spec fn range_ms(i: int) -> Multiset<int>
    decreases i,
{
    if i <= 0 {
        Multiset::empty()
    } else {
        range_ms(i - 1).insert(i - 1)
    }
}

proof fn lemma_range_ms(i: int, j: int)
    requires
        i >= 0,
    ensures
        range_ms(i).len() == i,
        range_ms(i).count(j) == if 0 <= j < i {
            1nat
        } else {
            0nat
        },
    decreases i,
{
    broadcast use vstd::multiset::group_multiset_axioms;

    if i > 0 {
        lemma_range_ms(i - 1, j);
    }
}

/// Every comment of a dynamic appears on its detail page exactly once: the
/// trees of the page hold exactly as many comments as the page has, each
/// where [`law_reply_tree_places_every_comment`] says it belongs.
pub proof fn law_every_comment_shown(rows: Seq<ReplyRow>)
    requires
        well_formed_rows(rows),
    ensures
        list_count(top_nodes(rows, rows.len() as int)) == rows.len(),
{
    broadcast use vstd::multiset::group_multiset_axioms;

    let n = rows.len() as int;
    lemma_all_rooted(rows);
    lemma_top(rows, n, 0);
    assert forall|j: int| #[trigger] top_ms(rows, n).count(j) == range_ms(n).count(j) by {
        lemma_top(rows, n, j);
        lemma_range_ms(n, j);
        if 0 <= j < n {
            assert(rooted(rows, j));
            let d = choose|d: nat|
                d <= rows.len() && 0 <= #[trigger] cut(rows, j, d) < rows.len() && heads_tree(
                    rows,
                    cut(rows, j, d),
                );
            let t = cut(rows, j, d);
            assert(below(rows, j, t, rows.len()));
        } else if exists|k: int| 0 <= k < n && heads_tree(rows, k) && #[trigger] below(rows, j, k, rows.len()) {
            let k = choose|k: int| 0 <= k < n && heads_tree(rows, k) && #[trigger] below(rows, j, k, rows.len());
            let x = choose|x: nat| x <= rows.len() && #[trigger] cut(rows, j, x) == k;
            if x > 0 {
                lemma_cut_outside(rows, j, x);
            }
            assert(false);
        }
    }
    assert(top_ms(rows, n) =~= range_ms(n));
    lemma_range_ms(n, 0);
}

/// Every comment of the detail page shows its own stored fields: the node
/// built for row `k`, at any depth, has that row's id, parent, author,
/// avatar, text, pictures and time.
pub proof fn law_tree_nodes_show_their_rows(rows: Seq<ReplyRow>, k: int, depth: nat)
    requires
        0 <= k < rows.len(),
    ensures
        node_of(rows, k, depth).rpid == rows[k].rpid,
        node_of(rows, k, depth).parent_rpid == rows[k].parent_rpid,
        node_of(rows, k, depth).uname == rows[k].uname@,
        node_of(rows, k, depth).avatar == rows[k].avatar@,
        node_of(rows, k, depth).content == rows[k].content@,
        node_of(rows, k, depth).ctime == rows[k].ctime,
        node_of(rows, k, depth).images == string_list_of(
            match rows[k].images {
                Some(j) => j@,
                None => JsonV::Null,
            },
        ),
{
}

/// A video card of a dynamic without other text renders as its trimmed
/// title, its trimmed description (unless blank or `-`) and the link to
/// the video, one per line.
pub proof fn law_archive_card_text(
    modules: JsonV,
    dyn_type: Seq<char>,
    title: Seq<char>,
    desc: Seq<char>,
    bvid: Seq<char>,
)
    requires
        modules.at("desc"@) is Null,
        dyn_type != "DYNAMIC_TYPE_FORWARD"@,
        modules.at("major"@).at("type"@).str_of() == Some("MAJOR_TYPE_ARCHIVE"@),
        modules.at("major"@).at("archive"@).at("title"@).str_of() == Some(title),
        modules.at("major"@).at("archive"@).at("desc"@).str_of() == Some(desc),
        modules.at("major"@).at("archive"@).at("bvid"@).str_of() == Some(bvid),
        trimmed(title).len() > 0,
    ensures
        trimmed(desc).len() > 0 && trimmed(desc) != "-"@ ==> module_text(modules, dyn_type)
            == trimmed(title) + "\n"@ + trimmed(desc) + "\n"@ + "视频链接: https://www.bilibili.com/video/"@
            + bvid,
        !(trimmed(desc).len() > 0 && trimmed(desc) != "-"@) ==> module_text(modules, dyn_type)
            == trimmed(title) + "\n"@ + "视频链接: https://www.bilibili.com/video/"@ + bvid,
{
    reveal_strlit("\n");
    reveal_strlit("视频链接: https://www.bilibili.com/video/");
    reveal_strlit("DYNAMIC_TYPE_FORWARD");
    reveal_strlit("MAJOR_TYPE_OPUS");
    reveal_strlit("MAJOR_TYPE_DRAW");
    reveal_strlit("MAJOR_TYPE_ARCHIVE");
    let t = trimmed(title);
    let d = trimmed(desc);
    let link = "视频链接: https://www.bilibili.com/video/"@ + bvid;
    assert(link.len() > 0);
    let m = modules.at("major"@);
    assert("MAJOR_TYPE_ARCHIVE"@[11] != "MAJOR_TYPE_OPUS"@[11]);
    assert("MAJOR_TYPE_ARCHIVE"@[11] != "MAJOR_TYPE_DRAW"@[11]);
    assert(m.at("type"@).str_of() != Some("MAJOR_TYPE_OPUS"@));
    assert(m.at("type"@).str_of() != Some("MAJOR_TYPE_DRAW"@));
    let archive = m.at("archive"@);
    assert(trimmed_part(archive.at("title"@)) == seq![t]);
    let base = nonblank_part(modules.at("desc"@).at("text"@)) + nonblank_part(modules.at("desc"@))
        + major_parts(m);
    assert(nonblank_part(modules.at("desc"@)) =~= Seq::<Seq<char>>::empty());
    assert(nonblank_part(modules.at("desc"@).at("text"@)) =~= Seq::<Seq<char>>::empty());
    assert(module_parts(modules, dyn_type) == base);
    if d.len() > 0 && d != "-"@ {
        let ps = seq![t, d, link];
        assert(major_parts(m) =~= ps);
        assert(base =~= ps);
        assert(seq![t].drop_last() =~= Seq::<Seq<char>>::empty());
        assert(join_nonempty(Seq::<Seq<char>>::empty()) == Seq::<char>::empty());
        assert(join_nonempty(seq![t]) == t);
        assert(ps.drop_last().drop_last() =~= seq![t]);
        assert(ps.drop_last() =~= seq![t, d]);
        assert(seq![t, d].drop_last() =~= seq![t]);
        assert(join_nonempty(ps.drop_last()) == t + seq!['\n'] + d);
        assert(join_nonempty(ps) == t + seq!['\n'] + d + seq!['\n'] + link);
        assert("\n"@ =~= seq!['\n']);
        assert(module_text(modules, dyn_type) =~= t + "\n"@ + d + "\n"@ + link);
    } else {
        let ps = seq![t, link];
        assert(major_parts(m) =~= ps);
        assert(base =~= ps);
        assert(ps.drop_last() =~= seq![t]);
        assert(seq![t].drop_last() =~= Seq::<Seq<char>>::empty());
        assert(join_nonempty(Seq::<Seq<char>>::empty()) == Seq::<char>::empty());
        assert(join_nonempty(seq![t]) == t);
        assert(join_nonempty(ps.drop_last()) == t);
        assert(join_nonempty(ps) == t + seq!['\n'] + link);
        assert("\n"@ =~= seq!['\n']);
        assert(module_text(modules, dyn_type) =~= t + "\n"@ + link);
    }
}

/// How many of the positions `r` are not marked for a rescan.
pub open spec fn unmarked_count(rescan: Seq<bool>, r: Seq<usize>) -> nat
    decreases r.len(),
{
    if r.len() == 0 {
        0
    } else {
        unmarked_count(rescan, r.drop_last()) + if rescan[r.last() as int] {
            0nat
        } else {
            1nat
        }
    }
}

proof fn lemma_unmarked_append(rescan: Seq<bool>, a: Seq<usize>, b: Seq<usize>)
    ensures
        unmarked_count(rescan, a + b) == unmarked_count(rescan, a) + unmarked_count(rescan, b),
    decreases b.len(),
{
    if b.len() == 0 {
        assert(a + b =~= a);
    } else {
        lemma_unmarked_append(rescan, a, b.drop_last());
        assert((a + b).drop_last() =~= a + b.drop_last());
    }
}

proof fn lemma_unmarked_bounds(rescan: Seq<bool>, r: Seq<usize>)
    ensures
        unmarked_count(rescan, r) <= r.len(),
        (forall|k: int| 0 <= k < r.len() ==> rescan[#[trigger] r[k] as int]) ==> unmarked_count(
            rescan,
            r,
        ) == 0,
    decreases r.len(),
{
    if r.len() > 0 {
        lemma_unmarked_bounds(rescan, r.drop_last());
        if forall|k: int| 0 <= k < r.len() ==> rescan[#[trigger] r[k] as int] {
            assert forall|k: int| 0 <= k < r.drop_last().len() implies rescan[#[trigger] r.drop_last()[k] as int] by {
                assert(r.drop_last()[k] == r[k]);
            }
            assert(rescan[r[r.len() - 1] as int]);
        }
    }
}

/// A round takes at most [`MAX_NEW_PER_ROUND`] dynamics that are not
/// marked for a rescan, and every one of them when there are no more.
pub proof fn law_round_new_dynamics(rescan: Seq<bool>)
    requires
        rescan.len() <= usize::MAX,
    ensures
        unmarked_count(rescan, round_indices(rescan)) <= MAX_NEW_PER_ROUND,
        unmarked_count(rescan, round_indices(rescan)) == if unmarked_count(
            rescan,
            flagged_indices(rescan, false),
        ) <= MAX_NEW_PER_ROUND {
            unmarked_count(rescan, flagged_indices(rescan, false))
        } else {
            MAX_NEW_PER_ROUND as nat
        },
{
    lemma_flagged(rescan, true);
    lemma_flagged(rescan, false);
    let t = flagged_indices(rescan, true);
    let f = flagged_indices(rescan, false);
    let a = take_at_most(t, MAX_RESCAN_PER_ROUND as nat);
    let b = take_at_most(f, MAX_NEW_PER_ROUND as nat);
    assert(round_indices(rescan) == a + b);
    lemma_unmarked_append(rescan, a, b);
    assert forall|k: int| 0 <= k < a.len() implies rescan[#[trigger] a[k] as int] by {
        assert(a[k] == t[k]);
    }
    lemma_unmarked_bounds(rescan, a);
    assert forall|k: int| 0 <= k < f.len() implies !rescan[#[trigger] f[k] as int] by {}
    lemma_unmarked_all(rescan, f);
    assert forall|k: int| 0 <= k < b.len() implies !rescan[#[trigger] b[k] as int] by {
        assert(b[k] == f[k]);
    }
    lemma_unmarked_all(rescan, b);
}

proof fn lemma_unmarked_all(rescan: Seq<bool>, r: Seq<usize>)
    ensures
        (forall|k: int| 0 <= k < r.len() ==> !rescan[#[trigger] r[k] as int]) ==> unmarked_count(
            rescan,
            r,
        ) == r.len(),
    decreases r.len(),
{
    if r.len() > 0 {
        lemma_unmarked_all(rescan, r.drop_last());
        if forall|k: int| 0 <= k < r.len() ==> !rescan[#[trigger] r[k] as int] {
            assert forall|k: int| 0 <= k < r.drop_last().len() implies !rescan[#[trigger] r.drop_last()[k] as int] by {
                assert(r.drop_last()[k] == r[k]);
            }
            assert(!rescan[r[r.len() - 1] as int]);
        }
    }
}

/// The account snapshot is recorded whenever any recorded field differs
/// from the latest snapshot.
pub proof fn law_changed_profile_recorded(s: UpperProfile, p: UpperProfile)
    ensures
        s.name@ != p.name@ ==> records_profile(Some(s), p),
        s.sign@ != p.sign@ ==> records_profile(Some(s), p),
        s.face@ != p.face@ ==> records_profile(Some(s), p),
        s.fan_count != p.fan_count ==> records_profile(Some(s), p),
        s.follow_count != p.follow_count ==> records_profile(Some(s), p),
        s.video_count != p.video_count ==> records_profile(Some(s), p),
        s.view_count != p.view_count ==> records_profile(Some(s), p),
        s.like_count != p.like_count ==> records_profile(Some(s), p),
{
}

proof fn lemma_versions_prefix(rows: Seq<StatRow>, i: int)
    requires
        0 <= i < rows.len(),
    ensures
        versions_of(rows.take(i + 1)).len() > 0,
        versions_of(rows.take(i + 1)).last().name == rows[i].name@,
        versions_of(rows.take(i + 1)).last().sign == rows[i].sign@,
        versions_of(rows.take(i + 1)).last().face == rows[i].face@,
        i > 0 && !(rows[i].name@ == rows[i - 1].name@ && rows[i].sign@ == rows[i - 1].sign@
            && rows[i].face@ == rows[i - 1].face@) ==> versions_of(rows.take(i + 1)).len()
            == versions_of(rows.take(i)).len() + 1 && versions_of(rows.take(i + 1)).last().start_at
            == rows[i].recorded_at,
    decreases i,
{
    assert(rows.take(i + 1).drop_last() =~= rows.take(i));
    assert(rows.take(i + 1).last() == rows[i]);
    if i > 0 {
        lemma_versions_prefix(rows, i - 1);
    } else {
        assert(rows.take(0) =~= Seq::<StatRow>::empty());
    }
}

/// After each snapshot, the current version of the name/sign/face history
/// carries that snapshot's name, sign and face; a snapshot whose name,
/// sign or face differs from the one before it starts a new version at its
/// own time; and the history of all snapshots ends with the identity of
/// the last one.
pub proof fn law_versions_follow_snapshots(rows: Seq<StatRow>, i: int)
    requires
        0 <= i < rows.len(),
    ensures
        versions_of(rows.take(i + 1)).last().name == rows[i].name@,
        versions_of(rows.take(i + 1)).last().sign == rows[i].sign@,
        versions_of(rows.take(i + 1)).last().face == rows[i].face@,
        i > 0 && !(rows[i].name@ == rows[i - 1].name@ && rows[i].sign@ == rows[i - 1].sign@
            && rows[i].face@ == rows[i - 1].face@) ==> versions_of(rows.take(i + 1)).len()
            == versions_of(rows.take(i)).len() + 1 && versions_of(rows.take(i + 1)).last().start_at
            == rows[i].recorded_at,
        versions_of(rows).last().name == rows.last().name@,
        versions_of(rows).last().sign == rows.last().sign@,
        versions_of(rows).last().face == rows.last().face@,
{
    lemma_versions_prefix(rows, i);
    lemma_versions_prefix(rows, rows.len() - 1);
    assert(rows.take(rows.len() as int) =~= rows);
}

/// The newest time after seeing the publish times `ts` in order, starting
/// from `max`, one [`crate::workflow::RefreshCursor::observe`] at a time.
pub open spec fn scanned_max(max: i64, ts: Seq<i64>) -> i64
    decreases ts.len(),
{
    if ts.len() == 0 {
        max
    } else {
        let m = scanned_max(max, ts.drop_last());
        if ts.last() > m {
            ts.last()
        } else {
            m
        }
    }
}

/// A scan never moves a source's recorded time backwards: the time it
/// records is the newest of the recorded time and the times seen.
pub proof fn law_cursor_moves_forward(latest: i64, ts: Seq<i64>)
    ensures
        scanned_max(latest, ts) >= latest,
        forall|i: int| 0 <= i < ts.len() ==> #[trigger] ts[i] <= scanned_max(latest, ts),
        scanned_max(latest, ts) == latest || ts.contains(scanned_max(latest, ts)),
    decreases ts.len(),
{
    if ts.len() > 0 {
        law_cursor_moves_forward(latest, ts.drop_last());
        let m = scanned_max(latest, ts.drop_last());
        assert forall|i: int| 0 <= i < ts.len() implies #[trigger] ts[i] <= scanned_max(latest, ts) by {
            if i < ts.len() - 1 {
                assert(ts.drop_last()[i] == ts[i]);
            }
        }
        if scanned_max(latest, ts) != latest {
            if ts.last() > m {
                assert(ts[ts.len() - 1] == scanned_max(latest, ts));
            } else {
                let k = choose|k: int| 0 <= k < ts.drop_last().len() && ts.drop_last()[k] == m;
                assert(ts[k] == m);
            }
        }
    }
}

} // verus!
