//! The decisions of the dynamic-source sync: which account snapshots to
//! record, which dynamics to store and to handle in a round, and when
//! comments are synced.

use vstd::prelude::*;
use crate::error::BiliError;
use crate::json::{as_i64, member, or_null, Json, JsonV};
use crate::upper::{count_or_zero, UpperProfile};

verus! {

/// Top-level comment pages fetched per dynamic (twenty comments a page).
pub const MAX_REPLY_PAGES: usize = 50;

/// Reply pages fetched per top-level comment.
pub const MAX_SUB_REPLY_PAGES: usize = 10;

/// Days after publishing during which comments are synced every round.
pub const REPLY_SYNC_WINDOW_DAYS: i64 = 5;

/// Completed dynamics checked for missing comments per round.
pub const BACKFILL_CHECK_LIMIT: usize = 50;

/// Dynamics marked for a comment rescan handled per round.
pub const MAX_RESCAN_PER_ROUND: usize = 10;

/// New dynamics handled per round.
pub const MAX_NEW_PER_ROUND: usize = 20;

/// Two snapshots record the same account state.
pub open spec fn same_profile(a: UpperProfile, b: UpperProfile) -> bool {
    &&& a.name@ == b.name@
    &&& a.sign@ == b.sign@
    &&& a.face@ == b.face@
    &&& a.fan_count == b.fan_count
    &&& a.follow_count == b.follow_count
    &&& a.video_count == b.video_count
    &&& a.view_count == b.view_count
    &&& a.like_count == b.like_count
}

/// Whether a fresh profile is recorded: always when there is no snapshot
/// yet, else when any recorded field differs from the latest snapshot.
pub open spec fn records_profile(latest: Option<UpperProfile>, profile: UpperProfile) -> bool {
    match latest {
        Some(s) => !same_profile(s, profile),
        None => true,
    }
}

/// Whether a fresh profile is recorded (see [`records_profile`]).
pub fn profile_changed(latest: Option<&UpperProfile>, profile: &UpperProfile) -> (r: bool)
    ensures
        r == records_profile(
            match latest {
                Some(s) => Some(*s),
                None => None,
            },
            *profile,
        ),
{
    match latest {
        Some(s) => {
            !(s.name == profile.name) || !(s.sign == profile.sign) || !(s.face == profile.face)
                || s.fan_count != profile.fan_count || s.follow_count != profile.follow_count
                || s.video_count != profile.video_count || s.view_count != profile.view_count
                || s.like_count != profile.like_count
        },
        None => true,
    }
}

/// Whether the source's stored uploader name is replaced by the profile's.
pub fn renamed(source_name: &String, profile: &UpperProfile) -> (r: bool)
    ensures
        r == (source_name@ != profile.name@),
{
    !(*source_name == profile.name)
}

/// Whether a failure ends the round instead of being logged and skipped:
/// only an API error that is related to risk control does.
pub fn aborts_round(err: Option<&BiliError>) -> (r: bool)
    ensures
        r == (err matches Some(e) && e.risk_control_related()),
{
    match err {
        Some(e) => e.is_risk_control_related(),
        None => false,
    }
}

/// The comment count of a stored `stat` snapshot, 0 when there is none.
pub open spec fn comment_count_of(stat: JsonV) -> i64 {
    count_or_zero(stat.at("comment"@).at("count"@))
}

/// `stat["comment"]["count"].as_i64().unwrap_or(0)`
pub fn stored_comment_count(stat: Option<&Json>) -> (r: i64)
    ensures
        r == comment_count_of(or_null(stat)),
{
    match as_i64(member(member(stat, "comment"), "count")) {
        Some(c) => c,
        None => 0,
    }
}

/// A completed dynamic is marked for a comment rescan when the API counted
/// comments but none are stored.
pub fn needs_reply_backfill(api_count: i64, local_count: u64) -> (r: bool)
    ensures
        r == (api_count > 0 && local_count == 0),
{
    api_count > 0 && local_count == 0
}

/// How many of `n` candidates are checked for missing comments.
pub fn backfill_check_count(n: usize) -> (r: usize)
    ensures
        r == if n <= BACKFILL_CHECK_LIMIT {
            n
        } else {
            BACKFILL_CHECK_LIMIT
        },
{
    if n <= BACKFILL_CHECK_LIMIT {
        n
    } else {
        BACKFILL_CHECK_LIMIT
    }
}

/// The scan of a source's feed: new dynamics come newest first and the
/// scan stops at the first one not newer than the last recorded time.
#[derive(Debug, PartialEq)]
pub struct RefreshCursor {
    /// The last recorded dynamic time (the epoch for a source with no dynamics yet).
    pub latest_row_at: i64,
    /// The newest time seen so far.
    pub max_datetime: i64,
}

impl RefreshCursor {
    /// A scan from the source's recorded time; a source without stored
    /// dynamics is scanned from the epoch, so that its first scan imports
    /// everything and not only a pinned dynamic.
    pub fn start(has_dynamics: bool, latest_dyn_at: i64) -> (r: Self)
        ensures
            r.latest_row_at == if has_dynamics {
                latest_dyn_at
            } else {
                0
            },
            r.max_datetime == r.latest_row_at,
    {
        let at: i64 = if has_dynamics {
            latest_dyn_at
        } else {
            0
        };
        RefreshCursor { latest_row_at: at, max_datetime: at }
    }

    /// Sees the `idx`-th dynamic of the feed; returns whether it is stored.
    /// The first item may be an old pinned dynamic and is never a reason
    /// to stop; a later one stops the scan when it is not newer than the
    /// recorded time.
    pub fn observe(&mut self, idx: usize, pub_ts: i64) -> (store: bool)
        ensures
            final(self).latest_row_at == old(self).latest_row_at,
            final(self).max_datetime == if pub_ts > old(self).max_datetime {
                pub_ts
            } else {
                old(self).max_datetime
            },
            store == !(idx > 0 && pub_ts <= old(self).latest_row_at),
    {
        if pub_ts > self.max_datetime {
            self.max_datetime = pub_ts;
        }
        !(idx > 0 && pub_ts <= self.latest_row_at)
    }

    /// The source's new recorded time, when it moved.
    pub fn new_cursor(&self) -> (r: Option<i64>)
        ensures
            r == if self.max_datetime != self.latest_row_at {
                Some(self.max_datetime)
            } else {
                None
            },
    {
        if self.max_datetime != self.latest_row_at {
            Some(self.max_datetime)
        } else {
            None
        }
    }
}

/// The positions whose flag is `want`, in order.
pub open spec fn flagged_indices(flags: Seq<bool>, want: bool) -> Seq<usize>
    decreases flags.len(),
{
    if flags.len() == 0 {
        Seq::empty()
    } else {
        let prev = flagged_indices(flags.drop_last(), want);
        if flags.last() == want {
            prev.push((flags.len() - 1) as usize)
        } else {
            prev
        }
    }
}

/// The first `n` elements of `s`, or all of them.
pub open spec fn take_at_most<A>(s: Seq<A>, n: nat) -> Seq<A> {
    if s.len() <= n {
        s
    } else {
        s.take(n as int)
    }
}

/// The dynamics handled in a round, by position among the unfinished ones
/// (newest first): those marked for a comment rescan first, at most
/// [`MAX_RESCAN_PER_ROUND`], then at most [`MAX_NEW_PER_ROUND`] others.
pub open spec fn round_indices(rescan: Seq<bool>) -> Seq<usize> {
    take_at_most(flagged_indices(rescan, true), MAX_RESCAN_PER_ROUND as nat) + take_at_most(
        flagged_indices(rescan, false),
        MAX_NEW_PER_ROUND as nat,
    )
}

proof fn lemma_flagged_bounds(flags: Seq<bool>, want: bool)
    ensures
        flagged_indices(flags, want).len() <= flags.len(),
        forall|k: int|
            0 <= k < flagged_indices(flags, want).len() ==> #[trigger] flagged_indices(
                flags,
                want,
            )[k] < flags.len(),
    decreases flags.len(),
{
    if flags.len() > 0 {
        lemma_flagged_bounds(flags.drop_last(), want);
    }
}

fn first_flagged(rescan: &Vec<bool>, want: bool, limit: usize) -> (r: Vec<usize>)
    ensures
        r@ == take_at_most(flagged_indices(rescan@, want), limit as nat),
{
    let mut out: Vec<usize> = Vec::new();
    let n = rescan.len();
    proof {
        assert(rescan@.take(0) =~= Seq::<bool>::empty());
    }
    for i in 0..n
        invariant
            n == rescan@.len(),
            out@ == take_at_most(flagged_indices(rescan@.take(i as int), want), limit as nat),
    {
        let ghost prev = flagged_indices(rescan@.take(i as int), want);
        proof {
            assert(rescan@.take(i + 1).drop_last() =~= rescan@.take(i as int));
        }
        if rescan[i] == want && out.len() < limit {
            out.push(i);
        }
        proof {
            let next = flagged_indices(rescan@.take(i + 1), want);
            if rescan@[i as int] == want {
                assert(next == prev.push(i as usize));
                if prev.len() < limit {
                    assert(out@ =~= take_at_most(next, limit as nat));
                } else {
                    assert(next.take(limit as int) =~= prev.take(limit as int));
                }
            }
        }
    }
    proof {
        assert(rescan@.take(n as int) =~= rescan@);
    }
    out
}

/// Picks the dynamics of a round, by position, from the rescan marks of
/// the unfinished dynamics (newest first).
pub fn select_round(rescan: &Vec<bool>) -> (r: Vec<usize>)
    ensures
        r@ == round_indices(rescan@),
{
    let mut out = first_flagged(rescan, true, MAX_RESCAN_PER_ROUND);
    let mut rest = first_flagged(rescan, false, MAX_NEW_PER_ROUND);
    out.append(&mut rest);
    out
}

/// Seconds in the comment-sync window.
pub open spec fn window_secs() -> int {
    REPLY_SYNC_WINDOW_DAYS * 86400
}

/// Whether a dynamic published at `pub_ts` is still in the comment-sync
/// window at the instant `now_secs` seconds and `now_nanos` nanoseconds
/// after the epoch: its publish time plus the window is not before now.
pub open spec fn in_reply_window(pub_ts: i64, now_secs: i64, now_nanos: u32) -> bool {
    let end = pub_ts + window_secs();
    end > now_secs || (end == now_secs && now_nanos == 0)
}

/// Decides the comment-sync window. The end of the window must be an
/// instant chrono can hold.
pub fn reply_window_open(pub_ts: i64, now_secs: i64, now_nanos: u32) -> (r: bool)
    requires
        pub_ts + window_secs() <= i64::MAX,
        crate::time::utc_secs_representable((pub_ts + window_secs()) as i64),
    ensures
        r == in_reply_window(pub_ts, now_secs, now_nanos),
{
    let end = pub_ts + REPLY_SYNC_WINDOW_DAYS * 86400;
    end > now_secs || (end == now_secs && now_nanos == 0)
}

/// Decides the comment-sync window, or `None` when the end of the window
/// is past what chrono can hold.
pub fn reply_window_open_checked(pub_ts: i64, now_secs: i64, now_nanos: u32) -> (r: Option<bool>)
    ensures
        match r {
            Some(b) => pub_ts + window_secs() <= i64::MAX
                && crate::time::utc_secs_representable((pub_ts + window_secs()) as i64)
                && b == in_reply_window(pub_ts, now_secs, now_nanos),
            None => !(pub_ts + window_secs() <= i64::MAX
                && crate::time::utc_secs_representable((pub_ts + window_secs()) as i64)),
        },
{
    if pub_ts > i64::MAX - 432000 {
        return None;
    }
    if !crate::time::utc_secs_valid(pub_ts + 432000) {
        return None;
    }
    Some(reply_window_open(pub_ts, now_secs, now_nanos))
}

/// Comments are synced for a source that syncs comments, when the dynamic
/// is in its window or marked for a rescan.
pub fn should_sync_replies(sync_reply: bool, within_window: bool, rescan: bool) -> (r: bool)
    ensures
        r == (sync_reply && (within_window || rescan)),
{
    sync_reply && (within_window || rescan)
}

/// A dynamic has a comment area to sync when its comment type is positive
/// and its comment id is not empty.
pub fn has_comment_area(comment_type: i64, comment_oid: &str) -> (r: bool)
    ensures
        r == (comment_type > 0 && comment_oid@.len() > 0),
{
    !(comment_type <= 0 || comment_oid.is_empty())
}


/// A dynamic source about to be inserted: disabled until enabled by hand,
/// and scanned from the epoch so that its first scan imports everything.
#[derive(Debug, PartialEq)]
pub struct NewDynamicSource {
    pub upper_id: i64,
    pub upper_name: String,
    pub path: String,
    pub sync_reply: bool,
    pub enabled: bool,
    pub latest_dyn_at: i64,
}

/// The source for uploader `mid` (as the account API gives it), or `None`
/// when `mid` is not an integer.
pub fn new_dynamic_source(mid: &str, upper_name: String, path: String, sync_reply: bool) -> (r:
    Option<NewDynamicSource>)
    ensures
        match r {
            Some(s) => crate::text::parse_i64_spec(mid@) == Some(s.upper_id) && s.upper_name
                == upper_name && s.path == path && s.sync_reply == sync_reply && !s.enabled
                && s.latest_dyn_at == 0,
            None => crate::text::parse_i64_spec(mid@) is None,
        },
{
    match crate::text::parse_i64(mid) {
        Some(id) => Some(
            NewDynamicSource {
                upper_id: id,
                upper_name,
                path,
                sync_reply,
                enabled: false,
                latest_dyn_at: 0,
            },
        ),
        None => None,
    }
}

} // verus!
