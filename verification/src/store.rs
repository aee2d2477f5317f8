//! What is stored and exported for a dynamic and its comments: database
//! records, picture file names and the download list of comment pictures.

use vstd::prelude::*;
use crate::dynamic::{strings_view, DynamicInfo};
use crate::json::{json_view, copy_or_null, items_view, lemma_items_view, or_null, Json, JsonV};
use crate::reply::ReplyInfo;
use crate::text::{
    i64_text, int_text, nat_text, push_chars, push_str, string_from_chars, usize_text,
    usize_text_pad2, zero_pad2,
};
use crate::time::{date_text, utc_format_text, utc_secs_representable, utc_secs_valid};

verus! {

/// A list of strings as a JSON array of strings.
pub open spec fn strings_json(v: Seq<Seq<char>>) -> JsonV {
    JsonV::Array(v.map_values(|s: Seq<char>| JsonV::Str(s)))
}

/// `serde_json::to_value(&strings)`
pub fn to_json_strings(v: &Vec<String>) -> (r: Json)
    ensures
        r@ == strings_json(strings_view(v@)),
{
    let mut items: Vec<Json> = Vec::new();
    let n = v.len();
    for i in 0..n
        invariant
            n == v@.len(),
            items@.len() == i,
            forall|k: int| 0 <= k < i ==> #[trigger] items@[k]@ == JsonV::Str(v@[k]@),
    {
        items.push(Json::Str(v[i].clone()));
    }
    proof {
        lemma_items_view(items@);
        let target = strings_view(v@).map_values(|s: Seq<char>| JsonV::Str(s));
        assert forall|k: int| 0 <= k < n implies #[trigger] items_view(items@)[k] == target[k] by {
            assert(items_view(items@)[k] == json_view(items@[k]));
            assert(items@[k]@ == JsonV::Str(v@[k]@));
            assert(strings_view(v@)[k] == v@[k]@);
        }
        assert(items_view(items@) =~= target);
    }
    Json::Array(items)
}

/// A JSON value read as a list of strings: an array whose items are all
/// strings; anything else reads as the empty list
/// (`serde_json::from_value::<Vec<String>>(v).unwrap_or_default()`).
pub open spec fn string_list_of(v: JsonV) -> Seq<Seq<char>> {
    match v {
        JsonV::Array(items) => if forall|k: int| 0 <= k < items.len() ==> (#[trigger] items[k]) is Str {
            items.map_values(|x: JsonV| x->Str_0)
        } else {
            Seq::empty()
        },
        _ => Seq::empty(),
    }
}

/// Reads a stored list of strings.
pub fn string_list(v: Option<&Json>) -> (r: Vec<String>)
    ensures
        strings_view(r@) == string_list_of(or_null(v)),
{
    match v {
        Some(Json::Array(items)) => {
            let mut out: Vec<String> = Vec::new();
            let n = items.len();
            proof {
                lemma_items_view(items@);
            }
            for i in 0..n
                invariant
                    n == items@.len(),
                    v matches Some(j) && *j == Json::Array(*items),
                    items_view(items@).len() == n,
                    forall|k: int| 0 <= k < n ==> #[trigger] items_view(items@)[k] == items@[k]@,
                    out@.len() == i,
                    forall|k: int| 0 <= k < i ==> (#[trigger] items@[k]) is Str,
                    forall|k: int| 0 <= k < i ==> #[trigger] out@[k]@ == items@[k]->Str_0@,
            {
                match &items[i] {
                    Json::Str(s) => out.push(s.clone()),
                    _ => {
                        proof {
                            assert(!(items_view(items@)[i as int] is Str));
                        }
                        let e: Vec<String> = Vec::new();
                        proof {
                            assert(strings_view(e@) =~= Seq::<Seq<char>>::empty());
                        }
                        return e;
                    },
                }
            }
            proof {
                assert(strings_view(out@) =~= items_view(items@).map_values(|x: JsonV| x->Str_0));
            }
            out
        },
        _ => {
            let e: Vec<String> = Vec::new();
            proof {
                assert(strings_view(e@) =~= Seq::<Seq<char>>::empty());
            }
            e
        },
    }
}

/// A dynamic as the database row it is stored in.
#[derive(Debug, PartialEq)]
pub struct DynamicRecord {
    pub id: String,
    pub source_id: i32,
    pub dyn_type: String,
    pub content: String,
    pub pics: Option<Json>,
    pub stat: Option<Json>,
    pub pub_ts: i64,
    pub comment_type: i64,
    pub comment_oid: String,
    pub location: String,
    /// The raw item, stored as its JSON text.
    pub raw: Option<Json>,
    pub download_status: u32,
    pub path: String,
    pub valid: bool,
    pub rescan_reply: bool,
}

/// The row a newly scanned dynamic is stored as: not yet downloaded,
/// without a directory, valid, not marked for a rescan.
pub open spec fn dynamic_record_matches(rec: DynamicRecord, info: DynamicInfo, source_id: i32) -> bool {
    &&& rec.id@ == info.id@
    &&& rec.source_id == source_id
    &&& rec.dyn_type@ == info.dyn_type@
    &&& rec.content@ == info.content@
    &&& rec.pics matches Some(p) && p@ == strings_json(strings_view(info.pics@))
    &&& rec.stat matches Some(s) && s@ == info.stat@
    &&& rec.pub_ts == info.pub_ts
    &&& rec.comment_type == info.comment_type
    &&& rec.comment_oid@ == info.comment_oid@
    &&& rec.location@ == info.location@
    &&& rec.raw matches Some(w) && w@ == info.raw@
    &&& rec.download_status == 0
    &&& rec.path@.len() == 0
    &&& rec.valid
    &&& !rec.rescan_reply
}

/// The row a newly scanned dynamic is stored as.
pub fn dynamic_record(info: &DynamicInfo, source_id: i32) -> (r: DynamicRecord)
    ensures
        dynamic_record_matches(r, *info, source_id),
{
    DynamicRecord {
        id: info.id.clone(),
        source_id,
        dyn_type: info.dyn_type.clone(),
        content: info.content.clone(),
        pics: Some(to_json_strings(&info.pics)),
        stat: Some(info.stat.deep_copy()),
        pub_ts: info.pub_ts,
        comment_type: info.comment_type,
        comment_oid: info.comment_oid.clone(),
        location: info.location.clone(),
        raw: Some(info.raw.deep_copy()),
        download_status: 0,
        path: String::new(),
        valid: true,
        rescan_reply: false,
    }
}

/// The download status of a dynamic whose directory, pictures and
/// comments are written; a valid row below it is handled in a later round.
pub const STATUS_COMPLETED: u32 = 0x8000_0000;

/// The row keeps everything but its status, directory and rescan mark.
pub open spec fn same_content(a: DynamicRecord, b: DynamicRecord) -> bool {
    &&& a.id == b.id
    &&& a.source_id == b.source_id
    &&& a.dyn_type == b.dyn_type
    &&& a.content == b.content
    &&& a.pics == b.pics
    &&& a.stat == b.stat
    &&& a.pub_ts == b.pub_ts
    &&& a.comment_type == b.comment_type
    &&& a.comment_oid == b.comment_oid
    &&& a.location == b.location
    &&& a.raw == b.raw
    &&& a.valid == b.valid
}

/// A valid row that the next round handles.
pub open spec fn unhandled(rec: DynamicRecord) -> bool {
    rec.valid && rec.download_status < STATUS_COMPLETED
}

/// The row of a dynamic once it is saved to `dir`: completed, stored at
/// `dir`, its rescan mark cleared.
pub fn mark_completed(rec: &mut DynamicRecord, dir: String)
    ensures
        final(rec).download_status == STATUS_COMPLETED,
        final(rec).path == dir,
        !final(rec).rescan_reply,
        same_content(*final(rec), *old(rec)),
{
    rec.download_status = STATUS_COMPLETED;
    rec.path = dir;
    rec.rescan_reply = false;
}

/// The row of a completed dynamic found without its comments: marked for a
/// comment rescan and put back below completed, so that the next round
/// handles it again (its directory stays).
pub fn mark_for_rescan(rec: &mut DynamicRecord)
    ensures
        final(rec).rescan_reply,
        final(rec).download_status == 0,
        final(rec).path == old(rec).path,
        same_content(*final(rec), *old(rec)),
        final(rec).valid ==> unhandled(*final(rec)),
{
    rec.rescan_reply = true;
    rec.download_status = 0;
}

/// The fields of a stored dynamic that its export reads.
#[derive(Debug, PartialEq)]
pub struct StoredDynamic {
    pub id: String,
    pub dyn_type: String,
    pub content: String,
    pub pics: Option<Json>,
    pub stat: Option<Json>,
    pub pub_ts: i64,
    pub location: String,
}

/// The dynamic rebuilt from its row for the markdown export: no comment
/// area and no raw item; missing stats read as `Null`, unreadable
/// pictures as none.
pub open spec fn export_matches(info: DynamicInfo, row: StoredDynamic) -> bool {
    &&& info.id@ == row.id@
    &&& info.dyn_type@ == row.dyn_type@
    &&& info.content@ == row.content@
    &&& strings_view(info.pics@) == string_list_of(
        match row.pics {
            Some(p) => p@,
            None => JsonV::Null,
        },
    )
    &&& info.stat@ == match row.stat {
        Some(s) => s@,
        None => JsonV::Null,
    }
    &&& info.pub_ts == row.pub_ts
    &&& info.comment_type == 0
    &&& info.comment_oid@.len() == 0
    &&& info.location@ == row.location@
    &&& info.raw@ == JsonV::Null
}

/// Rebuilds a dynamic from its row for the markdown export.
pub fn export_info(row: &StoredDynamic) -> (r: DynamicInfo)
    ensures
        export_matches(r, *row),
{
    let pics = match &row.pics {
        Some(p) => string_list(Some(p)),
        None => string_list(None),
    };
    let stat = match &row.stat {
        Some(s) => copy_or_null(Some(s)),
        None => Json::Null,
    };
    DynamicInfo {
        id: row.id.clone(),
        dyn_type: row.dyn_type.clone(),
        content: row.content.clone(),
        pics,
        stat,
        pub_ts: row.pub_ts,
        comment_type: 0,
        comment_oid: String::new(),
        location: row.location.clone(),
        raw: Json::Null,
    }
}

/// The directory of a dynamic inside its source's directory:
/// `{YYYY-MM-DD} {id}`.
pub fn dynamic_dir_name(pub_ts: i64, id: &str) -> (r: String)
    requires
        utc_secs_representable(pub_ts),
    ensures
        r@ == utc_format_text(pub_ts, "%Y-%m-%d"@) + " "@ + id@,
{
    let d = date_text(pub_ts);
    let mut out: Vec<char> = Vec::new();
    push_str(&mut out, d.as_str());
    push_str(&mut out, " ");
    push_str(&mut out, id);
    string_from_chars(&out)
}

/// The file of the `i`-th picture (from 0) of a dynamic, under `pics/`:
/// its number from 1, two digits.
pub open spec fn pic_file_name_of(i: nat) -> Seq<char> {
    zero_pad2(nat_text(i + 1)) + ".jpg"@
}

pub fn pic_file_name(i: usize) -> (r: String)
    requires
        i < usize::MAX,
    ensures
        r@ == pic_file_name_of(i as nat),
{
    let mut out = usize_text_pad2(i + 1);
    push_str(&mut out, ".jpg");
    string_from_chars(&out)
}

/// The file of the `i`-th picture (from 0) of comment `rpid`, under `comments/`.
pub open spec fn comment_image_name_of(rpid: i64, i: nat) -> Seq<char> {
    int_text(rpid as int) + "_"@ + nat_text(i + 1) + ".jpg"@
}

pub fn comment_image_name(rpid: i64, i: usize) -> (r: String)
    requires
        i < usize::MAX,
    ensures
        r@ == comment_image_name_of(rpid, i as nat),
{
    let mut out = i64_text(rpid);
    push_str(&mut out, "_");
    push_chars(&mut out, &usize_text(i + 1));
    push_str(&mut out, ".jpg");
    string_from_chars(&out)
}


/// A comment as the database row it is stored in.
#[derive(Debug, PartialEq)]
pub struct ReplyRecord {
    pub rpid: i64,
    pub dynamic_id: String,
    pub parent_rpid: Option<i64>,
    pub uname: String,
    pub avatar: String,
    pub content: String,
    /// The picture URLs, `None` for a comment without pictures.
    pub images: Option<Json>,
    pub ctime: i64,
    /// The raw comment, stored as its JSON text.
    pub raw: Option<Json>,
    pub download_status: u32,
    pub valid: bool,
}

/// Comments and their replies in storing order: each comment followed by
/// its direct replies.
pub open spec fn flat_replies(rs: Seq<ReplyInfo>) -> Seq<ReplyInfo>
    decreases rs.len(),
{
    if rs.len() == 0 {
        Seq::empty()
    } else {
        flat_replies(rs.drop_last()) + seq![rs.last()] + rs.last().sub_replies@
    }
}

/// The row a comment of dynamic `dynamic_id` is stored as.
pub open spec fn reply_record_matches(rec: ReplyRecord, dynamic_id: Seq<char>, r: ReplyInfo) -> bool {
    &&& rec.rpid == r.rpid
    &&& rec.dynamic_id@ == dynamic_id
    &&& rec.parent_rpid == r.parent_rpid
    &&& rec.uname@ == r.uname@
    &&& rec.avatar@ == r.avatar@
    &&& rec.content@ == r.content@
    &&& if r.images@.len() == 0 {
        rec.images is None
    } else {
        rec.images matches Some(j) && j@ == strings_json(strings_view(r.images@))
    }
    &&& rec.ctime == r.ctime
    &&& rec.raw matches Some(w) && w@ == r.raw@
    &&& rec.download_status == 0
    &&& rec.valid
}

fn reply_record(dynamic_id: &str, r: &ReplyInfo) -> (rec: ReplyRecord)
    ensures
        reply_record_matches(rec, dynamic_id@, *r),
{
    ReplyRecord {
        rpid: r.rpid,
        dynamic_id: dynamic_id.to_owned(),
        parent_rpid: r.parent_rpid,
        uname: r.uname.clone(),
        avatar: r.avatar.clone(),
        content: r.content.clone(),
        images: if r.images.len() == 0 {
            None
        } else {
            Some(to_json_strings(&r.images))
        },
        ctime: r.ctime,
        raw: Some(r.raw.deep_copy()),
        download_status: 0,
        valid: true,
    }
}

/// The rows the comments of a dynamic are stored as, each comment
/// followed by its direct replies.
pub fn reply_records(dynamic_id: &str, replies: &[ReplyInfo]) -> (r: Vec<ReplyRecord>)
    ensures
        r@.len() == flat_replies(replies@).len(),
        forall|k: int|
            0 <= k < r@.len() ==> reply_record_matches(
                #[trigger] r@[k],
                dynamic_id@,
                flat_replies(replies@)[k],
            ),
{
    let mut out: Vec<ReplyRecord> = Vec::new();
    let n = replies.len();
    proof {
        assert(replies@.take(0) =~= Seq::<ReplyInfo>::empty());
    }
    for i in 0..n
        invariant
            n == replies@.len(),
            out@.len() == flat_replies(replies@.take(i as int)).len(),
            forall|k: int|
                0 <= k < out@.len() ==> reply_record_matches(
                    #[trigger] out@[k],
                    dynamic_id@,
                    flat_replies(replies@.take(i as int))[k],
                ),
    {
        let ghost prev = flat_replies(replies@.take(i as int));
        proof {
            assert(replies@.take(i + 1).drop_last() =~= replies@.take(i as int));
        }
        let r = &replies[i];
        out.push(reply_record(dynamic_id, r));
        let ghost with_r = prev + seq![*r];
        let subs = &r.sub_replies;
        let m = subs.len();
        for j in 0..m
            invariant
                m == subs@.len(),
                out@.len() == with_r.len() + j,
                forall|k: int|
                    0 <= k < out@.len() ==> reply_record_matches(
                        #[trigger] out@[k],
                        dynamic_id@,
                        (with_r + subs@)[k],
                    ),
        {
            out.push(reply_record(dynamic_id, &subs[j]));
        }
        proof {
            assert(flat_replies(replies@.take(i + 1)) =~= with_r + subs@);
        }
    }
    proof {
        assert(replies@.take(n as int) =~= replies@);
    }
    out
}

/// The pictures to download for one comment: `(url, file name)`.
pub open spec fn image_jobs(r: ReplyInfo) -> Seq<(Seq<char>, Seq<char>)> {
    Seq::new(
        r.images@.len(),
        |k: int| (r.images@[k]@, comment_image_name_of(r.rpid, k as nat)),
    )
}

/// The pictures to download for a list of comments, in order.
pub open spec fn all_image_jobs(rs: Seq<ReplyInfo>) -> Seq<(Seq<char>, Seq<char>)>
    decreases rs.len(),
{
    if rs.len() == 0 {
        Seq::empty()
    } else {
        all_image_jobs(rs.drop_last()) + image_jobs(rs.last())
    }
}

proof fn lemma_all_image_jobs_concat(a: Seq<ReplyInfo>, b: Seq<ReplyInfo>)
    ensures
        all_image_jobs(a + b) == all_image_jobs(a) + all_image_jobs(b),
    decreases b.len(),
{
    if b.len() == 0 {
        assert(a + b =~= a);
        assert(all_image_jobs(a) + all_image_jobs(b) =~= all_image_jobs(a));
    } else {
        assert((a + b).drop_last() =~= a + b.drop_last());
        lemma_all_image_jobs_concat(a, b.drop_last());
        assert(all_image_jobs(a + b) =~= all_image_jobs(a) + all_image_jobs(b));
    }
}

/// The comment pictures to download for a dynamic, `(url, file name)`:
/// those of each comment, then those of its direct replies.
pub fn comment_image_downloads(replies: &[ReplyInfo]) -> (r: Vec<(String, String)>)
    ensures
        crate::dynamic::params_view(r@) == all_image_jobs(flat_replies(replies@)),
{
    let mut out: Vec<(String, String)> = Vec::new();
    let n = replies.len();
    proof {
        assert(replies@.take(0) =~= Seq::<ReplyInfo>::empty());
        assert(crate::dynamic::params_view(out@) =~= Seq::<(Seq<char>, Seq<char>)>::empty());
    }
    for i in 0..n
        invariant
            n == replies@.len(),
            crate::dynamic::params_view(out@) == all_image_jobs(flat_replies(replies@.take(i as int))),
    {
        let ghost prev = flat_replies(replies@.take(i as int));
        proof {
            assert(replies@.take(i + 1).drop_last() =~= replies@.take(i as int));
        }
        let r = &replies[i];
        push_image_jobs(&mut out, r);
        let subs = &r.sub_replies;
        let m = subs.len();
        proof {
            lemma_all_image_jobs_concat(prev, seq![*r]);
            assert(seq![*r].drop_last() =~= Seq::<ReplyInfo>::empty());
            assert(seq![*r].last() == *r);
            assert(all_image_jobs(seq![*r]) == all_image_jobs(seq![*r].drop_last()) + image_jobs(
                *r,
            ));
            assert(all_image_jobs(Seq::<ReplyInfo>::empty()) == Seq::<(Seq<char>, Seq<char>)>::empty());
            assert(all_image_jobs(seq![*r]) =~= image_jobs(*r));
            assert(crate::dynamic::params_view(out@) == all_image_jobs(prev + seq![*r]));
            assert(subs@.take(0) =~= Seq::<ReplyInfo>::empty());
        }
        for j in 0..m
            invariant
                m == subs@.len(),
                crate::dynamic::params_view(out@) == all_image_jobs(prev + seq![*r])
                    + all_image_jobs(subs@.take(j as int)),
        {
            proof {
                assert(subs@.take(j + 1).drop_last() =~= subs@.take(j as int));
            }
            push_image_jobs(&mut out, &subs[j]);
            proof {
                assert(crate::dynamic::params_view(out@) =~= all_image_jobs(prev + seq![*r])
                    + all_image_jobs(subs@.take(j + 1)));
            }
        }
        proof {
            assert(subs@.take(m as int) =~= subs@);
            lemma_all_image_jobs_concat(prev + seq![*r], subs@);
            assert(flat_replies(replies@.take(i + 1)) =~= prev + seq![*r] + subs@);
        }
    }
    proof {
        assert(replies@.take(n as int) =~= replies@);
    }
    out
}

fn push_image_jobs(out: &mut Vec<(String, String)>, r: &ReplyInfo)
    ensures
        crate::dynamic::params_view(final(out)@) == crate::dynamic::params_view(old(out)@)
            + image_jobs(*r),
{
    let ghost start = crate::dynamic::params_view(out@);
    let n = r.images.len();
    for i in 0..n
        invariant
            n == r.images@.len(),
            crate::dynamic::params_view(out@) == start + image_jobs(*r).take(i as int),
    {
        let name = comment_image_name(r.rpid, i);
        let ghost before = out@;
        out.push((r.images[i].clone(), name));
        proof {
            assert(crate::dynamic::params_view(out@) =~= crate::dynamic::params_view(before).push(
                (r.images@[i as int]@, comment_image_name_of(r.rpid, i as nat)),
            ));
            assert(image_jobs(*r).take(i + 1) =~= image_jobs(*r).take(i as int).push(
                (r.images@[i as int]@, comment_image_name_of(r.rpid, i as nat)),
            ));
        }
    }
    proof {
        assert(image_jobs(*r).take(n as int) =~= image_jobs(*r));
    }
}


/// The directory name of a dynamic, or `None` when its publish time is not
/// an instant chrono can hold.
pub fn dynamic_dir_name_checked(pub_ts: i64, id: &str) -> (r: Option<String>)
    ensures
        match r {
            Some(t) => utc_secs_representable(pub_ts) && t@ == utc_format_text(pub_ts, "%Y-%m-%d"@)
                + " "@ + id@,
            None => !utc_secs_representable(pub_ts),
        },
{
    if utc_secs_valid(pub_ts) {
        Some(dynamic_dir_name(pub_ts, id))
    } else {
        None
    }
}

} // verus!
