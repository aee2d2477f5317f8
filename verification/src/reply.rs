//! Comments of a comment area: reading them, and the paging of the
//! comment API.

use vstd::prelude::*;
use crate::dynamic::{normalized_url, normalize_url, params_view, push_param, strings_view};
use crate::error::FeedError;
use crate::json::{
    as_array, as_i64, as_str, copy_or_null, is_null, items_view, lemma_items_view, member,
    or_null, str_or, string_or, Json, JsonV,
};
use crate::text::{i64_text, int_text, nat_text, string_from_chars, usize_text};
use crate::time::{check_instant, checked_instant};

verus! {

/// One comment, with its replies.
#[derive(Debug, PartialEq)]
pub struct ReplyInfo {
    pub rpid: i64,
    /// The comment replied to; `None` for a top-level comment.
    pub parent_rpid: Option<i64>,
    pub uname: String,
    pub avatar: String,
    pub content: String,
    /// Picture URLs in the comment.
    pub images: Vec<String>,
    /// Creation time, seconds since the Unix epoch.
    pub ctime: i64,
    /// The comment as the API returned it.
    pub raw: Json,
    /// Replies to this comment.
    pub sub_replies: Vec<ReplyInfo>,
}

/// The comment API.
pub struct Reply {}

/// A non-zero id.
pub open spec fn nonzero(v: Option<i64>) -> Option<i64> {
    match v {
        Some(x) => if x != 0 {
            Some(x)
        } else {
            None
        },
        None => None,
    }
}

/// The comment a comment replies to: its non-zero `parent`, else the
/// non-zero `replied_comment.rpid`.
pub open spec fn parent_of(r: JsonV) -> Option<i64> {
    match nonzero(r.at("parent"@).i64_of()) {
        Some(p) => Some(p),
        None => nonzero(r.at("replied_comment"@).at("rpid"@).i64_of()),
    }
}

/// Picture URLs of a comment: each picture's `img_src`, else its `img_url`.
pub open spec fn image_urls(items: Seq<JsonV>) -> Seq<Seq<char>>
    decreases items.len(),
{
    if items.len() == 0 {
        Seq::empty()
    } else {
        let prev = image_urls(items.drop_last());
        let p = items.last();
        match p.at("img_src"@).str_of() {
            Some(u) => prev.push(normalized_url(u)),
            None => match p.at("img_url"@).str_of() {
                Some(u) => prev.push(normalized_url(u)),
                None => prev,
            },
        }
    }
}

/// The picture URLs of a comment (none when `content.pictures` is not a list).
pub open spec fn images_of(r: JsonV) -> Seq<Seq<char>> {
    match r.at("content"@).at("pictures"@).array_of() {
        Some(items) => image_urls(items),
        None => Seq::empty(),
    }
}

/// The fields of a [`ReplyInfo`] read from a comment.
pub open spec fn reply_matches(info: ReplyInfo, r: JsonV) -> bool {
    &&& Some(info.rpid) == r.at("rpid"@).i64_of()
    &&& info.parent_rpid == parent_of(r)
    &&& info.uname@ == str_or(r.at("member"@).at("uname"@), "未知用户"@)
    &&& info.avatar@ == str_or(r.at("member"@).at("avatar"@), ""@)
    &&& info.content@ == str_or(r.at("content"@).at("message"@), ""@)
    &&& strings_view(info.images@) == images_of(r)
    &&& Some(info.ctime) == checked_instant(r.at("ctime"@).i64_of())
    &&& info.raw@ == r
    &&& info.sub_replies@.len() == 0
}

fn nonzero_of(v: Option<i64>) -> (r: Option<i64>)
    ensures
        r == nonzero(v),
{
    match v {
        Some(x) => if x != 0 {
            Some(x)
        } else {
            None
        },
        None => None,
    }
}

fn collect_images(items: &Vec<Json>) -> (r: Vec<String>)
    ensures
        strings_view(r@) == image_urls(items_view(items@)),
{
    let mut out: Vec<String> = Vec::new();
    let n = items.len();
    proof {
        lemma_items_view(items@);
        assert(items_view(items@).take(0) =~= Seq::<JsonV>::empty());
        assert(strings_view(out@) =~= Seq::<Seq<char>>::empty());
    }
    for i in 0..n
        invariant
            n == items@.len(),
            items_view(items@).len() == n,
            forall|k: int| 0 <= k < n ==> #[trigger] items_view(items@)[k] == items@[k]@,
            strings_view(out@) == image_urls(items_view(items@).take(i as int)),
    {
        proof {
            assert(items_view(items@).take(i + 1).drop_last() =~= items_view(items@).take(i as int));
            assert(items_view(items@).take(i + 1).last() == items@[i as int]@);
        }
        let p = Some(&items[i]);
        let url = match as_str(member(p, "img_src")) {
            Some(u) => Some(u),
            None => as_str(member(p, "img_url")),
        };
        if let Some(u) = url {
            let ghost before = out@;
            out.push(normalize_url(u));
            proof {
                assert(strings_view(out@) =~= strings_view(before).push(normalized_url(u@)));
            }
        }
    }
    proof {
        assert(items_view(items@).take(n as int) =~= items_view(items@));
    }
    out
}

/// Reads one comment (without its replies).
pub fn parse_reply(reply: &Json) -> (r: Result<ReplyInfo, FeedError>)
    ensures
        match r {
            Ok(info) => reply_matches(info, reply@),
            Err(e) => (reply@.at("rpid"@).i64_of() is None && e is InvalidRpid) || (
            reply@.at("rpid"@).i64_of() is Some && checked_instant(reply@.at("ctime"@).i64_of())
                is None && e is InvalidCtime),
        },
{
    let it = Some(reply);
    let rpid = match as_i64(member(it, "rpid")) {
        Some(x) => x,
        None => return Err(FeedError::InvalidRpid),
    };
    let parent_rpid = match nonzero_of(as_i64(member(it, "parent"))) {
        Some(p) => Some(p),
        None => nonzero_of(as_i64(member(member(it, "replied_comment"), "rpid"))),
    };
    let m = member(it, "member");
    let uname = string_or(member(m, "uname"), "未知用户");
    let avatar = string_or(member(m, "avatar"), "");
    let content = member(it, "content");
    let message = string_or(member(content, "message"), "");
    let images = match as_array(member(content, "pictures")) {
        Some(items) => collect_images(items),
        None => {
            let v: Vec<String> = Vec::new();
            proof {
                assert(strings_view(v@) =~= Seq::<Seq<char>>::empty());
            }
            v
        },
    };
    let ctime = match check_instant(as_i64(member(it, "ctime"))) {
        Some(t) => t,
        None => return Err(FeedError::InvalidCtime),
    };
    Ok(
        ReplyInfo {
            rpid,
            parent_rpid,
            uname,
            avatar,
            content: message,
            images,
            ctime,
            raw: reply.deep_copy(),
            sub_replies: Vec::new(),
        },
    )
}

/// The comments of a page of comments: `data.replies` when it is a
/// non-empty list; otherwise paging stops.
pub fn page_replies<'a>(data: Option<&'a Json>) -> (r: Option<&'a Vec<Json>>)
    ensures
        match r {
            Some(v) => or_null(data).at("replies"@).array_of() == Some(items_view(v@))
                && v@.len() > 0,
            None => !(or_null(data).at("replies"@).array_of() matches Some(s) && s.len() > 0),
        },
{
    match as_array(member(data, "replies")) {
        Some(items) => {
            proof {
                lemma_items_view(items@);
            }
            if items.len() > 0 {
                Some(items)
            } else {
                None
            }
        },
        None => None,
    }
}

/// The cursor of the next page of top-level comments: `None` when
/// `cursor.pagination_reply.next_offset` is null, missing or an empty string.
pub open spec fn next_offset_of(data: JsonV) -> Option<JsonV> {
    let o = data.at("cursor"@).at("pagination_reply"@).at("next_offset"@);
    if o is Null || o.str_of() == Some(Seq::<char>::empty()) {
        None
    } else {
        Some(o)
    }
}

/// Reads the cursor of the next page of top-level comments.
pub fn next_reply_offset(data: Option<&Json>) -> (r: Option<Json>)
    ensures
        match r {
            Some(o) => next_offset_of(or_null(data)) == Some(o@),
            None => next_offset_of(or_null(data)) is None,
        },
{
    let o = member(member(member(data, "cursor"), "pagination_reply"), "next_offset");
    if is_null(o) {
        return None;
    }
    match as_str(o) {
        Some(s) => if s.is_empty() {
            proof {
                assert(s@ =~= Seq::<char>::empty());
            }
            return None;
        },
        None => {},
    }
    Some(copy_or_null(o))
}

/// The pagination value that opens the first page.
pub open spec fn first_pagination() -> Seq<char> {
    "{\"offset\":\"\"}"@
}

impl Reply {
    pub fn new() -> Reply {
        Reply {  }
    }

    /// The query of a page of top-level comments. The first `pagination_str`
    /// always opens the first page; a cursor, serialized as
    /// `{"offset": <cursor>}`, is added after it for a later page.
    pub fn main_query(comment_type: i64, oid: &str, pagination: Option<&str>) -> (r: Vec<
        (String, String),
    >)
        ensures
            params_view(r@) == seq![
                ("type"@, int_text(comment_type as int)),
                ("oid"@, oid@),
                ("mode"@, "3"@),
                ("pagination_str"@, first_pagination()),
            ] + match pagination {
                Some(p) => seq![("pagination_str"@, p@)],
                None => Seq::empty(),
            },
    {
        let mut ps: Vec<(String, String)> = Vec::new();
        let ty = string_from_chars(&i64_text(comment_type));
        push_param(&mut ps, "type", ty.as_str());
        push_param(&mut ps, "oid", oid);
        push_param(&mut ps, "mode", "3");
        push_param(&mut ps, "pagination_str", "{\"offset\":\"\"}");
        let ghost base = params_view(ps@);
        match pagination {
            Some(p) => push_param(&mut ps, "pagination_str", p),
            None => {},
        }
        proof {
            assert(params_view(ps@) =~= seq![
                ("type"@, int_text(comment_type as int)),
                ("oid"@, oid@),
                ("mode"@, "3"@),
                ("pagination_str"@, first_pagination()),
            ] + match pagination {
                Some(p) => seq![("pagination_str"@, p@)],
                None => Seq::empty(),
            });
        }
        ps
    }

    /// The query of page `page` (counting from 1) of the replies to `root`,
    /// twenty per page.
    pub fn sub_query(comment_type: i64, oid: &str, root: i64, page: usize) -> (r: Vec<
        (String, String),
    >)
        ensures
            params_view(r@) == seq![
                ("type"@, int_text(comment_type as int)),
                ("oid"@, oid@),
                ("root"@, int_text(root as int)),
                ("ps"@, "20"@),
                ("pn"@, nat_text(page as nat)),
            ],
    {
        let mut ps: Vec<(String, String)> = Vec::new();
        let ty = string_from_chars(&i64_text(comment_type));
        let rt = string_from_chars(&i64_text(root));
        let pn = string_from_chars(&usize_text(page));
        push_param(&mut ps, "type", ty.as_str());
        push_param(&mut ps, "oid", oid);
        push_param(&mut ps, "root", rt.as_str());
        push_param(&mut ps, "ps", "20");
        push_param(&mut ps, "pn", pn.as_str());
        proof {
            assert(params_view(ps@) =~= seq![
                ("type"@, int_text(comment_type as int)),
                ("oid"@, oid@),
                ("root"@, int_text(root as int)),
                ("ps"@, "20"@),
                ("pn"@, nat_text(page as nat)),
            ]);
        }
        ps
    }
}

/// A comment that reads as a [`ReplyInfo`].
pub open spec fn reply_parses(r: JsonV) -> bool {
    r.at("rpid"@).i64_of() is Some && checked_instant(r.at("ctime"@).i64_of()) is Some
}

/// The error a comment that does not read is reported with.
pub open spec fn parse_error(r: JsonV) -> FeedError {
    if r.at("rpid"@).i64_of() is None {
        FeedError::InvalidRpid
    } else {
        FeedError::InvalidCtime
    }
}

/// The comments `v` read from the page comments `rs`, one for one.
pub open spec fn page_read(v: Seq<ReplyInfo>, rs: Seq<JsonV>) -> bool {
    &&& v.len() == rs.len()
    &&& forall|k: int| 0 <= k < rs.len() ==> reply_matches(#[trigger] v[k], rs[k])
}

/// Reads the comments of a page, in order; fails with the error of the
/// first comment that does not read.
pub fn parse_page(replies: &Vec<Json>) -> (r: Result<Vec<ReplyInfo>, FeedError>)
    ensures
        match r {
            Ok(v) => page_read(v@, items_view(replies@)),
            Err(e) => exists|k: int|
                0 <= k < replies@.len() && !reply_parses(#[trigger] items_view(replies@)[k]) && e
                    == parse_error(items_view(replies@)[k]) && forall|j: int|
                    0 <= j < k ==> reply_parses(#[trigger] items_view(replies@)[j]),
        },
{
    let mut out: Vec<ReplyInfo> = Vec::new();
    let n = replies.len();
    proof {
        lemma_items_view(replies@);
    }
    for i in 0..n
        invariant
            n == replies@.len(),
            items_view(replies@).len() == n,
            forall|k: int| 0 <= k < n ==> #[trigger] items_view(replies@)[k] == replies@[k]@,
            out@.len() == i,
            forall|k: int| 0 <= k < i ==> reply_matches(#[trigger] out@[k], items_view(replies@)[k]),
    {
        match parse_reply(&replies[i]) {
            Ok(info) => {
                out.push(info);
            },
            Err(e) => {
                proof {
                    assert(!reply_parses(items_view(replies@)[i as int]));
                    assert forall|j: int| 0 <= j < i implies reply_parses(
                        #[trigger] items_view(replies@)[j],
                    ) by {
                        assert(reply_matches(out@[j], items_view(replies@)[j]));
                    }
                }
                return Err(e);
            },
        }
    }
    Ok(out)
}

/// What to fetch next while reading a comment area.
#[derive(Debug, PartialEq)]
pub enum PagingStep {
    /// A page of top-level comments, after this cursor (`None`: the first page).
    Main(Option<Json>),
    /// Page `page` (from 1) of the replies to the comment `root`.
    Sub(i64, usize),
    /// Every page is read.
    Finished,
}

/// The reading of a comment area: at most `max_pages` pages of top-level
/// comments and, for each comment, at most `max_sub_pages` pages of
/// replies, fetched comment by comment in page order.
#[derive(Debug, PartialEq)]
pub struct ReplyPaging {
    pub max_pages: usize,
    pub max_sub_pages: usize,
    /// Pages of top-level comments read so far.
    pub pages: usize,
    /// The cursor of the next page of top-level comments.
    pub cursor: Option<Json>,
    /// No further page of top-level comments is read.
    pub last_page: bool,
    /// Comments complete with their replies, in order.
    pub done: Vec<ReplyInfo>,
    /// The comment whose replies are being read.
    pub current: Option<ReplyInfo>,
    /// Pages of replies read for the current comment.
    pub sub_pages: usize,
    /// Comments of the page read last still waiting for their replies.
    pub queue: Vec<ReplyInfo>,
}

pub open spec fn opt_seq(o: Option<ReplyInfo>) -> Seq<ReplyInfo> {
    match o {
        Some(x) => seq![x],
        None => Seq::empty(),
    }
}

/// Every comment read so far, in order: the complete ones, the current
/// one and the waiting ones.
pub open spec fn comments_read(p: ReplyPaging) -> Seq<ReplyInfo> {
    p.done@ + opt_seq(p.current) + p.queue@
}

/// The limits hold.
pub open spec fn paging_wf(p: ReplyPaging) -> bool {
    &&& p.pages <= p.max_pages
    &&& p.sub_pages <= p.max_sub_pages
}

pub open spec fn opt_json_view(o: Option<Json>) -> Option<JsonV> {
    match o {
        Some(j) => Some(j@),
        None => None,
    }
}

/// What is fetched next: the replies of the current comment while it has
/// pages left, else the next page of top-level comments while there is
/// one, else nothing.
pub open spec fn step_due(p: ReplyPaging) -> int {
    if p.current is Some && p.sub_pages < p.max_sub_pages {
        1
    } else if p.current is None && p.queue@.len() == 0 && !p.last_page && p.pages < p.max_pages {
        0
    } else {
        2
    }
}

/// The state is settled: a current comment has pages of replies left, and
/// comments wait only behind a current one.
pub open spec fn settled(p: ReplyPaging) -> bool {
    &&& p.current matches Some(_) ==> p.sub_pages < p.max_sub_pages
    &&& p.current is None ==> p.queue@.len() == 0
}

/// The comment `c` is `o` with the comments read from the page `rs` added
/// to its replies.
pub open spec fn sub_replies_added(c: ReplyInfo, o: ReplyInfo, rs: Seq<JsonV>) -> bool {
    &&& c.sub_replies@.take(o.sub_replies@.len() as int) == o.sub_replies@
    &&& page_read(c.sub_replies@.skip(o.sub_replies@.len() as int), rs)
    &&& c.rpid == o.rpid
    &&& c.parent_rpid == o.parent_rpid
    &&& c.uname == o.uname
    &&& c.avatar == o.avatar
    &&& c.content == o.content
    &&& c.images == o.images
    &&& c.ctime == o.ctime
    &&& c.raw == o.raw
}

impl ReplyPaging {
    /// The reading before the first page.
    pub fn start(max_pages: usize, max_sub_pages: usize) -> (r: Self)
        ensures
            r.max_pages == max_pages,
            r.max_sub_pages == max_sub_pages,
            r.pages == 0,
            r.cursor is None,
            !r.last_page,
            comments_read(r).len() == 0,
            r.current is None,
            r.sub_pages == 0,
            paging_wf(r),
            settled(r),
    {
        let r = ReplyPaging {
            max_pages,
            max_sub_pages,
            pages: 0,
            cursor: None,
            last_page: false,
            done: Vec::new(),
            current: None,
            sub_pages: 0,
            queue: Vec::new(),
        };
        proof {
            assert(comments_read(r) =~= Seq::<ReplyInfo>::empty());
        }
        r
    }

    /// Completes the comments that need no more pages of replies, and
    /// takes the next waiting comment as the current one.
    fn settle(&mut self)
        requires
            paging_wf(*old(self)),
        ensures
            paging_wf(*final(self)),
            settled(*final(self)),
            comments_read(*final(self)) == comments_read(*old(self)),
            final(self).done@.take(old(self).done@.len() as int) == old(self).done@,
            final(self).pages == old(self).pages,
            final(self).max_pages == old(self).max_pages,
            final(self).max_sub_pages == old(self).max_sub_pages,
            final(self).cursor == old(self).cursor,
            final(self).last_page == old(self).last_page,
            old(self).current is Some && old(self).sub_pages < old(self).max_sub_pages ==> *final(self)
                == *old(self),
    {
        let ghost start = *self;
        if self.current.is_some() && self.sub_pages < self.max_sub_pages {
            return;
        }
        loop
            invariant
                paging_wf(*self),
                comments_read(*self) == comments_read(start),
                self.done@.take(start.done@.len() as int) == start.done@,
                self.done@.len() >= start.done@.len(),
                self.pages == start.pages,
                self.max_pages == start.max_pages,
                self.max_sub_pages == start.max_sub_pages,
                self.cursor == start.cursor,
                self.last_page == start.last_page,
            ensures
                paging_wf(*self),
                settled(*self),
                comments_read(*self) == comments_read(start),
                self.done@.take(start.done@.len() as int) == start.done@,
                self.pages == start.pages,
                self.max_pages == start.max_pages,
                self.max_sub_pages == start.max_sub_pages,
                self.cursor == start.cursor,
                self.last_page == start.last_page,
            decreases 2 * self.queue@.len() + if self.current is Some { 1int } else { 0int },
        {
            if self.current.is_some() && self.sub_pages < self.max_sub_pages {
                break;
            }
            let ghost before = *self;
            match self.current.take() {
                Some(c) => {
                    self.done.push(c);
                    proof {
                        assert(comments_read(*self) =~= comments_read(before));
                        assert(self.done@.take(start.done@.len() as int) =~= before.done@.take(
                            start.done@.len() as int,
                        ));
                    }
                },
                None => {
                    if self.queue.len() == 0 {
                        break;
                    }
                    let c = self.queue.remove(0);
                    self.current = Some(c);
                    self.sub_pages = 0;
                    proof {
                        assert(comments_read(*self) =~= comments_read(before));
                    }
                },
            }
        }
    }

    /// What to fetch next (see [`step_due`]); the reading settles first.
    pub fn next_step(&mut self) -> (r: PagingStep)
        requires
            paging_wf(*old(self)),
        ensures
            paging_wf(*final(self)),
            settled(*final(self)),
            comments_read(*final(self)) == comments_read(*old(self)),
            final(self).done@.take(old(self).done@.len() as int) == old(self).done@,
            final(self).pages == old(self).pages,
            final(self).max_pages == old(self).max_pages,
            final(self).max_sub_pages == old(self).max_sub_pages,
            final(self).cursor == old(self).cursor,
            final(self).last_page == old(self).last_page,
            match r {
                PagingStep::Main(c) => step_due(*final(self)) == 0 && opt_json_view(c) == opt_json_view(
                    final(self).cursor,
                ),
                PagingStep::Sub(root, page) => step_due(*final(self)) == 1 && final(self).current is Some
                    && root == final(self).current->0.rpid && page == final(self).sub_pages + 1,
                PagingStep::Finished => step_due(*final(self)) == 2 && final(self).done@ == comments_read(
                    *final(self),
                ),
            },
    {
        self.settle();
        match &self.current {
            Some(c) => {
                return PagingStep::Sub(c.rpid, self.sub_pages + 1);
            },
            None => {},
        }
        if !self.last_page && self.pages < self.max_pages {
            let c = match &self.cursor {
                Some(j) => Some(j.deep_copy()),
                None => None,
            };
            PagingStep::Main(c)
        } else {
            proof {
                assert(comments_read(*self) =~= self.done@);
            }
            PagingStep::Finished
        }
    }

    /// Takes the `data` of the page of top-level comments just fetched: its
    /// comments, read in order, wait for their replies; paging goes on
    /// with the page's cursor, and ends at a page without comments or
    /// without a cursor, or when a comment does not read (the error).
    pub fn take_main_page(&mut self, data: Option<&Json>) -> (r: Result<(), FeedError>)
        requires
            paging_wf(*old(self)),
            settled(*old(self)),
            step_due(*old(self)) == 0,
        ensures
            paging_wf(*final(self)),
            final(self).pages == old(self).pages + 1,
            final(self).max_pages == old(self).max_pages,
            final(self).max_sub_pages == old(self).max_sub_pages,
            final(self).done == old(self).done,
            final(self).current is None,
            final(self).sub_pages == 0,
            match or_null(data).at("replies"@).array_of() {
                Some(rs) => if rs.len() > 0 {
                    match r {
                        Ok(_) => page_read(final(self).queue@, rs) && comments_read(*final(self))
                            == comments_read(*old(self)) + final(self).queue@ && final(self).last_page == (
                        next_offset_of(or_null(data)) is None) && opt_json_view(final(self).cursor)
                            == next_offset_of(or_null(data)),
                        Err(e) => exists|k: int|
                            0 <= k < rs.len() && !reply_parses(#[trigger] rs[k]) && e == parse_error(
                                rs[k],
                            ) && forall|j: int| 0 <= j < k ==> reply_parses(#[trigger] rs[j]),
                    }
                } else {
                    r is Ok && final(self).last_page && final(self).queue@.len() == 0
                },
                None => r is Ok && final(self).last_page && final(self).queue@.len() == 0,
            },
    {
        self.pages = self.pages + 1;
        self.sub_pages = 0;
        match page_replies(data) {
            Some(items) => {
                let ghost rs = items_view(items@);
                proof {
                    lemma_items_view(items@);
                }
                assert(or_null(data).at("replies"@).array_of() == Some(rs));
                let parsed = parse_page(items);
                match parsed {
                    Ok(v) => {
                        self.queue = v;
                        assert(page_read(self.queue@, rs));
                        assert(comments_read(*self) =~= comments_read(*old(self)) + self.queue@);
                        match next_reply_offset(data) {
                            Some(o) => {
                                self.cursor = Some(o);
                                self.last_page = false;
                            },
                            None => {
                                self.cursor = None;
                                self.last_page = true;
                            },
                        }
                        Ok(())
                    },
                    Err(e) => {
                        self.last_page = true;
                        assert(exists|k: int|
                            0 <= k < rs.len() && !reply_parses(#[trigger] rs[k]) && e == parse_error(
                                rs[k],
                            ) && forall|j: int| 0 <= j < k ==> reply_parses(#[trigger] rs[j]));
                        Err(e)
                    },
                }
            },
            None => {
                self.last_page = true;
                assert(self.queue@.len() == 0);
                Ok(())
            },
        }
    }

    /// Takes the `data` of the page of replies just fetched for the current
    /// comment: they are added to its replies, in order; a page without
    /// replies completes the comment.
    pub fn take_sub_page(&mut self, data: Option<&Json>) -> (r: Result<(), FeedError>)
        requires
            paging_wf(*old(self)),
            settled(*old(self)),
            step_due(*old(self)) == 1,
        ensures
            paging_wf(*final(self)),
            final(self).pages == old(self).pages,
            final(self).max_pages == old(self).max_pages,
            final(self).max_sub_pages == old(self).max_sub_pages,
            final(self).cursor == old(self).cursor,
            final(self).last_page == old(self).last_page,
            final(self).queue == old(self).queue,
            match or_null(data).at("replies"@).array_of() {
                Some(rs) => if rs.len() > 0 {
                    match r {
                        Ok(_) => final(self).done == old(self).done && final(self).sub_pages
                            == old(self).sub_pages + 1 && final(self).current is Some && sub_replies_added(
                            final(self).current->0,
                            old(self).current->0,
                            rs,
                        ),
                        Err(e) => exists|k: int|
                            0 <= k < rs.len() && !reply_parses(#[trigger] rs[k]) && e == parse_error(
                                rs[k],
                            ) && forall|j: int| 0 <= j < k ==> reply_parses(#[trigger] rs[j]),
                    }
                } else {
                    r is Ok && final(self).current is None && final(self).done@ == old(self).done@
                        + opt_seq(old(self).current)
                },
                None => r is Ok && final(self).current is None && final(self).done@ == old(self).done@
                    + opt_seq(old(self).current),
            },
    {
        match page_replies(data) {
            Some(items) => {
                proof {
                    lemma_items_view(items@);
                }
                match parse_page(items) {
                    Ok(mut v) => {
                        let ghost v0 = v@;
                        let mut c = self.current.take().unwrap();
                        let ghost o = c;
                        c.sub_replies.append(&mut v);
                        proof {
                            assert(c.sub_replies@.take(o.sub_replies@.len() as int) =~= o.sub_replies@);
                            assert(c.sub_replies@.skip(o.sub_replies@.len() as int) =~= v0);
                        }
                        self.current = Some(c);
                        self.sub_pages = self.sub_pages + 1;
                        Ok(())
                    },
                    Err(e) => Err(e),
                }
            },
            None => {
                let ghost od = self.done@;
                let ghost oc = self.current;
                let c = self.current.take().unwrap();
                self.done.push(c);
                self.sub_pages = 0;
                proof {
                    assert(self.done@ =~= od + opt_seq(oc));
                }
                Ok(())
            },
        }
    }
}

} // verus!
