//! Markdown exports of a dynamic and of its comments.

use vstd::prelude::*;
use crate::dynamic::DynamicInfo;
use crate::json::{as_i64, member, JsonV};
use crate::reply::ReplyInfo;
use crate::text::{
    i64_text, int_text, nat_text, push_chars, push_str, string_from_chars, usize_text,
    usize_text_pad2, zero_pad2,
};
use crate::time::{datetime_text, utc_format_text, utc_secs_representable, utc_secs_valid};

verus! {

/// The date-time text of an instant, `%Y-%m-%d %H:%M:%S`.
pub open spec fn time_text(secs: i64) -> Seq<char> {
    utc_format_text(secs, "%Y-%m-%d %H:%M:%S"@)
}

/// A `label{count}\n` line when the count is an integer.
pub open spec fn count_line(label: Seq<char>, count: Option<i64>) -> Seq<char> {
    match count {
        Some(c) => label + int_text(c as int) + "\n"@,
        None => Seq::empty(),
    }
}

/// The picture references of a dynamic with `n` pictures.
pub open spec fn pic_lines(n: nat) -> Seq<char>
    decreases n,
{
    if n == 0 {
        Seq::empty()
    } else {
        pic_lines((n - 1) as nat) + "![图片 "@ + nat_text((n - 1) as nat) + "](pics/"@ + zero_pad2(
            nat_text(n),
        ) + ".jpg)\n\n"@
    }
}

/// The markdown of a dynamic.
pub open spec fn dynamic_md(info: DynamicInfo, upper_name: Seq<char>) -> Seq<char> {
    let stat = info.stat@;
    "# "@ + upper_name + " 的动态\n\n"@ + "- 动态 id: "@ + info.id@ + "\n- 类型: "@ + info.dyn_type@
        + "\n- 发布时间: "@ + time_text(info.pub_ts) + "\n"@ + (if info.location@.len() > 0 {
        "- 发布位置: "@ + info.location@ + "\n"@
    } else {
        Seq::empty()
    }) + count_line("- 评论数: "@, stat.at("comment"@).at("count"@).i64_of()) + count_line(
        "- 点赞数: "@,
        stat.at("like"@).at("count"@).i64_of(),
    ) + count_line("- 转发数: "@, stat.at("forward"@).at("count"@).i64_of())
        + "\n- 原链接: https://www.bilibili.com/opus/"@ + info.id@ + "\n"@ + (if info.content@.len()
        > 0 {
        "\n## 正文\n\n"@ + info.content@ + "\n"@
    } else {
        Seq::empty()
    }) + (if info.pics@.len() > 0 {
        "\n## 图片\n\n"@ + pic_lines(info.pics@.len())
    } else {
        Seq::empty()
    })
}

fn push_count_line(out: &mut Vec<char>, label: &str, count: Option<i64>)
    ensures
        final(out)@ == old(out)@ + count_line(label@, count),
{
    match count {
        Some(c) => {
            push_str(out, label);
            push_chars(out, &i64_text(c));
            push_str(out, "\n");
            proof {
                assert(out@ =~= old(out)@ + count_line(label@, count));
            }
        },
        None => {
            proof {
                assert(out@ =~= old(out)@ + count_line(label@, count));
            }
        },
    }
}

/// Renders the markdown of a dynamic.
pub fn render_dynamic_md(info: &DynamicInfo, upper_name: &str) -> (r: String)
    requires
        utc_secs_representable(info.pub_ts),
    ensures
        r@ == dynamic_md(*info, upper_name@),
{
    let mut out: Vec<char> = Vec::new();
    push_str(&mut out, "# ");
    push_str(&mut out, upper_name);
    push_str(&mut out, " 的动态\n\n");
    push_str(&mut out, "- 动态 id: ");
    push_str(&mut out, info.id.as_str());
    push_str(&mut out, "\n- 类型: ");
    push_str(&mut out, info.dyn_type.as_str());
    push_str(&mut out, "\n- 发布时间: ");
    let t = datetime_text(info.pub_ts);
    push_str(&mut out, t.as_str());
    push_str(&mut out, "\n");
    let ghost head = out@;
    if !info.location.as_str().is_empty() {
        push_str(&mut out, "- 发布位置: ");
        push_str(&mut out, info.location.as_str());
        push_str(&mut out, "\n");
    }
    let ghost after_loc = out@;
    let stat = Some(&info.stat);
    push_count_line(&mut out, "- 评论数: ", as_i64(member(member(stat, "comment"), "count")));
    push_count_line(&mut out, "- 点赞数: ", as_i64(member(member(stat, "like"), "count")));
    push_count_line(&mut out, "- 转发数: ", as_i64(member(member(stat, "forward"), "count")));
    push_str(&mut out, "\n- 原链接: https://www.bilibili.com/opus/");
    push_str(&mut out, info.id.as_str());
    push_str(&mut out, "\n");
    let ghost after_link = out@;
    if !info.content.as_str().is_empty() {
        push_str(&mut out, "\n## 正文\n\n");
        push_str(&mut out, info.content.as_str());
        push_str(&mut out, "\n");
    }
    let ghost after_content = out@;
    let n = info.pics.len();
    if n > 0 {
        push_str(&mut out, "\n## 图片\n\n");
        let ghost start = out@;
        for i in 0..n
            invariant
                n == info.pics@.len(),
                out@ == start + pic_lines(i as nat),
        {
            push_str(&mut out, "![图片 ");
            push_chars(&mut out, &usize_text(i));
            push_str(&mut out, "](pics/");
            push_chars(&mut out, &usize_text_pad2(i + 1));
            push_str(&mut out, ".jpg)\n\n");
            proof {
                assert(out@ =~= start + pic_lines((i + 1) as nat));
            }
        }
    }
    proof {
        assert(head =~= "# "@ + upper_name@ + " 的动态\n\n"@ + "- 动态 id: "@ + info.id@
            + "\n- 类型: "@ + info.dyn_type@ + "\n- 发布时间: "@ + time_text(info.pub_ts) + "\n"@);
        assert(after_loc =~= head + (if info.location@.len() > 0 {
            "- 发布位置: "@ + info.location@ + "\n"@
        } else {
            Seq::empty()
        }));
        assert(after_content =~= after_link + (if info.content@.len() > 0 {
            "\n## 正文\n\n"@ + info.content@ + "\n"@
        } else {
            Seq::empty()
        }));
        assert(out@ =~= dynamic_md(*info, upper_name@));
    }
    string_from_chars(&out)
}


/// `"  ".repeat(depth)`
pub open spec fn indent_of(depth: nat) -> Seq<char> {
    Seq::new(2 * depth, |k: int| ' ')
}

/// `s` with every line break followed by `ind`.
pub open spec fn indent_lines(s: Seq<char>, ind: Seq<char>) -> Seq<char>
    decreases s.len(),
{
    if s.len() == 0 {
        Seq::empty()
    } else {
        indent_lines(s.drop_last(), ind) + if s.last() == '\n' {
            seq!['\n'] + ind
        } else {
            seq![s.last()]
        }
    }
}

/// The picture references of comment `rpid` with `n` pictures.
pub open spec fn image_lines(ind: Seq<char>, rpid: i64, n: nat) -> Seq<char>
    decreases n,
{
    if n == 0 {
        Seq::empty()
    } else {
        image_lines(ind, rpid, (n - 1) as nat) + ind + "![图片](comments/"@ + int_text(rpid as int)
            + "_"@ + nat_text(n) + ".jpg)\n\n"@
    }
}

/// The heading line of a comment: numbered at the top level, a list item
/// for a reply.
pub open spec fn comment_head(r: ReplyInfo, depth: nat, index: nat) -> Seq<char> {
    let ind = indent_of(depth);
    if depth == 0 {
        ind + "### 评论 "@ + nat_text(index) + "  @"@ + r.uname@ + "（"@ + time_text(r.ctime)
            + "）\n\n"@
    } else {
        ind + "- 回复 @"@ + r.uname@ + "（"@ + time_text(r.ctime) + "）\n"@
    }
}

/// A comment's own lines: heading, indented text and picture references.
pub open spec fn comment_own(r: ReplyInfo, depth: nat, index: nat) -> Seq<char> {
    let ind = indent_of(depth);
    comment_head(r, depth, index) + (if r.content@.len() > 0 {
        ind + indent_lines(r.content@, ind) + "\n\n"@
    } else {
        Seq::empty()
    }) + image_lines(ind, r.rpid, r.images@.len())
}

/// The markdown of a comment at nesting `depth`, numbered `index`, with
/// its replies below it.
pub open spec fn comment_md(r: ReplyInfo, depth: nat, index: nat) -> Seq<char>
    decreases r, 0nat,
{
    comment_own(r, depth, index) + comments_md(r.sub_replies@, depth + 1, r.sub_replies@.len())
}

/// The markdown of the first `k` comments of `rs`, numbered from 1.
pub open spec fn comments_md(rs: Seq<ReplyInfo>, depth: nat, k: nat) -> Seq<char>
    decreases rs, k,
{
    if k == 0 || k > rs.len() {
        Seq::empty()
    } else {
        comments_md(rs, depth, (k - 1) as nat) + comment_md(rs[k - 1], depth, k)
    }
}

/// A comment tree that can be rendered at nesting `depth`: every creation
/// time is an instant and every indentation fits in memory.
pub open spec fn renderable(r: ReplyInfo, depth: nat) -> bool
    decreases r, 0nat,
{
    &&& utc_secs_representable(r.ctime)
    &&& 2 * (depth + 1) <= usize::MAX
    &&& all_renderable(r.sub_replies@, depth + 1, r.sub_replies@.len())
}

/// The first `k` comments of `rs` can be rendered at nesting `depth`.
pub open spec fn all_renderable(rs: Seq<ReplyInfo>, depth: nat, k: nat) -> bool
    decreases rs, k,
{
    if k == 0 || k > rs.len() {
        true
    } else {
        all_renderable(rs, depth, (k - 1) as nat) && renderable(rs[k - 1], depth)
    }
}

proof fn lemma_all_renderable(rs: Seq<ReplyInfo>, depth: nat, k: nat, i: int)
    requires
        k <= rs.len(),
        all_renderable(rs, depth, k),
        0 <= i < k,
    ensures
        renderable(rs[i], depth),
    decreases k,
{
    if i < k - 1 {
        lemma_all_renderable(rs, depth, (k - 1) as nat, i);
    }
}

fn spaces(n: usize) -> (r: Vec<char>)
    ensures
        r@ == Seq::new(n as nat, |k: int| ' '),
{
    let mut v: Vec<char> = Vec::new();
    for i in 0..n
        invariant
            v@ == Seq::new(i as nat, |k: int| ' '),
    {
        v.push(' ');
        proof {
            assert(v@ =~= Seq::new((i + 1) as nat, |k: int| ' '));
        }
    }
    v
}

fn push_indented(out: &mut Vec<char>, s: &str, ind: &Vec<char>)
    ensures
        final(out)@ == old(out)@ + indent_lines(s@, ind@),
{
    let v = crate::text::chars_of(s);
    let n = v.len();
    let ghost start = out@;
    proof {
        assert(v@.take(0) =~= Seq::<char>::empty());
    }
    for i in 0..n
        invariant
            n == v@.len(),
            v@ == s@,
            out@ == start + indent_lines(v@.take(i as int), ind@),
    {
        proof {
            assert(v@.take(i + 1).drop_last() =~= v@.take(i as int));
            assert(v@.take(i + 1).last() == v@[i as int]);
        }
        if v[i] == '\n' {
            out.push('\n');
            push_chars(out, ind);
        } else {
            out.push(v[i]);
        }
        proof {
            assert(out@ =~= start + indent_lines(v@.take(i + 1), ind@));
        }
    }
    proof {
        assert(v@.take(n as int) =~= v@);
    }
}

fn push_head(out: &mut Vec<char>, reply: &ReplyInfo, ind: &Vec<char>, depth: usize, index: usize)
    requires
        utc_secs_representable(reply.ctime),
        ind@ == indent_of(depth as nat),
    ensures
        final(out)@ == old(out)@ + comment_head(*reply, depth as nat, index as nat),
{
    let ghost start = out@;
    let time = datetime_text(reply.ctime);
    if depth == 0 {
        push_chars(out, ind);
        push_str(out, "### 评论 ");
        push_chars(out, &usize_text(index));
        push_str(out, "  @");
        push_str(out, reply.uname.as_str());
        push_str(out, "（");
        push_str(out, time.as_str());
        push_str(out, "）\n\n");
    } else {
        push_chars(out, ind);
        push_str(out, "- 回复 @");
        push_str(out, reply.uname.as_str());
        push_str(out, "（");
        push_str(out, time.as_str());
        push_str(out, "）\n");
    }
    proof {
        assert(out@ =~= start + comment_head(*reply, depth as nat, index as nat));
    }
}

fn push_own(out: &mut Vec<char>, reply: &ReplyInfo, depth: usize, index: usize)
    requires
        utc_secs_representable(reply.ctime),
        2 * depth <= usize::MAX,
    ensures
        final(out)@ == old(out)@ + comment_own(*reply, depth as nat, index as nat),
{
    let ghost start = out@;
    let ind = spaces(2 * depth);
    proof {
        assert(ind@ =~= indent_of(depth as nat));
    }
    push_head(out, reply, &ind, depth, index);
    let ghost after_head = out@;
    if !reply.content.as_str().is_empty() {
        push_chars(out, &ind);
        push_indented(out, reply.content.as_str(), &ind);
        push_str(out, "\n\n");
    }
    let ghost after_body = out@;
    let n = reply.images.len();
    let rp = i64_text(reply.rpid);
    for i in 0..n
        invariant
            n == reply.images@.len(),
            ind@ == indent_of(depth as nat),
            rp@ == int_text(reply.rpid as int),
            out@ == after_body + image_lines(ind@, reply.rpid, i as nat),
    {
        push_chars(out, &ind);
        push_str(out, "![图片](comments/");
        push_chars(out, &rp);
        push_str(out, "_");
        push_chars(out, &usize_text(i + 1));
        push_str(out, ".jpg)\n\n");
        proof {
            assert(out@ =~= after_body + image_lines(ind@, reply.rpid, (i + 1) as nat));
        }
    }
    proof {
        assert(after_body =~= after_head + (if reply.content@.len() > 0 {
            ind@ + indent_lines(reply.content@, ind@) + "\n\n"@
        } else {
            Seq::empty()
        }));
        assert(out@ =~= start + comment_own(*reply, depth as nat, index as nat));
    }
}

fn render_comment_into(out: &mut Vec<char>, reply: &ReplyInfo, depth: usize, index: usize)
    requires
        renderable(*reply, depth as nat),
    ensures
        final(out)@ == old(out)@ + comment_md(*reply, depth as nat, index as nat),
    decreases *reply,
{
    let ghost start = out@;
    push_own(out, reply, depth, index);
    let ghost after_own = out@;
    let subs = &reply.sub_replies;
    let m = subs.len();
    for i in 0..m
        invariant
            m == subs@.len(),
            subs@ == reply.sub_replies@,
            all_renderable(subs@, (depth + 1) as nat, m as nat),
            2 * (depth + 1) <= usize::MAX,
            out@ == after_own + comments_md(subs@, (depth + 1) as nat, i as nat),
    {
        proof {
            lemma_all_renderable(subs@, (depth + 1) as nat, m as nat, i as int);
            assert(decreases_to!(*reply => reply.sub_replies));
            assert(decreases_to!(reply.sub_replies => reply.sub_replies@));
            assert(decreases_to!(reply.sub_replies@ => reply.sub_replies@[i as int]));
        }
        render_comment_into(out, &subs[i], depth + 1, i + 1);
    }
    proof {
        assert(out@ =~= start + comment_md(*reply, depth as nat, index as nat));
    }
}

/// Renders one comment, its replies below it.
pub fn render_comment(reply: &ReplyInfo, depth: usize, index: usize) -> (r: String)
    requires
        renderable(*reply, depth as nat),
    ensures
        r@ == comment_md(*reply, depth as nat, index as nat),
{
    let mut out: Vec<char> = Vec::new();
    render_comment_into(&mut out, reply, depth, index);
    proof {
        assert(out@ =~= comment_md(*reply, depth as nat, index as nat));
    }
    string_from_chars(&out)
}

/// The markdown of a comment area.
pub open spec fn comments_page_md(replies: Seq<ReplyInfo>) -> Seq<char> {
    "# 评论\n\n"@ + comments_md(replies, 0, replies.len())
}

/// Renders the markdown of a comment area, comments numbered from 1.
pub fn render_comments_md(replies: &[ReplyInfo]) -> (r: String)
    requires
        all_renderable(replies@, 0, replies@.len()),
    ensures
        r@ == comments_page_md(replies@),
{
    let mut out: Vec<char> = Vec::new();
    push_str(&mut out, "# 评论\n\n");
    let ghost start = out@;
    let n = replies.len();
    for i in 0..n
        invariant
            n == replies@.len(),
            all_renderable(replies@, 0, n as nat),
            out@ == start + comments_md(replies@, 0, i as nat),
    {
        proof {
            lemma_all_renderable(replies@, 0, n as nat, i as int);
        }
        render_comment_into(&mut out, &replies[i], 0, i + 1);
    }
    string_from_chars(&out)
}


/// Renders the markdown of a dynamic, or `None` when its publish time is
/// not an instant chrono can hold.
pub fn render_dynamic_md_checked(info: &DynamicInfo, upper_name: &str) -> (r: Option<String>)
    ensures
        match r {
            Some(t) => utc_secs_representable(info.pub_ts) && t@ == dynamic_md(*info, upper_name@),
            None => !utc_secs_representable(info.pub_ts),
        },
{
    if utc_secs_valid(info.pub_ts) {
        Some(render_dynamic_md(info, upper_name))
    } else {
        None
    }
}

fn check_renderable(r: &ReplyInfo, depth: usize) -> (b: bool)
    ensures
        b == renderable(*r, depth as nat),
    decreases *r,
{
    if !utc_secs_valid(r.ctime) {
        return false;
    }
    if depth > usize::MAX / 2 - 1 {
        return false;
    }
    let subs = &r.sub_replies;
    let n = subs.len();
    let mut i: usize = 0;
    while i < n
        invariant
            n == subs@.len(),
            subs@ == r.sub_replies@,
            i <= n,
            2 * (depth + 1) <= usize::MAX,
            all_renderable(subs@, (depth + 1) as nat, i as nat),
        decreases n - i,
    {
        proof {
            assert(decreases_to!(*r => r.sub_replies));
            assert(decreases_to!(r.sub_replies => r.sub_replies@));
            assert(decreases_to!(r.sub_replies@ => r.sub_replies@[i as int]));
        }
        if !check_renderable(&subs[i], depth + 1) {
            proof {
                if all_renderable(subs@, (depth + 1) as nat, n as nat) {
                    lemma_all_renderable_prefix(subs@, (depth + 1) as nat, n as nat, (i + 1) as nat);
                }
            }
            return false;
        }
        i = i + 1;
    }
    true
}

proof fn lemma_all_renderable_prefix(rs: Seq<ReplyInfo>, depth: nat, k: nat, j: nat)
    requires
        k <= rs.len(),
        j <= k,
        all_renderable(rs, depth, k),
    ensures
        all_renderable(rs, depth, j),
    decreases k,
{
    if j < k {
        lemma_all_renderable_prefix(rs, depth, (k - 1) as nat, j);
    }
}

fn check_all_renderable(rs: &[ReplyInfo]) -> (b: bool)
    ensures
        b == all_renderable(rs@, 0, rs@.len()),
{
    let n = rs.len();
    let mut i: usize = 0;
    while i < n
        invariant
            n == rs@.len(),
            i <= n,
            all_renderable(rs@, 0, i as nat),
        decreases n - i,
    {
        if !check_renderable(&rs[i], 0) {
            proof {
                if all_renderable(rs@, 0, n as nat) {
                    lemma_all_renderable_prefix(rs@, 0, n as nat, (i + 1) as nat);
                }
            }
            return false;
        }
        i = i + 1;
    }
    true
}

/// Renders the markdown of a comment area, or `None` when a creation time
/// is not an instant chrono can hold (or the replies nest too deep to indent).
pub fn render_comments_md_checked(replies: &[ReplyInfo]) -> (r: Option<String>)
    ensures
        match r {
            Some(t) => all_renderable(replies@, 0, replies@.len()) && t@ == comments_page_md(
                replies@,
            ),
            None => !all_renderable(replies@, 0, replies@.len()),
        },
{
    if check_all_renderable(replies) {
        Some(render_comments_md(replies))
    } else {
        None
    }
}

} // verus!
