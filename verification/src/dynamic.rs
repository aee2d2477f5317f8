//! Space dynamics of an uploader: reading feed items into [`DynamicInfo`],
//! rendering their text and collecting their pictures.

use vstd::prelude::*;
use crate::error::FeedError;
use crate::json::{
    as_array, as_bool, as_i64, items_view, lemma_items_view, as_str, copy_or_null, is_null, lemma_at_decreases, member, opt_str_view, or_null, str_or,
    string_or, Json, JsonV,
};
use crate::time::{check_instant, checked_instant};
use crate::text::{
    parse_i64, parse_i64_spec, chars_of, has_prefix, push_chars, push_str, starts_with, str_eq, string_from_chars, trim,
    trimmed,
};

verus! {

/// `url` with a leading `http://` replaced by `https://`.
pub open spec fn normalized_url(url: Seq<char>) -> Seq<char> {
    if has_prefix(url, "http://"@) {
        "https://"@ + url.skip(7)
    } else {
        url
    }
}

/// Replaces a leading `http://` by `https://`.
pub fn normalize_url(url: &str) -> (r: String)
    ensures
        r@ == normalized_url(url@),
{
    if starts_with(url, "http://") {
        let v = chars_of(url);
        let mut out: Vec<char> = Vec::new();
        push_str(&mut out, "https://");
        let n = v.len();
        let ghost head = out@;
        proof {
            reveal_strlit("http://");
        }
        for k in 7..n
            invariant
                n == v@.len(),
                7 <= n,
                out@ == head + v@.subrange(7, k as int),
        {
            out.push(v[k]);
            proof {
                assert(v@.subrange(7, k + 1) =~= v@.subrange(7, k as int).push(v@[k as int]));
            }
        }
        proof {
            assert(v@.subrange(7, n as int) =~= url@.skip(7));
        }
        string_from_chars(&out)
    } else {
        url.to_owned()
    }
}

/// The views of a list of strings.
pub open spec fn strings_view(v: Seq<String>) -> Seq<Seq<char>> {
    v.map_values(|s: String| s@)
}

/// Lines joined by `\n`, leaving out empty ones
/// (`parts.filter(|s| !s.is_empty()).join("\n")`).
pub open spec fn join_nonempty(parts: Seq<Seq<char>>) -> Seq<char>
    decreases parts.len(),
{
    if parts.len() == 0 {
        Seq::empty()
    } else if parts.last().len() == 0 {
        join_nonempty(parts.drop_last())
    } else if join_nonempty(parts.drop_last()).len() == 0 {
        parts.last()
    } else {
        join_nonempty(parts.drop_last()) + seq!['\n'] + parts.last()
    }
}

/// A string member trimmed, as a one-element list, or nothing when the
/// member is not a string.
pub open spec fn trimmed_part(v: JsonV) -> Seq<Seq<char>> {
    match v.str_of() {
        Some(s) => seq![trimmed(s)],
        None => Seq::empty(),
    }
}

/// A string member trimmed, when it is a string whose trimmed text is not empty.
pub open spec fn nonblank_part(v: JsonV) -> Seq<Seq<char>> {
    match v.str_of() {
        Some(s) => if trimmed(s).len() > 0 {
            seq![trimmed(s)]
        } else {
            Seq::empty()
        },
        None => Seq::empty(),
    }
}

/// The text lines that the `major` card of a dynamic contributes.
pub open spec fn major_parts(major: JsonV) -> Seq<Seq<char>> {
    let ty = major.at("type"@).str_of();
    if ty == Some("MAJOR_TYPE_OPUS"@) {
        trimmed_part(major.at("opus"@).at("title"@)) + trimmed_part(
            major.at("opus"@).at("summary"@).at("text"@),
        )
    } else if ty == Some("MAJOR_TYPE_DRAW"@) {
        trimmed_part(major.at("draw"@).at("text"@))
    } else if ty == Some("MAJOR_TYPE_ARCHIVE"@) {
        let archive = major.at("archive"@);
        let desc_part = match archive.at("desc"@).str_of() {
            Some(d) => if trimmed(d).len() > 0 && trimmed(d) != "-"@ {
                seq![trimmed(d)]
            } else {
                Seq::empty()
            },
            None => Seq::empty(),
        };
        let link_part = match archive.at("bvid"@).str_of() {
            Some(b) => seq!["视频链接: https://www.bilibili.com/video/"@ + b],
            None => Seq::empty(),
        };
        trimmed_part(archive.at("title"@)) + desc_part + link_part
    } else if ty == Some("MAJOR_TYPE_ARTICLE"@) {
        trimmed_part(major.at("article"@).at("title"@)) + trimmed_part(
            major.at("article"@).at("desc"@),
        )
    } else {
        Seq::empty()
    }
}

/// The text lines of a dynamic's `module_dynamic`; a forwarded dynamic
/// ends with the rendered content of the dynamic it forwards.
pub open spec fn module_parts(m: JsonV, dyn_type: Seq<char>) -> Seq<Seq<char>>
    decreases m, 0nat,
{
    let base = nonblank_part(m.at("desc"@).at("text"@)) + nonblank_part(m.at("desc"@))
        + major_parts(m.at("major"@));
    let origin = m.at("origin"@);
    if dyn_type == "DYNAMIC_TYPE_FORWARD"@ && origin is Object && origin.at("type"@).str_of() is Some
        && has_prefix(origin.at("type"@).str_of()->0, "DYNAMIC_TYPE_"@) {
        let origin_type = origin.at("type"@).str_of()->0;
        let upper_name = str_or(
            origin.at("modules"@).at("module_author"@).at("name"@),
            "未知用户"@,
        );
        let md = origin.at("modules"@).at("module_dynamic"@);
        let content = if md is Null {
            Seq::empty()
        } else {
            proof {
                lemma_at_decreases(m, "origin"@);
                lemma_at_decreases(origin, "modules"@);
                lemma_at_decreases(origin.at("modules"@), "module_dynamic"@);
            }
            module_text(md, origin_type)
        };
        let jump = match origin.at("id_str"@).str_of() {
            Some(id) => "\n原动态链接: https://www.bilibili.com/opus/"@ + id,
            None => Seq::empty(),
        };
        base.push("---- 转发自 @"@ + upper_name + " ----\n"@ + content + jump)
    } else {
        base
    }
}

/// The plain text of a dynamic's `module_dynamic`.
pub open spec fn module_text(m: JsonV, dyn_type: Seq<char>) -> Seq<char>
    decreases m, 1nat,
{
    join_nonempty(module_parts(m, dyn_type))
}


/// The views of a list of character lists.
pub open spec fn lines_view(v: Seq<Vec<char>>) -> Seq<Seq<char>> {
    v.map_values(|x: Vec<char>| x@)
}

fn push_line(parts: &mut Vec<Vec<char>>, line: Vec<char>)
    ensures
        lines_view(final(parts)@) == lines_view(old(parts)@).push(line@),
{
    parts.push(line);
    proof {
        assert(lines_view(parts@) =~= lines_view(old(parts)@).push(line@));
    }
}

/// Appends `trimmed_part(v)`.
fn push_trimmed(parts: &mut Vec<Vec<char>>, v: Option<&Json>)
    ensures
        lines_view(final(parts)@) == lines_view(old(parts)@) + trimmed_part(or_null(v)),
{
    match as_str(v) {
        Some(s) => {
            let t = trim(s);
            push_line(parts, t);
            proof {
                assert(lines_view(parts@) =~= lines_view(old(parts)@) + trimmed_part(or_null(v)));
            }
        },
        None => {
            proof {
                assert(lines_view(parts@) =~= lines_view(old(parts)@) + trimmed_part(or_null(v)));
            }
        },
    }
}

/// Appends `nonblank_part(v)`.
fn push_nonblank(parts: &mut Vec<Vec<char>>, v: Option<&Json>)
    ensures
        lines_view(final(parts)@) == lines_view(old(parts)@) + nonblank_part(or_null(v)),
{
    match as_str(v) {
        Some(s) => {
            let t = trim(s);
            if t.len() > 0 {
                push_line(parts, t);
            }
            proof {
                assert(lines_view(parts@) =~= lines_view(old(parts)@) + nonblank_part(or_null(v)));
            }
        },
        None => {
            proof {
                assert(lines_view(parts@) =~= lines_view(old(parts)@) + nonblank_part(or_null(v)));
            }
        },
    }
}

fn is_dash(t: &Vec<char>) -> (r: bool)
    ensures
        r == (t@ == "-"@),
{
    proof {
        reveal_strlit("-");
    }
    if t.len() == 1 && t[0] == '-' {
        proof {
            assert(t@ =~= "-"@);
        }
        true
    } else {
        false
    }
}

/// Appends `major_parts(major)`.
fn push_major_parts(parts: &mut Vec<Vec<char>>, major: Option<&Json>)
    ensures
        lines_view(final(parts)@) == lines_view(old(parts)@) + major_parts(or_null(major)),
{
    let ghost m = or_null(major);
    let ty = as_str(member(major, "type"));
    let ghost start = lines_view(parts@);
    let is_ty = |name: &str| -> (b: bool)
        ensures
            b == (opt_str_view(ty) == Some(name@)),
        {
            match ty {
                Some(t) => str_eq(t, name),
                None => false,
            }
        };
    if is_ty("MAJOR_TYPE_OPUS") {
        let opus = member(major, "opus");
        push_trimmed(parts, member(opus, "title"));
        push_trimmed(parts, member(member(opus, "summary"), "text"));
        proof {
            assert(lines_view(parts@) =~= start + major_parts(m));
        }
    } else if is_ty("MAJOR_TYPE_DRAW") {
        push_trimmed(parts, member(member(major, "draw"), "text"));
    } else if is_ty("MAJOR_TYPE_ARCHIVE") {
        let archive = member(major, "archive");
        push_trimmed(parts, member(archive, "title"));
        let ghost after_title = lines_view(parts@);
        match as_str(member(archive, "desc")) {
            Some(d) => {
                let t = trim(d);
                if t.len() > 0 && !is_dash(&t) {
                    push_line(parts, t);
                }
            },
            None => {},
        }
        let ghost after_desc = lines_view(parts@);
        match as_str(member(archive, "bvid")) {
            Some(b) => {
                let mut line: Vec<char> = Vec::new();
                push_str(&mut line, "视频链接: https://www.bilibili.com/video/");
                push_str(&mut line, b);
                push_line(parts, line);
            },
            None => {},
        }
        proof {
            let a = m.at("archive"@);
            let desc_part = match a.at("desc"@).str_of() {
                Some(d) => if trimmed(d).len() > 0 && trimmed(d) != "-"@ {
                    seq![trimmed(d)]
                } else {
                    Seq::empty()
                },
                None => Seq::empty(),
            };
            let link_part = match a.at("bvid"@).str_of() {
                Some(b) => seq!["视频链接: https://www.bilibili.com/video/"@ + b],
                None => Seq::empty(),
            };
            assert(after_desc =~= after_title + desc_part);
            assert(lines_view(parts@) =~= after_desc + link_part);
            assert(lines_view(parts@) =~= start + major_parts(m));
        }
    } else if is_ty("MAJOR_TYPE_ARTICLE") {
        let article = member(major, "article");
        push_trimmed(parts, member(article, "title"));
        push_trimmed(parts, member(article, "desc"));
        proof {
            assert(lines_view(parts@) =~= start + major_parts(m));
        }
    } else {
        proof {
            assert(lines_view(parts@) =~= start + major_parts(m));
        }
    }
}

/// `parts.filter(|s| !s.is_empty()).join("\n")`
fn join_parts(parts: &Vec<Vec<char>>) -> (r: Vec<char>)
    ensures
        r@ == join_nonempty(lines_view(parts@)),
{
    let mut out: Vec<char> = Vec::new();
    let n = parts.len();
    proof {
        assert(lines_view(parts@).take(0) =~= Seq::<Seq<char>>::empty());
    }
    for i in 0..n
        invariant
            n == parts@.len(),
            out@ == join_nonempty(lines_view(parts@).take(i as int)),
    {
        let ghost prev = lines_view(parts@).take(i as int);
        proof {
            assert(lines_view(parts@).take(i + 1).drop_last() =~= prev);
            assert(lines_view(parts@).take(i + 1).last() == parts@[i as int]@);
        }
        if parts[i].len() > 0 {
            if out.len() > 0 {
                out.push('\n');
            }
            push_chars(&mut out, &parts[i]);
        }
    }
    proof {
        assert(lines_view(parts@).take(n as int) =~= lines_view(parts@));
    }
    out
}

/// Renders a dynamic's `module_dynamic` as plain text; a forwarded
/// dynamic carries the content of the dynamic it forwards.
pub fn render_module_dynamic(modules: &Json, dyn_type: &str) -> (r: String)
    ensures
        r@ == module_text(modules@, dyn_type@),
    decreases *modules,
{
    let m = Some(modules);
    let mut parts: Vec<Vec<char>> = Vec::new();
    let desc = member(m, "desc");
    push_nonblank(&mut parts, member(desc, "text"));
    push_nonblank(&mut parts, desc);
    push_major_parts(&mut parts, member(m, "major"));
    let ghost base = lines_view(parts@);
    proof {
        assert(base =~= nonblank_part(modules@.at("desc"@).at("text"@)) + nonblank_part(
            modules@.at("desc"@),
        ) + major_parts(modules@.at("major"@)));
    }
    if str_eq(dyn_type, "DYNAMIC_TYPE_FORWARD") {
        let origin = member(m, "origin");
        if let Some(Json::Object(_)) = origin {
            if let Some(origin_type) = as_str(member(origin, "type")) {
                if starts_with(origin_type, "DYNAMIC_TYPE_") {
                    let origin_modules = member(origin, "modules");
                    let upper_name = string_or(
                        member(member(origin_modules, "module_author"), "name"),
                        "未知用户",
                    );
                    let md = member(origin_modules, "module_dynamic");
                    let content: String = match md {
                        Some(x) => {
                            if is_null(md) {
                                String::new()
                            } else {
                                render_module_dynamic(x, origin_type)
                            }
                        },
                        None => String::new(),
                    };
                    let mut line: Vec<char> = Vec::new();
                    push_str(&mut line, "---- 转发自 @");
                    push_str(&mut line, upper_name.as_str());
                    push_str(&mut line, " ----\n");
                    push_str(&mut line, content.as_str());
                    let ghost head = line@;
                    let ghost jump = match modules@.at("origin"@).at("id_str"@).str_of() {
                        Some(id) => "\n原动态链接: https://www.bilibili.com/opus/"@ + id,
                        None => Seq::empty(),
                    };
                    match as_str(member(origin, "id_str")) {
                        Some(id) => {
                            push_str(&mut line, "\n原动态链接: https://www.bilibili.com/opus/");
                            push_str(&mut line, id);
                        },
                        None => {},
                    }
                    proof {
                        assert(line@ =~= head + jump);
                        assert(head =~= "---- 转发自 @"@ + upper_name@ + " ----\n"@ + content@);
                    }
                    push_line(&mut parts, line);
                    proof {
                        let o = modules@.at("origin"@);
                        assert(o is Object);
                        assert(o.at("type"@).str_of() == Some(origin_type@));
                        let mdv = o.at("modules"@).at("module_dynamic"@);
                        assert(or_null(md) == mdv);
                        let cs = if mdv is Null {
                            Seq::empty()
                        } else {
                            module_text(mdv, origin_type@)
                        };
                        assert(content@ == cs);
                        assert(lines_view(parts@) =~= module_parts(modules@, dyn_type@));
                    }
                }
            }
        }
    }
    proof {
        assert(lines_view(parts@) =~= module_parts(modules@, dyn_type@));
    }
    let text = join_parts(&parts);
    string_from_chars(&text)
}


/// Picture URLs of an opus card: each item's `url`, else its `src`.
pub open spec fn opus_pic_urls(items: Seq<JsonV>) -> Seq<Seq<char>>
    decreases items.len(),
{
    if items.len() == 0 {
        Seq::empty()
    } else {
        let prev = opus_pic_urls(items.drop_last());
        let it = items.last();
        match it.at("url"@).str_of() {
            Some(u) => prev.push(normalized_url(u)),
            None => match it.at("src"@).str_of() {
                Some(u) => prev.push(normalized_url(u)),
                None => prev,
            },
        }
    }
}

/// Picture URLs of a draw card: each item's `src`.
pub open spec fn draw_pic_urls(items: Seq<JsonV>) -> Seq<Seq<char>>
    decreases items.len(),
{
    if items.len() == 0 {
        Seq::empty()
    } else {
        let prev = draw_pic_urls(items.drop_last());
        match items.last().at("src"@).str_of() {
            Some(u) => prev.push(normalized_url(u)),
            None => prev,
        }
    }
}

/// The picture URLs of a dynamic's `module_dynamic`, `http` made `https`.
pub open spec fn pics_of(m: JsonV) -> Seq<Seq<char>> {
    let major = m.at("major"@);
    let ty = major.at("type"@).str_of();
    if ty == Some("MAJOR_TYPE_OPUS"@) {
        match major.at("opus"@).at("pics"@).array_of() {
            Some(items) => opus_pic_urls(items),
            None => Seq::empty(),
        }
    } else if ty == Some("MAJOR_TYPE_DRAW"@) {
        match major.at("draw"@).at("items"@).array_of() {
            Some(items) => draw_pic_urls(items),
            None => Seq::empty(),
        }
    } else {
        Seq::empty()
    }
}

fn push_string(out: &mut Vec<String>, s: String)
    ensures
        strings_view(final(out)@) == strings_view(old(out)@).push(s@),
{
    out.push(s);
    proof {
        assert(strings_view(out@) =~= strings_view(old(out)@).push(s@));
    }
}

fn collect_pic_urls(items: &Vec<Json>, opus: bool) -> (r: Vec<String>)
    ensures
        strings_view(r@) == if opus {
            opus_pic_urls(items_view(items@))
        } else {
            draw_pic_urls(items_view(items@))
        },
{
    let mut out: Vec<String> = Vec::new();
    let n = items.len();
    proof {
        lemma_items_view(items@);
        assert(items_view(items@).take(0) =~= Seq::<JsonV>::empty());
    }
    for i in 0..n
        invariant
            n == items@.len(),
            items_view(items@).len() == n,
            forall|k: int| 0 <= k < n ==> #[trigger] items_view(items@)[k] == items@[k]@,
            strings_view(out@) == if opus {
                opus_pic_urls(items_view(items@).take(i as int))
            } else {
                draw_pic_urls(items_view(items@).take(i as int))
            },
    {
        let ghost prev = items_view(items@).take(i as int);
        proof {
            assert(items_view(items@).take(i + 1).drop_last() =~= prev);
            assert(items_view(items@).take(i + 1).last() == items@[i as int]@);
        }
        let it = Some(&items[i]);
        let url = if opus {
            match as_str(member(it, "url")) {
                Some(u) => Some(u),
                None => as_str(member(it, "src")),
            }
        } else {
            as_str(member(it, "src"))
        };
        if let Some(u) = url {
            push_string(&mut out, normalize_url(u));
        }
    }
    proof {
        assert(items_view(items@).take(n as int) =~= items_view(items@));
    }
    out
}

/// The picture URLs of a dynamic's `module_dynamic`, `http` made `https`.
pub fn extract_pics(modules: &Json) -> (r: Vec<String>)
    ensures
        strings_view(r@) == pics_of(modules@),
{
    let major = member(Some(modules), "major");
    let ty = as_str(member(major, "type"));
    let is_opus = match ty {
        Some(t) => str_eq(t, "MAJOR_TYPE_OPUS"),
        None => false,
    };
    let is_draw = match ty {
        Some(t) => str_eq(t, "MAJOR_TYPE_DRAW"),
        None => false,
    };
    if is_opus {
        match as_array(member(member(major, "opus"), "pics")) {
            Some(items) => collect_pic_urls(items, true),
            None => Vec::new(),
        }
    } else if is_draw {
        match as_array(member(member(major, "draw"), "items")) {
            Some(items) => collect_pic_urls(items, false),
            None => Vec::new(),
        }
    } else {
        let r: Vec<String> = Vec::new();
        proof {
            assert(strings_view(r@) =~= Seq::<Seq<char>>::empty());
        }
        r
    }
}

/// The publish time of a feed item, as its `pub_ts` reads: an integer, or
/// else a string holding an integer, accepted when an instant can hold it.
pub open spec fn instant_of(v: JsonV) -> Option<i64> {
    checked_instant(
        match v.i64_of() {
            Some(t) => Some(t),
            None => match v.str_of() {
                Some(s) => parse_i64_spec(s),
                None => None,
            },
        },
    )
}

/// Reads a publish time (`as_i64`, else `as_str` parsed, then checked).
pub fn read_instant(v: Option<&Json>) -> (r: Option<i64>)
    ensures
        r == instant_of(or_null(v)),
{
    let secs = match as_i64(v) {
        Some(t) => Some(t),
        None => match as_str(v) {
            Some(s) => parse_i64(s),
            None => None,
        },
    };
    check_instant(secs)
}

/// One dynamic with everything it holds.
#[derive(Debug, PartialEq)]
pub struct DynamicInfo {
    /// The dynamic's id (`id_str`).
    pub id: String,
    /// Its kind, such as `DYNAMIC_TYPE_AV` or `DYNAMIC_TYPE_FORWARD`.
    pub dyn_type: String,
    /// The rendered text, forwarded content included.
    pub content: String,
    /// Picture URLs, `http` made `https`.
    pub pics: Vec<String>,
    /// Like, comment and forward counts (`module_stat`).
    pub stat: Json,
    /// Publish time, seconds since the Unix epoch.
    pub pub_ts: i64,
    /// Comment area type (`basic.comment_type`), -1 when absent.
    pub comment_type: i64,
    /// Comment area id (`basic.rid_str`), empty when absent.
    pub comment_oid: String,
    /// Where it was published from, empty when absent.
    pub location: String,
    /// The item as the API returned it.
    pub raw: Json,
}

/// The feed items that become a [`DynamicInfo`]: a string `type` starting
/// with `DYNAMIC_TYPE_`, and a string `id_str`. Others (such as ad cards)
/// are skipped.
pub open spec fn is_dynamic_item(item: JsonV) -> bool {
    &&& item.at("type"@).str_of() is Some
    &&& has_prefix(item.at("type"@).str_of()->0, "DYNAMIC_TYPE_"@)
    &&& item.at("id_str"@).str_of() is Some
}

/// The publish time of a feed item.
pub open spec fn item_instant(item: JsonV) -> Option<i64> {
    instant_of(item.at("modules"@).at("module_author"@).at("pub_ts"@))
}

/// The fields of a [`DynamicInfo`] read from an accepted feed item.
pub open spec fn info_matches(info: DynamicInfo, item: JsonV) -> bool {
    let dyn_type = item.at("type"@).str_of()->0;
    let md = item.at("modules"@).at("module_dynamic"@);
    &&& info.id@ == item.at("id_str"@).str_of()->0
    &&& info.dyn_type@ == dyn_type
    &&& Some(info.pub_ts) == item_instant(item)
    &&& info.content@ == module_text(md, dyn_type)
    &&& strings_view(info.pics@) == pics_of(md)
    &&& info.stat@ == item.at("modules"@).at("module_stat"@)
    &&& info.comment_type == match item.at("basic"@).at("comment_type"@).i64_of() {
        Some(t) => t,
        None => -1i64,
    }
    &&& info.comment_oid@ == str_or(item.at("basic"@).at("rid_str"@), ""@)
    &&& info.location@ == str_or(
        item.at("modules"@).at("module_author"@).at("pub_location_text"@),
        ""@,
    )
    &&& info.raw@ == item
}

/// Reads one feed item: `Ok(None)` for an item that is not a dynamic,
/// an error for a dynamic whose publish time cannot be read.
pub fn parse_dynamic_info(item: &Json) -> (r: Result<Option<DynamicInfo>, FeedError>)
    ensures
        match r {
            Ok(None) => !is_dynamic_item(item@),
            Ok(Some(info)) => is_dynamic_item(item@) && info_matches(info, item@),
            Err(e) => is_dynamic_item(item@) && item_instant(item@) is None
                && e is InvalidTimestamp,
        },
{
    let it = Some(item);
    let dyn_type = match as_str(member(it, "type")) {
        Some(t) => t,
        None => return Ok(None),
    };
    if !starts_with(dyn_type, "DYNAMIC_TYPE_") {
        return Ok(None);
    }
    let id = match as_str(member(it, "id_str")) {
        Some(id) => id.to_owned(),
        None => return Ok(None),
    };
    let modules = member(it, "modules");
    let author = member(modules, "module_author");
    let pub_ts = match read_instant(member(author, "pub_ts")) {
        Some(t) => t,
        None => return Err(FeedError::InvalidTimestamp),
    };
    let md = member(modules, "module_dynamic");
    let (content, pics) = match md {
        Some(m) => (render_module_dynamic(m, dyn_type), extract_pics(m)),
        None => {
            let null = Json::Null;
            (render_module_dynamic(&null, dyn_type), extract_pics(&null))
        },
    };
    let stat = copy_or_null(member(modules, "module_stat"));
    let basic = member(it, "basic");
    let comment_type = match as_i64(member(basic, "comment_type")) {
        Some(t) => t,
        None => -1,
    };
    let comment_oid = string_or(member(basic, "rid_str"), "");
    let location = string_or(member(author, "pub_location_text"), "");
    Ok(
        Some(
            DynamicInfo {
                id,
                dyn_type: dyn_type.to_owned(),
                content,
                pics,
                stat,
                pub_ts,
                comment_type,
                comment_oid,
                location,
                raw: item.deep_copy(),
            },
        ),
    )
}


/// A query parameter, `(name, value)`.
pub open spec fn param_view(p: (String, String)) -> (Seq<char>, Seq<char>) {
    (p.0@, p.1@)
}

/// The views of a list of query parameters.
pub open spec fn params_view(ps: Seq<(String, String)>) -> Seq<(Seq<char>, Seq<char>)> {
    ps.map_values(|p: (String, String)| param_view(p))
}

/// A query parameter.
pub fn param(name: &str, value: &str) -> (r: (String, String))
    ensures
        param_view(r) == (name@, value@),
{
    (name.to_owned(), value.to_owned())
}

/// Appends a query parameter.
pub fn push_param(ps: &mut Vec<(String, String)>, name: &str, value: &str)
    ensures
        params_view(final(ps)@) == params_view(old(ps)@).push((name@, value@)),
{
    ps.push(param(name, value));
    proof {
        assert(params_view(ps@) =~= params_view(old(ps)@).push((name@, value@)));
    }
}

/// The text of an optional offset, empty for none.
pub open spec fn offset_text(offset: Option<String>) -> Seq<char> {
    match offset {
        Some(o) => o@,
        None => ""@,
    }
}

/// The features the full feed asks for.
pub open spec fn feed_features() -> Seq<char> {
    "itemOpusStyle,listOnlyfans,opusBigCover,onlyfansVote,forwardListHidden,decorationCard,commentsNewVersion,onlyfansAssetsV2,ugcDelete,onlyfansQaCard"@
}

/// An uploader's video dynamics (`feed/space` with `type=video`).
pub struct Dynamic {
    pub upper_id: String,
}

impl Dynamic {
    pub fn new(upper_id: String) -> (r: Self)
        ensures
            r.upper_id == upper_id,
    {
        Dynamic { upper_id }
    }

    /// The query of one page of the video feed.
    pub fn query_params(&self, offset: Option<String>) -> (r: Vec<(String, String)>)
        ensures
            params_view(r@) == seq![
                ("host_mid"@, self.upper_id@),
                ("offset"@, offset_text(offset)),
                ("type"@, "video"@),
            ],
    {
        let mut ps: Vec<(String, String)> = Vec::new();
        push_param(&mut ps, "host_mid", self.upper_id.as_str());
        match &offset {
            Some(o) => push_param(&mut ps, "offset", o.as_str()),
            None => push_param(&mut ps, "offset", ""),
        }
        push_param(&mut ps, "type", "video");
        proof {
            assert(params_view(ps@) =~= seq![
                ("host_mid"@, self.upper_id@),
                ("offset"@, offset_text(offset)),
                ("type"@, "video"@),
            ]);
        }
        ps
    }
}

/// An uploader's dynamics of every kind (`feed/space` without `type`).
pub struct DynamicFeed {
    pub upper_id: String,
}

impl DynamicFeed {
    pub fn new(upper_id: String) -> (r: Self)
        ensures
            r.upper_id == upper_id,
    {
        DynamicFeed { upper_id }
    }

    /// The query of one page of the full feed.
    pub fn query_params(&self, offset: Option<String>) -> (r: Vec<(String, String)>)
        ensures
            params_view(r@) == seq![
                ("host_mid"@, self.upper_id@),
                ("offset"@, offset_text(offset)),
                ("features"@, feed_features()),
            ],
    {
        let mut ps: Vec<(String, String)> = Vec::new();
        push_param(&mut ps, "host_mid", self.upper_id.as_str());
        match &offset {
            Some(o) => push_param(&mut ps, "offset", o.as_str()),
            None => push_param(&mut ps, "offset", ""),
        }
        push_param(
            &mut ps,
            "features",
            "itemOpusStyle,listOnlyfans,opusBigCover,onlyfansVote,forwardListHidden,decorationCard,commentsNewVersion,onlyfansAssetsV2,ugcDelete,onlyfansQaCard",
        );
        proof {
            assert(params_view(ps@) =~= seq![
                ("host_mid"@, self.upper_id@),
                ("offset"@, offset_text(offset)),
                ("features"@, feed_features()),
            ]);
        }
        ps
    }
}

/// Where the feed goes after a page.
#[derive(Debug, PartialEq)]
pub enum PageNext {
    /// `has_more` is false: this was the last page.
    Last,
    /// The next page starts at this offset.
    More(String),
    /// `has_more` or `offset` is missing.
    Broken,
}

/// What one page of the feed holds.
#[derive(Debug, PartialEq)]
pub enum FeedPage<'a> {
    /// No items on the first page: the feed is empty.
    Finished,
    /// No items on a later page.
    Failed(FeedError),
    /// The page's items, then where the feed goes.
    Items(&'a Vec<Json>, PageNext),
}

/// The step after a page: `Last`, `More(offset)` or `Broken`.
pub open spec fn page_next_spec(data: JsonV) -> Option<Option<Seq<char>>> {
    match (data.at("has_more"@).bool_of(), data.at("offset"@).str_of()) {
        (Some(has_more), Some(off)) => if has_more {
            Some(Some(off))
        } else {
            Some(None)
        },
        _ => None,
    }
}

pub open spec fn page_next_matches(next: PageNext, data: JsonV) -> bool {
    match next {
        PageNext::Last => page_next_spec(data) == Some(None::<Seq<char>>),
        PageNext::More(o) => page_next_spec(data) == Some(Some(o@)),
        PageNext::Broken => page_next_spec(data) is None,
    }
}

/// Reads a feed page answered for `offset` (`None` for the first page).
pub fn feed_page<'a>(res: &'a Json, offset: &Option<String>) -> (r: FeedPage<'a>)
    ensures
        ({
            let data = res@.at("data"@);
            let items = data.at("items"@).array_of();
            let has_items = items is Some && items->0.len() > 0;
            match r {
                FeedPage::Items(v, next) => has_items && items_view(v@) == items->0
                    && page_next_matches(next, data),
                FeedPage::Finished => !has_items && offset is None,
                FeedPage::Failed(e) => !has_items && offset is Some && e
                    == FeedError::NoDynamicsAtOffset(offset->0),
            }
        }),
{
    let data = member(Some(res), "data");
    match as_array(member(data, "items")) {
        Some(items) => {
            if items.len() > 0 {
                let has_more = as_bool(member(data, "has_more"));
                let off = as_str(member(data, "offset"));
                let next = match (has_more, off) {
                    (Some(h), Some(o)) => if h {
                        PageNext::More(o.to_owned())
                    } else {
                        PageNext::Last
                    },
                    _ => PageNext::Broken,
                };
                return FeedPage::Items(items, next);
            }
        },
        None => {},
    }
    match offset {
        Some(o) => FeedPage::Failed(FeedError::NoDynamicsAtOffset(o.clone())),
        None => FeedPage::Finished,
    }
}

/// A video dynamic of the video feed: its publish time and its `archive` card.
pub fn video_item(item: &Json) -> (r: Result<Option<(i64, Json)>, FeedError>)
    ensures
        ({
            let is_av = item@.at("type"@).str_of() == Some("DYNAMIC_TYPE_AV"@);
            match r {
                Ok(None) => !is_av,
                Ok(Some((t, archive))) => is_av && item_instant(item@) == Some(t) && archive@
                    == item@.at("modules"@).at("module_dynamic"@).at("major"@).at("archive"@),
                Err(e) => is_av && item_instant(item@) is None && e is InvalidTimestamp,
            }
        }),
{
    let it = Some(item);
    let is_av = match as_str(member(it, "type")) {
        Some(t) => str_eq(t, "DYNAMIC_TYPE_AV"),
        None => false,
    };
    if !is_av {
        return Ok(None);
    }
    let modules = member(it, "modules");
    let t = match read_instant(member(member(modules, "module_author"), "pub_ts")) {
        Some(t) => t,
        None => return Err(FeedError::InvalidTimestamp),
    };
    let archive = copy_or_null(
        member(member(member(modules, "module_dynamic"), "major"), "archive"),
    );
    Ok(Some((t, archive)))
}

} // verus!
