//! The account-statistics page of a dynamic source, and the files a
//! dynamic's directory may serve.

use vstd::prelude::*;
use crate::text::{chars_of, contains, has_infix, has_prefix, starts_with, str_eq, string_from_chars};

verus! {

/// A recorded account snapshot, as the statistics page reads it.
#[derive(Debug, Clone, PartialEq)]
pub struct StatRow {
    /// When it was recorded, seconds since the Unix epoch.
    pub recorded_at: i64,
    pub name: String,
    pub sign: String,
    pub face: String,
    pub fan_count: i64,
    pub follow_count: i64,
    pub video_count: i64,
    pub dynamic_video_count: i64,
    pub view_count: i64,
    pub like_count: i64,
}

/// A point of the statistics chart.
#[derive(Debug, Clone, PartialEq)]
pub struct StatPoint {
    pub recorded_at: i64,
    pub fan_count: i64,
    pub follow_count: i64,
    pub video_count: i64,
    pub dynamic_video_count: i64,
    pub view_count: i64,
    pub like_count: i64,
}

/// A span of time during which the name, sign and face stayed the same.
#[derive(Debug, Clone, PartialEq)]
pub struct UpperVersion {
    pub name: String,
    pub sign: String,
    pub face: String,
    pub start_at: i64,
    /// The last snapshot of the span, when there is more than one.
    pub end_at: Option<i64>,
}

/// The mathematical value of an [`UpperVersion`].
pub struct VersionV {
    pub name: Seq<char>,
    pub sign: Seq<char>,
    pub face: Seq<char>,
    pub start_at: i64,
    pub end_at: Option<i64>,
}

pub open spec fn version_view(v: UpperVersion) -> VersionV {
    VersionV { name: v.name@, sign: v.sign@, face: v.face@, start_at: v.start_at, end_at: v.end_at }
}

pub open spec fn versions_view(s: Seq<UpperVersion>) -> Seq<VersionV> {
    s.map_values(|v: UpperVersion| version_view(v))
}

/// The chart point of a snapshot.
pub open spec fn point_matches(p: StatPoint, s: StatRow) -> bool {
    &&& p.recorded_at == s.recorded_at
    &&& p.fan_count == s.fan_count
    &&& p.follow_count == s.follow_count
    &&& p.video_count == s.video_count
    &&& p.dynamic_video_count == s.dynamic_video_count
    &&& p.view_count == s.view_count
    &&& p.like_count == s.like_count
}

/// The chart of the snapshots, one point each.
pub fn stat_points(rows: &Vec<StatRow>) -> (r: Vec<StatPoint>)
    ensures
        r@.len() == rows@.len(),
        forall|k: int| 0 <= k < r@.len() ==> point_matches(#[trigger] r@[k], rows@[k]),
{
    let mut out: Vec<StatPoint> = Vec::new();
    let n = rows.len();
    for i in 0..n
        invariant
            n == rows@.len(),
            out@.len() == i,
            forall|k: int| 0 <= k < i ==> point_matches(#[trigger] out@[k], rows@[k]),
    {
        let s = &rows[i];
        out.push(
            StatPoint {
                recorded_at: s.recorded_at,
                fan_count: s.fan_count,
                follow_count: s.follow_count,
                video_count: s.video_count,
                dynamic_video_count: s.dynamic_video_count,
                view_count: s.view_count,
                like_count: s.like_count,
            },
        );
    }
    out
}

/// The name, sign and face of a version are those of a snapshot.
pub open spec fn same_identity(v: VersionV, s: StatRow) -> bool {
    v.name == s.name@ && v.sign == s.sign@ && v.face == s.face@
}

/// The name/sign/face history of the snapshots (oldest first): a snapshot
/// identical to the current version extends it, any other one starts a
/// new version.
pub open spec fn versions_of(rows: Seq<StatRow>) -> Seq<VersionV>
    decreases rows.len(),
{
    if rows.len() == 0 {
        Seq::empty()
    } else {
        let prev = versions_of(rows.drop_last());
        let s = rows.last();
        if prev.len() > 0 && same_identity(prev.last(), s) {
            prev.update(prev.len() - 1, VersionV { end_at: Some(s.recorded_at), ..prev.last() })
        } else {
            prev.push(
                VersionV {
                    name: s.name@,
                    sign: s.sign@,
                    face: s.face@,
                    start_at: s.recorded_at,
                    end_at: None,
                },
            )
        }
    }
}

/// Builds the name/sign/face history of the snapshots (oldest first).
pub fn version_history(rows: &Vec<StatRow>) -> (r: Vec<UpperVersion>)
    ensures
        versions_view(r@) == versions_of(rows@),
{
    let mut versions: Vec<UpperVersion> = Vec::new();
    let n = rows.len();
    proof {
        assert(rows@.take(0) =~= Seq::<StatRow>::empty());
        assert(versions_view(versions@) =~= Seq::<VersionV>::empty());
    }
    for i in 0..n
        invariant
            n == rows@.len(),
            versions_view(versions@) == versions_of(rows@.take(i as int)),
    {
        let ghost prev = versions_of(rows@.take(i as int));
        proof {
            assert(rows@.take(i + 1).drop_last() =~= rows@.take(i as int));
            assert(rows@.take(i + 1).last() == rows@[i as int]);
        }
        let s = &rows[i];
        let len = versions.len();
        let extend = len > 0 && versions[len - 1].name == s.name && versions[len - 1].sign == s.sign
            && versions[len - 1].face == s.face;
        proof {
            if len > 0 {
                assert(prev.last() == version_view(versions@[len - 1]));
            }
        }
        if extend {
            let last = versions.pop().unwrap();
            let ghost before = versions@;
            versions.push(
                UpperVersion {
                    name: last.name,
                    sign: last.sign,
                    face: last.face,
                    start_at: last.start_at,
                    end_at: Some(s.recorded_at),
                },
            );
            proof {
                assert(versions_view(versions@) =~= prev.update(
                    prev.len() - 1,
                    VersionV { end_at: Some(s.recorded_at), ..prev.last() },
                ));
            }
        } else {
            let ghost before = versions@;
            versions.push(
                UpperVersion {
                    name: s.name.clone(),
                    sign: s.sign.clone(),
                    face: s.face.clone(),
                    start_at: s.recorded_at,
                    end_at: None,
                },
            );
            proof {
                assert(versions_view(versions@) =~= prev.push(
                    VersionV {
                        name: s.name@,
                        sign: s.sign@,
                        face: s.face@,
                        start_at: s.recorded_at,
                        end_at: None,
                    },
                ));
            }
        }
    }
    proof {
        assert(rows@.take(n as int) =~= rows@);
    }
    versions
}

/// The first hundred characters of a dynamic's text, for the list page.
pub fn content_preview(content: &str) -> (r: String)
    ensures
        r@ == if content@.len() <= 100 {
            content@
        } else {
            content@.take(100)
        },
{
    let v = chars_of(content);
    let mut out: Vec<char> = Vec::new();
    let n: usize = if v.len() <= 100 {
        v.len()
    } else {
        100
    };
    for i in 0..n
        invariant
            n <= v@.len(),
            out@ == v@.take(i as int),
    {
        out.push(v[i]);
        proof {
            assert(v@.take(i + 1) =~= v@.take(i as int).push(v@[i as int]));
        }
    }
    proof {
        assert(v@.take(v@.len() as int) =~= v@);
    }
    string_from_chars(&out)
}

/// An extension of the pictures a dynamic's directory holds.
pub open spec fn image_extension(ext: Option<Seq<char>>) -> bool {
    match ext {
        Some(e) => e == "jpg"@ || e == "jpeg"@ || e == "png"@ || e == "gif"@ || e == "webp"@,
        None => false,
    }
}

/// A file of a dynamic's directory may be served when it is a picture
/// under `pics/` or `comments/` and its name holds no `..`.
pub open spec fn file_name_allowed(name: Seq<char>) -> bool {
    &&& has_prefix(name, "pics/"@) || has_prefix(name, "comments/"@)
    &&& !has_infix(name, ".."@)
    &&& image_extension(path_extension(name))
}

pub fn is_file_name_allowed(name: &str) -> (r: bool)
    ensures
        r == file_name_allowed(name@),
{
    if !((starts_with(name, "pics/") || starts_with(name, "comments/")) && !contains(name, "..")) {
        return false;
    }
    match file_extension(name) {
        Some(e) => {
            let e = e.as_str();
            str_eq(e, "jpg") || str_eq(e, "jpeg") || str_eq(e, "png") || str_eq(e, "gif") || str_eq(e, "webp")
        },
        None => false,
    }
}

/// The extension of a path as `std::path::Path::extension` reads it.
pub uninterp spec fn path_extension(path: Seq<char>) -> Option<Seq<char>>;

/// `Path::new(path).extension()`, as text; a path given as text has a
/// text extension.
#[verifier::external_body]
pub(crate) fn file_extension(path: &str) -> (r: Option<String>)
    ensures
        match r {
            Some(e) => path_extension(path@) == Some(e@),
            None => path_extension(path@) is None,
        },
{
    std::path::Path::new(path).extension().and_then(|e| e.to_str()).map(|e| e.to_owned())
}

/// The content type served for a file extension.
pub open spec fn mime_of(ext: Option<Seq<char>>) -> Seq<char> {
    match ext {
        Some(e) => if e == "jpg"@ || e == "jpeg"@ {
            "image/jpeg"@
        } else if e == "png"@ {
            "image/png"@
        } else if e == "gif"@ {
            "image/gif"@
        } else if e == "webp"@ {
            "image/webp"@
        } else if e == "json"@ {
            "application/json"@
        } else if e == "md"@ {
            "text/markdown; charset=utf-8"@
        } else {
            "application/octet-stream"@
        },
        None => "application/octet-stream"@,
    }
}

pub fn mime_for_extension(ext: Option<&str>) -> (r: &'static str)
    ensures
        r@ == mime_of(match ext {
            Some(e) => Some(e@),
            None => None,
        }),
{
    match ext {
        Some(e) => if str_eq(e, "jpg") || str_eq(e, "jpeg") {
            "image/jpeg"
        } else if str_eq(e, "png") {
            "image/png"
        } else if str_eq(e, "gif") {
            "image/gif"
        } else if str_eq(e, "webp") {
            "image/webp"
        } else if str_eq(e, "json") {
            "application/json"
        } else if str_eq(e, "md") {
            "text/markdown; charset=utf-8"
        } else {
            "application/octet-stream"
        },
        None => "application/octet-stream",
    }
}

/// The content type served for a file, by the extension of its path.
pub fn mime_for_file(path: &str) -> (r: &'static str)
    ensures
        r@ == mime_of(path_extension(path@)),
{
    match file_extension(path) {
        Some(e) => mime_for_extension(Some(e.as_str())),
        None => mime_for_extension(None),
    }
}

} // verus!
