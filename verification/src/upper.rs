//! An uploader's account: the profile snapshot assembled from three API
//! answers.

use vstd::prelude::*;
use crate::dynamic::{params_view, push_param};
use crate::json::{as_i64, member, or_null, str_or, string_or, Json, JsonV};

verus! {

/// A snapshot of an uploader's account.
#[derive(Debug, Clone, PartialEq)]
pub struct UpperProfile {
    pub name: String,
    pub sign: String,
    pub face: String,
    pub fan_count: i64,
    pub follow_count: i64,
    pub video_count: i64,
    pub view_count: i64,
    pub like_count: i64,
}

/// The account API for one uploader.
pub struct UpperInfo {
    pub upper_id: String,
}

/// An integer member, 0 when it is not an integer.
pub open spec fn count_or_zero(v: JsonV) -> i64 {
    match v.i64_of() {
        Some(x) => x,
        None => 0,
    }
}

fn read_count(v: Option<&Json>) -> (r: i64)
    ensures
        r == count_or_zero(or_null(v)),
{
    match as_i64(v) {
        Some(x) => x,
        None => 0,
    }
}

/// The profile that the card, upstat and arc-search answers give.
pub open spec fn profile_matches(p: UpperProfile, card: JsonV, upstat: JsonV, arc_search: JsonV) -> bool {
    let c = card.at("data"@).at("card"@);
    &&& p.name@ == str_or(c.at("name"@), ""@)
    &&& p.sign@ == str_or(c.at("sign"@), ""@)
    &&& p.face@ == str_or(c.at("face"@), ""@)
    &&& p.fan_count == count_or_zero(c.at("fans"@))
    &&& p.follow_count == count_or_zero(c.at("attention"@))
    &&& p.video_count == count_or_zero(arc_search.at("data"@).at("page"@).at("count"@))
    &&& p.view_count == count_or_zero(upstat.at("data"@).at("archive"@).at("view"@))
    &&& p.like_count == count_or_zero(upstat.at("data"@).at("likes"@))
}

impl UpperInfo {
    pub fn new(upper_id: String) -> (r: Self)
        ensures
            r.upper_id == upper_id,
    {
        UpperInfo { upper_id }
    }

    /// Assembles the profile: name, sign, face, fans and followings from
    /// the card; views and likes from upstat; the video count from arc search.
    pub fn profile_from(card: &Json, upstat: &Json, arc_search: &Json) -> (r: UpperProfile)
        ensures
            profile_matches(r, card@, upstat@, arc_search@),
    {
        let c = member(member(Some(card), "data"), "card");
        let up = member(Some(upstat), "data");
        UpperProfile {
            name: string_or(member(c, "name"), ""),
            sign: string_or(member(c, "sign"), ""),
            face: string_or(member(c, "face"), ""),
            fan_count: read_count(member(c, "fans")),
            follow_count: read_count(member(c, "attention")),
            video_count: read_count(
                member(member(member(Some(arc_search), "data"), "page"), "count"),
            ),
            view_count: read_count(member(member(up, "archive"), "view")),
            like_count: read_count(member(up, "likes")),
        }
    }

    /// The query of the card and upstat requests.
    pub fn mid_query(&self) -> (r: Vec<(String, String)>)
        ensures
            params_view(r@) == seq![("mid"@, self.upper_id@)],
    {
        let mut ps: Vec<(String, String)> = Vec::new();
        push_param(&mut ps, "mid", self.upper_id.as_str());
        proof {
            assert(params_view(ps@) =~= seq![("mid"@, self.upper_id@)]);
        }
        ps
    }

    /// The query of the arc-search request: one video on the first page.
    pub fn arc_search_query(&self) -> (r: Vec<(String, String)>)
        ensures
            params_view(r@) == seq![
                ("mid"@, self.upper_id@),
                ("ps"@, "1"@),
                ("pn"@, "1"@),
                ("platform"@, "web"@),
                ("web_location"@, "1550101"@),
            ],
    {
        let mut ps: Vec<(String, String)> = Vec::new();
        push_param(&mut ps, "mid", self.upper_id.as_str());
        push_param(&mut ps, "ps", "1");
        push_param(&mut ps, "pn", "1");
        push_param(&mut ps, "platform", "web");
        push_param(&mut ps, "web_location", "1550101");
        proof {
            assert(params_view(ps@) =~= seq![
                ("mid"@, self.upper_id@),
                ("ps"@, "1"@),
                ("pn"@, "1"@),
                ("platform"@, "web"@),
                ("web_location"@, "1550101"@),
            ]);
        }
        ps
    }
}

} // verus!
