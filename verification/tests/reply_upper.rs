use bili_sync::error::{BiliError, FeedError};
use bili_sync::json::{member, Json};
use bili_sync::reply::{next_reply_offset, page_replies, parse_page, parse_reply, PagingStep, Reply, ReplyPaging};
use bili_sync::upper::{UpperInfo, UpperProfile};

fn s(x: &str) -> Json {
    Json::Str(x.to_string())
}

fn obj(entries: Vec<(&str, Json)>) -> Json {
    Json::Object(entries.into_iter().map(|(k, v)| (k.to_string(), v)).collect())
}

fn p(a: &str, b: &str) -> (String, String) {
    (a.to_string(), b.to_string())
}

fn comment(rpid: Json, ctime: Json) -> Json {
    obj(vec![
        ("rpid", rpid),
        ("parent", Json::Int(0)),
        ("replied_comment", obj(vec![("rpid", Json::Int(5))])),
        ("member", obj(vec![("uname", s("u"))])),
        (
            "content",
            obj(vec![
                ("message", s("hi")),
                (
                    "pictures",
                    Json::Array(vec![
                        obj(vec![("img_src", s("http://p/1.jpg"))]),
                        obj(vec![("img_url", s("https://p/2.jpg"))]),
                        obj(vec![]),
                    ]),
                ),
            ]),
        ),
        ("ctime", ctime),
    ])
}

#[test]
fn parse_comment() {
    let c = comment(Json::Int(10), Json::Int(1700000000));
    let info = parse_reply(&c).unwrap();
    assert_eq!(info.rpid, 10);
    assert_eq!(info.parent_rpid, Some(5));
    assert_eq!(info.uname, "u");
    assert_eq!(info.avatar, "");
    assert_eq!(info.content, "hi");
    assert_eq!(info.images, vec!["https://p/1.jpg".to_string(), "https://p/2.jpg".to_string()]);
    assert_eq!(info.ctime, 1700000000);
    assert_eq!(info.raw, c);
    assert!(info.sub_replies.is_empty());
}

#[test]
fn parse_comment_parent_and_defaults() {
    let c = obj(vec![("rpid", Json::Int(1)), ("parent", Json::Int(7)), ("ctime", Json::Int(0))]);
    let info = parse_reply(&c).unwrap();
    assert_eq!(info.parent_rpid, Some(7));
    assert_eq!(info.uname, "未知用户");
    assert!(info.images.is_empty());
    let top = obj(vec![("rpid", Json::Int(1)), ("parent", Json::Int(0)), ("ctime", Json::Int(0))]);
    assert_eq!(parse_reply(&top).unwrap().parent_rpid, None);
}

#[test]
fn parse_comment_errors() {
    assert_eq!(parse_reply(&comment(s("10"), Json::Int(0))), Err(FeedError::InvalidRpid));
    assert_eq!(parse_reply(&comment(Json::Int(10), s("0"))), Err(FeedError::InvalidCtime));
    assert_eq!(parse_reply(&comment(Json::Int(10), Json::Int(i64::MIN))), Err(FeedError::InvalidCtime));
}

fn cursor(next: Option<Json>) -> Json {
    let mut pr = vec![];
    if let Some(n) = next {
        pr.push(("next_offset", n));
    }
    obj(vec![("cursor", obj(vec![("pagination_reply", obj(pr))]))])
}

#[test]
fn next_offset_of_comment_pages() {
    assert_eq!(next_reply_offset(Some(&cursor(None))), None);
    assert_eq!(next_reply_offset(Some(&cursor(Some(Json::Null)))), None);
    assert_eq!(next_reply_offset(Some(&cursor(Some(s(""))))), None);
    assert_eq!(next_reply_offset(Some(&cursor(Some(s("abc"))))), Some(s("abc")));
    assert_eq!(next_reply_offset(Some(&cursor(Some(Json::Int(3))))), Some(Json::Int(3)));
    assert_eq!(next_reply_offset(None), None);
}

#[test]
fn comment_pages_stop_when_empty() {
    let data = obj(vec![("replies", Json::Array(vec![]))]);
    assert!(page_replies(Some(&data)).is_none());
    let data = obj(vec![("replies", Json::Null)]);
    assert!(page_replies(Some(&data)).is_none());
    let data = obj(vec![("replies", Json::Array(vec![Json::Int(1), Json::Int(2)]))]);
    assert_eq!(page_replies(member(Some(&data), "missing")), None);
    assert_eq!(page_replies(Some(&data)).unwrap().len(), 2);
}

#[test]
fn comment_queries() {
    let _api = Reply::new();
    assert_eq!(
        Reply::main_query(11, "456", None),
        vec![p("type", "11"), p("oid", "456"), p("mode", "3"), p("pagination_str", "{\"offset\":\"\"}")]
    );
    let q = Reply::main_query(17, "9", Some("{\"offset\":\"abc\"}"));
    assert_eq!(q.len(), 5);
    assert_eq!(q[4], p("pagination_str", "{\"offset\":\"abc\"}"));
    assert_eq!(
        Reply::sub_query(-1, "9", 123, 3),
        vec![p("type", "-1"), p("oid", "9"), p("root", "123"), p("ps", "20"), p("pn", "3")]
    );
}

#[test]
fn profile_from_three_answers() {
    let card = obj(vec![(
        "data",
        obj(vec![(
            "card",
            obj(vec![
                ("name", s("名字")),
                ("sign", s("签名")),
                ("face", s("https://f")),
                ("fans", Json::Int(100)),
                ("attention", Json::Int(7)),
            ]),
        )]),
    )]);
    let upstat = obj(vec![(
        "data",
        obj(vec![("archive", obj(vec![("view", Json::Int(5000))])), ("likes", Json::Int(300))]),
    )]);
    let arc = obj(vec![("data", obj(vec![("page", obj(vec![("count", Json::Int(42))]))]))]);
    let profile = UpperInfo::profile_from(&card, &upstat, &arc);
    assert_eq!(
        profile,
        UpperProfile {
            name: "名字".to_string(),
            sign: "签名".to_string(),
            face: "https://f".to_string(),
            fan_count: 100,
            follow_count: 7,
            video_count: 42,
            view_count: 5000,
            like_count: 300,
        }
    );
    let empty = UpperInfo::profile_from(&Json::Null, &Json::Null, &Json::Null);
    assert_eq!(empty.name, "");
    assert_eq!(empty.fan_count, 0);
    assert_eq!(empty.like_count, 0);
}

#[test]
fn upper_queries() {
    let u = UpperInfo::new("42".to_string());
    assert_eq!(u.mid_query(), vec![p("mid", "42")]);
    assert_eq!(
        u.arc_search_query(),
        vec![p("mid", "42"), p("ps", "1"), p("pn", "1"), p("platform", "web"), p("web_location", "1550101")]
    );
}

#[test]
fn error_classification() {
    let err = |code: i64, msg: Option<&str>| BiliError::ErrorResponse {
        code,
        message: msg.map(|m| m.to_string()),
        response: String::new(),
    };
    assert!(BiliError::RiskControlOccurred(String::new()).is_risk_control_related());
    assert!(BiliError::VideoStreamsEmpty.is_risk_control_related());
    assert!(BiliError::InvalidStatusCode(412, "Precondition Failed").is_risk_control_related());
    assert!(!BiliError::InvalidResponse(String::new()).is_risk_control_related());
    assert!(!err(-412, None).is_risk_control_related());
    assert!(err(-503, Some("服务暂不可用")).is_common_error());
    assert!(err(-504, Some("服务调用超时")).is_common_error());
    assert!(!err(-503, Some("服务调用超时")).is_common_error());
    assert!(!err(-503, None).is_common_error());
    assert!(!BiliError::VideoStreamsEmpty.is_common_error());
    assert!(err(-404, None).is_video_not_found());
    assert!(err(62012, Some("稿件不存在")).is_video_not_found());
    // 62002 "not visible" is not a deletion
    assert!(!err(62002, None).is_video_not_found());
    assert!(!BiliError::InvalidResponse(String::new()).is_video_not_found());
}

fn page(ids: &[i64], next: Json) -> Json {
    obj(vec![
        ("replies", Json::Array(ids.iter().map(|i| comment(Json::Int(*i), Json::Int(1700000000))).collect())),
        ("cursor", obj(vec![("pagination_reply", obj(vec![("next_offset", next)]))])),
    ])
}

#[test]
fn comment_paging_reads_pages_and_replies_in_order() {
    let mut paging = ReplyPaging::start(2, 2);
    assert_eq!(paging.next_step(), PagingStep::Main(None));
    paging.take_main_page(Some(&page(&[1, 2], s("c1")))).unwrap();
    // comment 1: one page of replies, then an empty one
    assert_eq!(paging.next_step(), PagingStep::Sub(1, 1));
    paging.take_sub_page(Some(&page(&[11, 12], Json::Null))).unwrap();
    assert_eq!(paging.next_step(), PagingStep::Sub(1, 2));
    paging.take_sub_page(Some(&obj(vec![("replies", Json::Array(vec![]))]))).unwrap();
    // comment 2: stops at the reply page limit
    assert_eq!(paging.next_step(), PagingStep::Sub(2, 1));
    paging.take_sub_page(Some(&page(&[21], Json::Null))).unwrap();
    assert_eq!(paging.next_step(), PagingStep::Sub(2, 2));
    paging.take_sub_page(Some(&page(&[22], Json::Null))).unwrap();
    assert_eq!(paging.next_step(), PagingStep::Main(Some(s("c1"))));
    paging.take_main_page(Some(&page(&[3], s("c2")))).unwrap();
    assert_eq!(paging.next_step(), PagingStep::Sub(3, 1));
    paging.take_sub_page(None).unwrap();
    // the page limit ends the reading although a cursor is left
    assert_eq!(paging.next_step(), PagingStep::Finished);
    assert_eq!(paging.pages, 2);
    let ids: Vec<i64> = paging.done.iter().map(|c| c.rpid).collect();
    assert_eq!(ids, vec![1, 2, 3]);
    let subs: Vec<Vec<i64>> = paging.done.iter().map(|c| c.sub_replies.iter().map(|r| r.rpid).collect()).collect();
    assert_eq!(subs, vec![vec![11, 12], vec![21, 22], vec![]]);
}

#[test]
fn comment_paging_stops_and_fails() {
    let mut paging = ReplyPaging::start(50, 0);
    assert_eq!(paging.next_step(), PagingStep::Main(None));
    paging.take_main_page(Some(&page(&[1], s("")))).unwrap();
    assert_eq!(paging.next_step(), PagingStep::Finished);
    assert_eq!(paging.done.len(), 1);
    let mut paging = ReplyPaging::start(50, 10);
    paging.next_step();
    paging.take_main_page(None).unwrap();
    assert_eq!(paging.next_step(), PagingStep::Finished);
    let mut paging = ReplyPaging::start(50, 10);
    paging.next_step();
    let bad = obj(vec![("replies", Json::Array(vec![comment(Json::Int(1), Json::Int(0)), comment(s("x"), Json::Int(0))]))]);
    assert_eq!(paging.take_main_page(Some(&bad)), Err(FeedError::InvalidRpid));
    let bad_time = Json::Array(vec![comment(Json::Int(1), Json::Int(i64::MAX))]);
    let Json::Array(items) = bad_time else { unreachable!() };
    assert_eq!(parse_page(&items), Err(FeedError::InvalidCtime));
}
