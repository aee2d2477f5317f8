use bili_sync::dynamic::{
    extract_pics, feed_page, normalize_url, parse_dynamic_info, render_module_dynamic, video_item, Dynamic,
    DynamicFeed, FeedPage, PageNext,
};
use bili_sync::error::FeedError;
use bili_sync::json::Json;

fn s(x: &str) -> Json {
    Json::Str(x.to_string())
}

fn obj(entries: Vec<(&str, Json)>) -> Json {
    Json::Object(entries.into_iter().map(|(k, v)| (k.to_string(), v)).collect())
}

fn pairs(v: Vec<(String, String)>) -> Vec<(String, String)> {
    v
}

fn p(a: &str, b: &str) -> (String, String) {
    (a.to_string(), b.to_string())
}

#[test]
fn normalize_url_upgrades_http() {
    assert_eq!(normalize_url("http://i0.hdslb.com/a.jpg"), "https://i0.hdslb.com/a.jpg");
    assert_eq!(normalize_url("https://i0.hdslb.com/a.jpg"), "https://i0.hdslb.com/a.jpg");
    assert_eq!(normalize_url("ftp://x"), "ftp://x");
    assert_eq!(normalize_url("http:/"), "http:/");
}

#[test]
fn normalizing_twice_changes_nothing() {
    for u in ["http://a", "https://a", "http://", "x"] {
        let once = normalize_url(u);
        assert_eq!(normalize_url(&once), once);
        assert!(!once.starts_with("http://"));
    }
}

#[test]
fn render_archive_card() {
    let modules = obj(vec![
        ("desc", obj(vec![("text", s("  hello  "))])),
        (
            "major",
            obj(vec![
                ("type", s("MAJOR_TYPE_ARCHIVE")),
                ("archive", obj(vec![("title", s(" T ")), ("desc", s(" - ")), ("bvid", s("BV1xx"))])),
            ]),
        ),
    ]);
    assert_eq!(
        render_module_dynamic(&modules, "DYNAMIC_TYPE_AV"),
        "hello\nT\n视频链接: https://www.bilibili.com/video/BV1xx"
    );
}

#[test]
fn render_desc_as_plain_string_and_article() {
    let modules = obj(vec![
        ("desc", s(" plain ")),
        (
            "major",
            obj(vec![
                ("type", s("MAJOR_TYPE_ARTICLE")),
                ("article", obj(vec![("title", s("标题")), ("desc", s("  "))])),
            ]),
        ),
    ]);
    assert_eq!(render_module_dynamic(&modules, "DYNAMIC_TYPE_ARTICLE"), "plain\n标题");
}

#[test]
fn render_opus_skips_empty_parts() {
    let modules = obj(vec![(
        "major",
        obj(vec![
            ("type", s("MAJOR_TYPE_OPUS")),
            ("opus", obj(vec![("title", s("")), ("summary", obj(vec![("text", s(" s "))]))])),
        ]),
    )]);
    assert_eq!(render_module_dynamic(&modules, "DYNAMIC_TYPE_DRAW"), "s");
    assert_eq!(render_module_dynamic(&Json::Null, "DYNAMIC_TYPE_FORWARD"), "");
}

#[test]
fn render_forward_appends_origin() {
    let origin = obj(vec![
        ("type", s("DYNAMIC_TYPE_DRAW")),
        ("id_str", s("99")),
        (
            "modules",
            obj(vec![
                ("module_author", obj(vec![("name", s("up"))])),
                (
                    "module_dynamic",
                    obj(vec![(
                        "major",
                        obj(vec![("type", s("MAJOR_TYPE_DRAW")), ("draw", obj(vec![("text", s("pic text"))]))]),
                    )]),
                ),
            ]),
        ),
    ]);
    let modules = obj(vec![("desc", obj(vec![("text", s("fw"))])), ("origin", origin)]);
    assert_eq!(
        render_module_dynamic(&modules, "DYNAMIC_TYPE_FORWARD"),
        "fw\n---- 转发自 @up ----\npic text\n原动态链接: https://www.bilibili.com/opus/99"
    );
    // not a forward: the origin is ignored
    assert_eq!(render_module_dynamic(&modules, "DYNAMIC_TYPE_WORD"), "fw");
}

#[test]
fn render_forward_with_bare_origin() {
    let modules = obj(vec![
        ("desc", obj(vec![("text", s("fw"))])),
        ("origin", obj(vec![("type", s("DYNAMIC_TYPE_WORD"))])),
    ]);
    assert_eq!(render_module_dynamic(&modules, "DYNAMIC_TYPE_FORWARD"), "fw\n---- 转发自 @未知用户 ----\n");
    let not_dynamic = obj(vec![("origin", obj(vec![("type", s("AD"))]))]);
    assert_eq!(render_module_dynamic(&not_dynamic, "DYNAMIC_TYPE_FORWARD"), "");
}

#[test]
fn render_nested_forward() {
    let inner = obj(vec![
        ("type", s("DYNAMIC_TYPE_WORD")),
        ("modules", obj(vec![("module_dynamic", obj(vec![("desc", obj(vec![("text", s("root"))]))]))])),
    ]);
    let middle = obj(vec![
        ("type", s("DYNAMIC_TYPE_FORWARD")),
        ("modules", obj(vec![("module_dynamic", obj(vec![("origin", inner)]))])),
    ]);
    let modules = obj(vec![("origin", middle)]);
    assert_eq!(
        render_module_dynamic(&modules, "DYNAMIC_TYPE_FORWARD"),
        "---- 转发自 @未知用户 ----\n---- 转发自 @未知用户 ----\nroot"
    );
}

#[test]
fn extract_opus_and_draw_pictures() {
    let opus = obj(vec![(
        "major",
        obj(vec![
            ("type", s("MAJOR_TYPE_OPUS")),
            (
                "opus",
                obj(vec![(
                    "pics",
                    Json::Array(vec![
                        obj(vec![("url", s("http://i0/a.jpg"))]),
                        obj(vec![("src", s("https://i0/b.jpg"))]),
                        obj(vec![("width", Json::Int(1))]),
                    ]),
                )]),
            ),
        ]),
    )]);
    assert_eq!(extract_pics(&opus), vec!["https://i0/a.jpg".to_string(), "https://i0/b.jpg".to_string()]);
    let draw = obj(vec![(
        "major",
        obj(vec![
            ("type", s("MAJOR_TYPE_DRAW")),
            (
                "draw",
                obj(vec![(
                    "items",
                    Json::Array(vec![obj(vec![("src", s("http://d/1.png"))]), obj(vec![("url", s("http://d/2.png"))])]),
                )]),
            ),
        ]),
    )]);
    assert_eq!(extract_pics(&draw), vec!["https://d/1.png".to_string()]);
    assert!(extract_pics(&Json::Null).is_empty());
}

fn feed_item(pub_ts: Json) -> Json {
    obj(vec![
        ("type", s("DYNAMIC_TYPE_DRAW")),
        ("id_str", s("123")),
        (
            "modules",
            obj(vec![
                ("module_author", obj(vec![("pub_ts", pub_ts), ("pub_location_text", s("江苏"))])),
                (
                    "module_dynamic",
                    obj(vec![
                        ("desc", obj(vec![("text", s("hello"))])),
                        (
                            "major",
                            obj(vec![
                                ("type", s("MAJOR_TYPE_DRAW")),
                                ("draw", obj(vec![("items", Json::Array(vec![obj(vec![("src", s("http://x/1.jpg"))])]))])),
                            ]),
                        ),
                    ]),
                ),
                ("module_stat", obj(vec![("comment", obj(vec![("count", Json::Int(3))]))])),
            ]),
        ),
        ("basic", obj(vec![("comment_type", Json::Int(11)), ("rid_str", s("456"))])),
    ])
}

#[test]
fn parse_full_dynamic() {
    let item = feed_item(Json::Int(1700000000));
    let info = parse_dynamic_info(&item).unwrap().unwrap();
    assert_eq!(info.id, "123");
    assert_eq!(info.dyn_type, "DYNAMIC_TYPE_DRAW");
    assert_eq!(info.content, "hello");
    assert_eq!(info.pics, vec!["https://x/1.jpg".to_string()]);
    assert_eq!(info.stat, obj(vec![("comment", obj(vec![("count", Json::Int(3))]))]));
    assert_eq!(info.pub_ts, 1700000000);
    assert_eq!(info.comment_type, 11);
    assert_eq!(info.comment_oid, "456");
    assert_eq!(info.location, "江苏");
    assert_eq!(info.raw, item);
}

#[test]
fn parse_dynamic_defaults() {
    let item = obj(vec![("type", s("DYNAMIC_TYPE_WORD")), ("id_str", s("1")), (
        "modules",
        obj(vec![("module_author", obj(vec![("pub_ts", s("1700000000"))]))]),
    )]);
    let info = parse_dynamic_info(&item).unwrap().unwrap();
    assert_eq!(info.pub_ts, 1700000000);
    assert_eq!(info.comment_type, -1);
    assert_eq!(info.comment_oid, "");
    assert_eq!(info.location, "");
    assert_eq!(info.stat, Json::Null);
    assert_eq!(info.content, "");
    assert!(info.pics.is_empty());
}

#[test]
fn parse_skips_items_that_are_not_dynamics() {
    assert_eq!(parse_dynamic_info(&obj(vec![])), Ok(None));
    assert_eq!(parse_dynamic_info(&obj(vec![("type", s("AD_CARD")), ("id_str", s("1"))])), Ok(None));
    assert_eq!(parse_dynamic_info(&obj(vec![("type", s("DYNAMIC_TYPE_AV"))])), Ok(None));
    assert_eq!(parse_dynamic_info(&obj(vec![("type", Json::Int(1)), ("id_str", s("1"))])), Ok(None));
}

#[test]
fn parse_rejects_bad_publish_times() {
    assert_eq!(parse_dynamic_info(&feed_item(s("abc"))), Err(FeedError::InvalidTimestamp));
    assert_eq!(parse_dynamic_info(&feed_item(Json::Null)), Err(FeedError::InvalidTimestamp));
    assert_eq!(parse_dynamic_info(&feed_item(Json::Int(i64::MAX))), Err(FeedError::InvalidTimestamp));
    assert_eq!(parse_dynamic_info(&feed_item(Json::Float("1.5".to_string()))), Err(FeedError::InvalidTimestamp));
}

fn page(items: Vec<Json>, has_more: Option<bool>, offset: Option<&str>) -> Json {
    let mut data = vec![("items", Json::Array(items))];
    if let Some(h) = has_more {
        data.push(("has_more", Json::Bool(h)));
    }
    if let Some(o) = offset {
        data.push(("offset", s(o)));
    }
    obj(vec![("data", obj(data))])
}

#[test]
fn feed_page_steps() {
    let empty = page(vec![], Some(false), Some(""));
    assert_eq!(feed_page(&empty, &None), FeedPage::Finished);
    assert_eq!(
        feed_page(&empty, &Some("o1".to_string())),
        FeedPage::Failed(FeedError::NoDynamicsAtOffset("o1".to_string()))
    );
    let more = page(vec![Json::Int(1)], Some(true), Some("abc"));
    match feed_page(&more, &None) {
        FeedPage::Items(items, next) => {
            assert_eq!(items.len(), 1);
            assert_eq!(next, PageNext::More("abc".to_string()));
        }
        _ => panic!("expected items"),
    }
    let last = page(vec![Json::Int(1)], Some(false), Some("abc"));
    assert!(matches!(feed_page(&last, &None), FeedPage::Items(_, PageNext::Last)));
    let broken = page(vec![Json::Int(1)], Some(true), None);
    assert!(matches!(feed_page(&broken, &None), FeedPage::Items(_, PageNext::Broken)));
}

#[test]
fn video_items_of_the_video_feed() {
    let archive = obj(vec![("bvid", s("BV1"))]);
    let item = obj(vec![
        ("type", s("DYNAMIC_TYPE_AV")),
        (
            "modules",
            obj(vec![
                ("module_author", obj(vec![("pub_ts", Json::Int(1700000000))])),
                ("module_dynamic", obj(vec![("major", obj(vec![("archive", archive.deep_copy())]))])),
            ]),
        ),
    ]);
    assert_eq!(video_item(&item), Ok(Some((1700000000, archive))));
    assert_eq!(video_item(&obj(vec![("type", s("DYNAMIC_TYPE_DRAW"))])), Ok(None));
    assert_eq!(video_item(&obj(vec![("type", s("DYNAMIC_TYPE_AV"))])), Err(FeedError::InvalidTimestamp));
}

#[test]
fn feed_queries() {
    let d = Dynamic::new("42".to_string());
    assert_eq!(
        pairs(d.query_params(None)),
        vec![p("host_mid", "42"), p("offset", ""), p("type", "video")]
    );
    let f = DynamicFeed::new("42".to_string());
    let q = f.query_params(Some("off".to_string()));
    assert_eq!(q[0], p("host_mid", "42"));
    assert_eq!(q[1], p("offset", "off"));
    assert_eq!(q[2].0, "features");
    assert!(q[2].1.starts_with("itemOpusStyle,listOnlyfans"));
    assert!(q[2].1.ends_with("onlyfansQaCard"));
}
