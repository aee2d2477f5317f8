use bili_sync::dynamic::DynamicInfo;
use bili_sync::json::Json;
use bili_sync::render::{
    render_comment, render_comments_md, render_comments_md_checked, render_dynamic_md, render_dynamic_md_checked,
};
use bili_sync::store::dynamic_dir_name_checked;
use bili_sync::reply::ReplyInfo;

fn obj(entries: Vec<(&str, Json)>) -> Json {
    Json::Object(entries.into_iter().map(|(k, v)| (k.to_string(), v)).collect())
}

fn info(content: &str, pics: usize, location: &str, stat: Json) -> DynamicInfo {
    DynamicInfo {
        id: "123".to_string(),
        dyn_type: "DYNAMIC_TYPE_DRAW".to_string(),
        content: content.to_string(),
        pics: (0..pics).map(|i| format!("https://x/{i}.jpg")).collect(),
        stat,
        pub_ts: 1700000000,
        comment_type: 11,
        comment_oid: "456".to_string(),
        location: location.to_string(),
        raw: Json::Null,
    }
}

#[test]
fn dynamic_markdown_full() {
    let stat = obj(vec![
        ("comment", obj(vec![("count", Json::Int(3))])),
        ("like", obj(vec![("count", Json::Int(10))])),
    ]);
    let md = render_dynamic_md(&info("hello", 2, "江苏", stat), "up");
    assert_eq!(
        md,
        "# up 的动态\n\n- 动态 id: 123\n- 类型: DYNAMIC_TYPE_DRAW\n- 发布时间: 2023-11-14 22:13:20\n- 发布位置: 江苏\n- 评论数: 3\n- 点赞数: 10\n\n- 原链接: https://www.bilibili.com/opus/123\n\n## 正文\n\nhello\n\n## 图片\n\n![图片 0](pics/01.jpg)\n\n![图片 1](pics/02.jpg)\n\n"
    );
}

#[test]
fn dynamic_markdown_minimal() {
    let md = render_dynamic_md(&info("", 0, "", Json::Null), "up");
    assert_eq!(
        md,
        "# up 的动态\n\n- 动态 id: 123\n- 类型: DYNAMIC_TYPE_DRAW\n- 发布时间: 2023-11-14 22:13:20\n\n- 原链接: https://www.bilibili.com/opus/123\n"
    );
}

#[test]
fn dynamic_markdown_counts_pictures_past_ten() {
    let md = render_dynamic_md(&info("", 11, "", obj(vec![("forward", obj(vec![("count", Json::Int(-1))]))])), "u");
    assert!(md.contains("- 转发数: -1\n"));
    assert!(md.contains("![图片 9](pics/10.jpg)\n\n![图片 10](pics/11.jpg)\n\n"));
}

fn reply(rpid: i64, uname: &str, ctime: i64, content: &str, images: usize, subs: Vec<ReplyInfo>) -> ReplyInfo {
    ReplyInfo {
        rpid,
        parent_rpid: None,
        uname: uname.to_string(),
        avatar: String::new(),
        content: content.to_string(),
        images: (0..images).map(|i| format!("https://p/{i}.jpg")).collect(),
        ctime,
        raw: Json::Null,
        sub_replies: subs,
    }
}

#[test]
fn comments_markdown() {
    let sub = reply(8, "y", 1700000060, "c\nd", 1, vec![]);
    let top = reply(7, "x", 1700000000, "a\nb", 1, vec![sub]);
    let second = reply(9, "z", 1700000000, "", 0, vec![]);
    let md = render_comments_md(&[top, second]);
    assert_eq!(
        md,
        "# 评论\n\n### 评论 1  @x（2023-11-14 22:13:20）\n\na\nb\n\n![图片](comments/7_1.jpg)\n\n  - 回复 @y（2023-11-14 22:14:20）\n  c\n  d\n\n  ![图片](comments/8_1.jpg)\n\n### 评论 2  @z（2023-11-14 22:13:20）\n\n"
    );
    assert_eq!(render_comments_md(&[]), "# 评论\n\n");
}

#[test]
fn comment_at_depth() {
    let r = reply(1, "n", 0, "t", 0, vec![]);
    assert_eq!(render_comment(&r, 2, 5), "    - 回复 @n（1970-01-01 00:00:00）\n    t\n\n");
}

#[test]
fn checked_rendering_refuses_unrepresentable_times() {
    let mut bad = info("", 0, "", Json::Null);
    bad.pub_ts = i64::MAX;
    assert_eq!(render_dynamic_md_checked(&bad, "u"), None);
    assert!(render_dynamic_md_checked(&info("", 0, "", Json::Null), "u").is_some());
    assert_eq!(render_comments_md_checked(&[reply(1, "a", i64::MIN, "", 0, vec![])]), None);
    assert_eq!(
        render_comments_md_checked(&[reply(1, "a", 0, "", 0, vec![reply(2, "b", i64::MAX, "", 0, vec![])])]),
        None
    );
    assert_eq!(render_comments_md_checked(&[]), Some("# 评论\n\n".to_string()));
    assert_eq!(dynamic_dir_name_checked(i64::MAX, "1"), None);
    assert_eq!(dynamic_dir_name_checked(0, "1"), Some("1970-01-01 1".to_string()));
}
