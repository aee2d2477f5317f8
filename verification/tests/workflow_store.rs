use bili_sync::dynamic::DynamicInfo;
use bili_sync::error::BiliError;
use bili_sync::json::Json;
use bili_sync::reply::ReplyInfo;
use bili_sync::store::{
    comment_image_downloads, comment_image_name, dynamic_dir_name, dynamic_record, export_info, pic_file_name,
    reply_records, string_list, StoredDynamic, mark_completed, mark_for_rescan, STATUS_COMPLETED,
};
use bili_sync::upper::UpperProfile;
use bili_sync::workflow::{
    aborts_round, backfill_check_count, has_comment_area, needs_reply_backfill, new_dynamic_source, profile_changed,
    renamed, reply_window_open_checked, select_round, should_sync_replies, stored_comment_count, RefreshCursor,
    MAX_NEW_PER_ROUND, MAX_RESCAN_PER_ROUND,
};

fn obj(entries: Vec<(&str, Json)>) -> Json {
    Json::Object(entries.into_iter().map(|(k, v)| (k.to_string(), v)).collect())
}

fn s(x: &str) -> Json {
    Json::Str(x.to_string())
}

fn profile(name: &str, fans: i64) -> UpperProfile {
    UpperProfile {
        name: name.to_string(),
        sign: "s".to_string(),
        face: "f".to_string(),
        fan_count: fans,
        follow_count: 1,
        video_count: 2,
        view_count: 3,
        like_count: 4,
    }
}

#[test]
fn profile_snapshots_recorded_only_on_change() {
    let p = profile("a", 10);
    assert!(profile_changed(None, &p));
    assert!(!profile_changed(Some(&p.clone()), &p));
    assert!(profile_changed(Some(&profile("a", 11)), &p));
    assert!(profile_changed(Some(&profile("b", 10)), &p));
    assert!(renamed(&"old".to_string(), &p));
    assert!(!renamed(&"a".to_string(), &p));
}

#[test]
fn only_risk_control_aborts() {
    assert!(aborts_round(Some(&BiliError::RiskControlOccurred("x".to_string()))));
    assert!(!aborts_round(Some(&BiliError::InvalidResponse("x".to_string()))));
    assert!(!aborts_round(None));
}

#[test]
fn backfill_decisions() {
    let stat = obj(vec![("comment", obj(vec![("count", Json::Int(5))]))]);
    assert_eq!(stored_comment_count(Some(&stat)), 5);
    assert_eq!(stored_comment_count(None), 0);
    assert_eq!(stored_comment_count(Some(&obj(vec![("comment", s("5"))]))), 0);
    assert!(needs_reply_backfill(5, 0));
    assert!(!needs_reply_backfill(5, 1));
    assert!(!needs_reply_backfill(0, 0));
    assert_eq!(backfill_check_count(70), 50);
    assert_eq!(backfill_check_count(3), 3);
}

#[test]
fn refresh_cursor_scan() {
    let mut c = RefreshCursor::start(false, 999);
    assert_eq!(c.latest_row_at, 0);
    assert_eq!(c.new_cursor(), None);
    assert!(c.observe(0, 5));
    assert!(!c.observe(1, 0));
    assert_eq!(c.new_cursor(), Some(5));

    let mut c = RefreshCursor::start(true, 100);
    // a pinned old dynamic first does not stop the scan
    assert!(c.observe(0, 50));
    assert!(c.observe(1, 200));
    assert!(c.observe(2, 150));
    assert!(!c.observe(3, 100));
    assert_eq!(c.max_datetime, 200);
    assert_eq!(c.new_cursor(), Some(200));
}

#[test]
fn cursor_never_moves_back() {
    let mut c = RefreshCursor::start(true, 100);
    for (i, t) in [10, 20, 30].into_iter().enumerate() {
        c.observe(i, t);
    }
    assert_eq!(c.max_datetime, 100);
    assert_eq!(c.new_cursor(), None);
}

#[test]
fn round_takes_rescans_first() {
    assert_eq!(select_round(&vec![false, true, false, true]), vec![1, 3, 0, 2]);
    let flags: Vec<bool> = (0..60).map(|i| i % 3 == 0).collect();
    let r = select_round(&flags);
    assert_eq!(r.len(), MAX_RESCAN_PER_ROUND + MAX_NEW_PER_ROUND);
    assert!(r[..MAX_RESCAN_PER_ROUND].iter().all(|&i| flags[i]));
    assert!(r[MAX_RESCAN_PER_ROUND..].iter().all(|&i| !flags[i]));
    assert_eq!(r[0], 0);
    assert_eq!(r[MAX_RESCAN_PER_ROUND], 1);
    assert!(select_round(&vec![]).is_empty());
}

#[test]
fn reply_window() {
    let day = 86400;
    assert_eq!(reply_window_open_checked(0, 5 * day, 0), Some(true));
    assert_eq!(reply_window_open_checked(0, 5 * day, 1), Some(false));
    assert_eq!(reply_window_open_checked(0, 5 * day + 1, 0), Some(false));
    assert_eq!(reply_window_open_checked(0, 3 * day, 999), Some(true));
    assert_eq!(reply_window_open_checked(i64::MAX - 10, 0, 0), None);
    assert!(should_sync_replies(true, false, true));
    assert!(should_sync_replies(true, true, false));
    assert!(!should_sync_replies(false, true, true));
    assert!(!should_sync_replies(true, false, false));
    assert!(has_comment_area(11, "1"));
    assert!(!has_comment_area(0, "1"));
    assert!(!has_comment_area(11, ""));
}

#[test]
fn new_source_parses_mid() {
    let src = new_dynamic_source("12345", "n".to_string(), "/p".to_string(), true).unwrap();
    assert_eq!(src.upper_id, 12345);
    assert!(!src.enabled);
    assert_eq!(src.latest_dyn_at, 0);
    assert!(new_dynamic_source("abc", "n".to_string(), "/p".to_string(), true).is_none());
}

#[test]
fn stored_lists_of_strings() {
    let good = Json::Array(vec![s("a"), s("b")]);
    assert_eq!(string_list(Some(&good)), vec!["a".to_string(), "b".to_string()]);
    assert!(string_list(Some(&Json::Array(vec![s("a"), Json::Int(1)]))).is_empty());
    assert!(string_list(Some(&Json::Null)).is_empty());
    assert!(string_list(None).is_empty());
}

#[test]
fn file_names() {
    assert_eq!(dynamic_dir_name(1700000000, "123"), "2023-11-14 123");
    assert_eq!(pic_file_name(0), "01.jpg");
    assert_eq!(pic_file_name(9), "10.jpg");
    assert_eq!(pic_file_name(99), "100.jpg");
    assert_eq!(comment_image_name(309397270945, 0), "309397270945_1.jpg");
}

fn reply(rpid: i64, images: usize, subs: Vec<ReplyInfo>) -> ReplyInfo {
    ReplyInfo {
        rpid,
        parent_rpid: None,
        uname: "u".to_string(),
        avatar: String::new(),
        content: "c".to_string(),
        images: (0..images).map(|i| format!("https://p/{rpid}/{i}.jpg")).collect(),
        ctime: 1,
        raw: obj(vec![("rpid", Json::Int(rpid))]),
        sub_replies: subs,
    }
}

#[test]
fn reply_rows_and_downloads() {
    let replies = vec![reply(1, 1, vec![reply(2, 2, vec![reply(3, 1, vec![])])]), reply(4, 0, vec![])];
    let rows = reply_records("d1", &replies);
    // each comment, then its direct replies (deeper replies are not stored)
    assert_eq!(rows.iter().map(|r| r.rpid).collect::<Vec<_>>(), vec![1, 2, 4]);
    assert!(rows.iter().all(|r| r.dynamic_id == "d1" && r.valid && r.download_status == 0));
    assert_eq!(rows[0].images, Some(Json::Array(vec![s("https://p/1/0.jpg")])));
    assert_eq!(rows[2].images, None);
    assert_eq!(rows[0].raw, Some(obj(vec![("rpid", Json::Int(1))])));
    let jobs = comment_image_downloads(&replies);
    assert_eq!(
        jobs,
        vec![
            ("https://p/1/0.jpg".to_string(), "1_1.jpg".to_string()),
            ("https://p/2/0.jpg".to_string(), "2_1.jpg".to_string()),
            ("https://p/2/1.jpg".to_string(), "2_2.jpg".to_string()),
        ]
    );
}

#[test]
fn dynamic_row_and_export() {
    let info = DynamicInfo {
        id: "9".to_string(),
        dyn_type: "DYNAMIC_TYPE_DRAW".to_string(),
        content: "c".to_string(),
        pics: vec!["https://a".to_string()],
        stat: obj(vec![("like", Json::Int(1))]),
        pub_ts: 1700000000,
        comment_type: 11,
        comment_oid: "5".to_string(),
        location: "l".to_string(),
        raw: obj(vec![("id_str", s("9"))]),
    };
    let rec = dynamic_record(&info, 3);
    assert_eq!(rec.source_id, 3);
    assert_eq!(rec.pics, Some(Json::Array(vec![s("https://a")])));
    assert_eq!(rec.stat, Some(obj(vec![("like", Json::Int(1))])));
    assert_eq!(rec.raw, Some(obj(vec![("id_str", s("9"))])));
    assert_eq!(rec.download_status, 0);
    assert_eq!(rec.path, "");
    assert!(rec.valid && !rec.rescan_reply);
    let mut done = dynamic_record(&info, 3);
    done.rescan_reply = true;
    mark_completed(&mut done, "/src/2023-11-14 9".to_string());
    assert_eq!((done.download_status, done.path.as_str(), done.rescan_reply), (STATUS_COMPLETED, "/src/2023-11-14 9", false));
    assert_eq!(done.id, rec.id);
    mark_for_rescan(&mut done);
    assert!(done.rescan_reply && done.download_status < STATUS_COMPLETED);
    assert_eq!(done.path, "/src/2023-11-14 9");
    let row = StoredDynamic {
        id: rec.id.clone(),
        dyn_type: rec.dyn_type.clone(),
        content: rec.content.clone(),
        pics: rec.pics,
        stat: None,
        pub_ts: rec.pub_ts,
        location: rec.location.clone(),
    };
    let back = export_info(&row);
    assert_eq!(back.pics, info.pics);
    assert_eq!(back.stat, Json::Null);
    assert_eq!(back.comment_type, 0);
    assert_eq!(back.comment_oid, "");
    assert_eq!(back.raw, Json::Null);
}
