use std::collections::VecDeque;

use bili_sync::detail::{build_reply_tree, build_reply_tree_checked, rows_well_formed, ReplyItem, ReplyRow};
use bili_sync::json::Json;
use bili_sync::loghistory::{
    archive_name, archives_to_remove, history_file, load_history, log_file_name, needs_rotation, push_history,
    sorted_history_files, text_lines, MAX_HISTORY_LOGS,
};
use bili_sync::relocate::{is_nested_move, plan_dir_moves, plan_source_move, relocated_dir, DirMove, SourceMove};
use bili_sync::scan::ScanTaskProgress;
use bili_sync::stats::{content_preview, is_file_name_allowed, mime_for_file, stat_points, version_history, StatRow};

fn row(rpid: i64, parent: Option<i64>) -> ReplyRow {
    ReplyRow {
        rpid,
        parent_rpid: parent,
        uname: format!("u{rpid}"),
        avatar: String::new(),
        content: format!("c{rpid}"),
        images: Some(Json::Array(vec![Json::Str(format!("https://i/{rpid}"))])),
        ctime: rpid,
    }
}

fn count(items: &[ReplyItem]) -> usize {
    items.iter().map(|i| 1 + count(&i.sub_replies)).sum()
}

#[test]
fn tree_places_replies_under_their_parents() {
    // in time order the parent comes first: the reply goes under it
    let rows = vec![row(1, None), row(2, Some(1)), row(3, Some(99))];
    let tree = build_reply_tree(&rows);
    assert_eq!(tree.iter().map(|i| i.rpid).collect::<Vec<_>>(), vec![1, 3]);
    assert_eq!(tree[0].sub_replies.iter().map(|i| i.rpid).collect::<Vec<_>>(), vec![2]);
    assert!(tree[1].sub_replies.is_empty());
    assert_eq!(tree[0].images, vec!["https://i/1".to_string()]);
    // a reply stored before its parent goes under it too, with its own replies
    let rows = vec![row(3, Some(2)), row(2, Some(1)), row(4, Some(1)), row(1, None), row(5, None)];
    let tree = build_reply_tree(&rows);
    assert_eq!(tree.iter().map(|i| i.rpid).collect::<Vec<_>>(), vec![1, 5]);
    assert_eq!(tree[0].sub_replies.iter().map(|i| i.rpid).collect::<Vec<_>>(), vec![2, 4]);
    assert_eq!(tree[0].sub_replies[0].sub_replies[0].rpid, 3);
    assert_eq!(count(&tree), rows.len());
}

#[test]
fn tree_keeps_comments_that_reply_to_each_other() {
    // two comments naming each other: the later one heads the tree
    let rows = vec![row(1, Some(2)), row(2, Some(1))];
    let tree = build_reply_tree(&rows);
    assert_eq!(tree.iter().map(|i| i.rpid).collect::<Vec<_>>(), vec![2]);
    assert_eq!(tree[0].sub_replies.iter().map(|i| i.rpid).collect::<Vec<_>>(), vec![1]);
    assert!(tree[0].sub_replies[0].sub_replies.is_empty());
    assert_eq!(count(&tree), 2);
    // a longer cycle with a reply hanging off it
    let rows = vec![row(1, Some(3)), row(2, Some(1)), row(3, Some(2)), row(4, Some(2)), row(5, None)];
    let tree = build_reply_tree(&rows);
    assert_eq!(tree.iter().map(|i| i.rpid).collect::<Vec<_>>(), vec![3, 5]);
    assert_eq!(tree[0].sub_replies[0].rpid, 1);
    assert_eq!(tree[0].sub_replies[0].sub_replies[0].rpid, 2);
    assert_eq!(tree[0].sub_replies[0].sub_replies[0].sub_replies.iter().map(|i| i.rpid).collect::<Vec<_>>(), vec![4]);
    assert_eq!(count(&tree), rows.len());
}

#[test]
fn tree_keeps_every_comment_once() {
    let mut rows: Vec<ReplyRow> = (0..20).map(|i| row(i, if i % 4 == 0 { None } else { Some((i * 7) % i) })).collect();
    assert_eq!(count(&build_reply_tree(&rows)), rows.len());
    rows.reverse();
    assert_eq!(count(&build_reply_tree(&rows)), rows.len());
    // parents chosen freely, cycles included
    let rows: Vec<ReplyRow> =
        (0..30).map(|i| row(i, if i % 7 == 0 { None } else { Some((i * 11 + 3) % 30) })).filter(|r| r.parent_rpid != Some(r.rpid)).collect();
    assert_eq!(count(&build_reply_tree(&rows)), rows.len());
}

fn stat(at: i64, name: &str, fans: i64) -> StatRow {
    StatRow {
        recorded_at: at,
        name: name.to_string(),
        sign: "s".to_string(),
        face: "f".to_string(),
        fan_count: fans,
        follow_count: 0,
        video_count: 0,
        dynamic_video_count: 1,
        view_count: 0,
        like_count: 0,
    }
}

#[test]
fn statistics_page() {
    let rows = vec![stat(1, "a", 10), stat(2, "a", 11), stat(3, "b", 12), stat(4, "a", 13), stat(5, "a", 13)];
    let points = stat_points(&rows);
    assert_eq!(points.iter().map(|p| p.fan_count).collect::<Vec<_>>(), vec![10, 11, 12, 13, 13]);
    assert_eq!(points[0].dynamic_video_count, 1);
    let versions = version_history(&rows);
    assert_eq!(
        versions.iter().map(|v| (v.name.as_str(), v.start_at, v.end_at)).collect::<Vec<_>>(),
        vec![("a", 1, Some(2)), ("b", 3, None), ("a", 4, Some(5))]
    );
    assert!(version_history(&vec![]).is_empty());
}

#[test]
fn served_files() {
    assert!(is_file_name_allowed("pics/01.jpg"));
    assert!(is_file_name_allowed("comments/309397270945_1.jpg"));
    assert!(!is_file_name_allowed("pics/../../etc/passwd"));
    assert!(!is_file_name_allowed("dynamic.json"));
    assert!(!is_file_name_allowed("/pics/01.jpg"));
    assert!(is_file_name_allowed("pics/02.webp"));
    assert!(!is_file_name_allowed("comments/comments.json"));
    assert!(!is_file_name_allowed("comments/content.md"));
    assert!(!is_file_name_allowed("pics/noext"));
    assert_eq!(mime_for_file("/d/2024-01-01 1/pics/01.jpg"), "image/jpeg");
    assert_eq!(mime_for_file("a/b.jpeg"), "image/jpeg");
    assert_eq!(mime_for_file("a/b.PNG"), "application/octet-stream");
    assert_eq!(mime_for_file("comments/comments.md"), "text/markdown; charset=utf-8");
    assert_eq!(mime_for_file("x.json"), "application/json");
    assert_eq!(mime_for_file("pics/.jpg"), "application/octet-stream");
    assert_eq!(mime_for_file("pics/noext"), "application/octet-stream");
}

#[test]
fn previews_keep_hundred_characters() {
    let long: String = "动".repeat(150);
    assert_eq!(content_preview(&long).chars().count(), 100);
    assert_eq!(content_preview("short"), "short");
}

#[test]
fn history_is_bounded() {
    let mut h: VecDeque<String> = VecDeque::new();
    for i in 0..MAX_HISTORY_LOGS + 5 {
        push_history(&mut h, format!("line {i}"));
        assert!(h.len() <= MAX_HISTORY_LOGS);
    }
    assert_eq!(h.len(), MAX_HISTORY_LOGS);
    assert_eq!(h.front().unwrap(), "line 5");
    assert_eq!(h.back().unwrap(), &format!("line {}", MAX_HISTORY_LOGS + 4));
}

#[test]
fn lines_as_std_gives_them() {
    for t in ["foo\r\nbar\n\nbaz\r", "", "\n", "a", "a\n", "a\r\n\r\n", "\r"] {
        let ours = text_lines(t);
        let std: Vec<String> = t.lines().map(|l| l.to_string()).collect();
        assert_eq!(ours, std, "{t:?}");
    }
}

#[test]
fn history_restored_from_files() {
    let mut h: VecDeque<String> = VecDeque::new();
    h.push_back("old".to_string());
    load_history(&mut h, &vec!["a\n\n b\r\nc".to_string(), "d\n  \n".to_string()], 100);
    assert_eq!(h, VecDeque::from(vec!["old", "a", " b", "c", "d"].into_iter().map(String::from).collect::<Vec<_>>()));
    load_history(&mut h, &vec![], 3);
    assert_eq!(h, VecDeque::from(vec![" b", "c", "d"].into_iter().map(String::from).collect::<Vec<_>>()));
}

#[test]
fn log_files() {
    assert_eq!(log_file_name("/app/data/bili-sync.log"), "bili-sync.log");
    assert_eq!(log_file_name("custom.txt"), "custom.txt");
    assert_eq!(log_file_name("/"), "bili-sync.log");
    assert_eq!(log_file_name("a/.."), "bili-sync.log");
    assert!(history_file("bili-sync.log", "bili-sync.log"));
    assert!(history_file("bili-sync.log.20240101", "bili-sync.log"));
    assert!(!history_file("bili-sync.logx", "bili-sync.log"));
    let names: Vec<String> = ["bili-sync.log.20240102", "other", "bili-sync.log", "bili-sync.log.20240101", "bili-sync.logx"]
        .into_iter()
        .map(String::from)
        .collect();
    assert_eq!(
        sorted_history_files(&names, "bili-sync.log", false),
        vec!["bili-sync.log.20240101", "bili-sync.log.20240102", "bili-sync.log"]
    );
    assert_eq!(sorted_history_files(&names, "bili-sync.log", true), vec!["bili-sync.log.20240101", "bili-sync.log.20240102"]);
}

#[test]
fn sorting_agrees_with_std() {
    let names: Vec<String> = ["x.b", "x.a-10", "x.a-9", "x.é", "x.z", "x.A", "x.a"].into_iter().map(String::from).collect();
    let mut expected = names.clone();
    expected.sort();
    assert_eq!(sorted_history_files(&names, "x", true), expected);
}

#[test]
fn archives() {
    let archives: Vec<String> = (1..=9).map(|d| format!("l.2024010{d}")).collect();
    assert_eq!(archives_to_remove(&archives), vec!["l.20240101".to_string(), "l.20240102".to_string()]);
    assert!(archives_to_remove(&archives[..7].to_vec()).is_empty());
    let existing: Vec<String> = vec!["x.log.20240101".to_string(), "x.log.20240101-1".to_string()];
    assert_eq!(archive_name("x.log.20240101", &existing), "x.log.20240101-2");
    assert_eq!(archive_name("x.log.20240102", &existing), "x.log.20240102");
    assert!(needs_rotation(&"20240101".to_string(), &"20240102".to_string(), Some(0)));
    assert!(needs_rotation(&"20240101".to_string(), &"20240101".to_string(), Some(10 * 1024 * 1024)));
    assert!(!needs_rotation(&"20240101".to_string(), &"20240101".to_string(), Some(10 * 1024 * 1024 - 1)));
    assert!(!needs_rotation(&"20240101".to_string(), &"20240101".to_string(), None));
}

#[test]
fn relocation_plan() {
    assert!(is_nested_move("/a", "/a/b"));
    assert!(!is_nested_move("/a", "/a/"));
    assert!(!is_nested_move("/a", "/b"));
    assert!(!is_nested_move("/a/b", "/a"));
    let dirs: Vec<String> = vec!["/old/2024-01-01 1".to_string(), String::new(), "/new/2024-01-02 2".to_string()];
    assert_eq!(
        plan_dir_moves("/new", &dirs),
        vec![DirMove { from: "/old/2024-01-01 1".to_string(), to: "/new/2024-01-01 1".to_string() }]
    );
    assert_eq!(relocated_dir("/new", &"/old/x".to_string()), Some("/new/x".to_string()));
    assert_eq!(relocated_dir("/new", &"/new/x".to_string()), None);
    assert_eq!(relocated_dir("/new", &String::new()), None);
}

#[test]
fn source_move_plan() {
    let dirs: Vec<String> = vec!["/old/2024-01-01 1".to_string(), "/elsewhere/2024-01-02 2".to_string()];
    assert_eq!(plan_source_move("/old", "/old/sub", &dirs), None);
    assert_eq!(
        plan_source_move("/old", "/old", &dirs),
        Some(SourceMove { unchanged: true, moves: vec![], new_dirs: vec![None, None] })
    );
    assert_eq!(
        plan_source_move("/old", "/new", &dirs),
        Some(SourceMove {
            unchanged: false,
            moves: vec![
                DirMove { from: "/old/2024-01-01 1".to_string(), to: "/new/2024-01-01 1".to_string() },
                DirMove { from: "/elsewhere/2024-01-02 2".to_string(), to: "/new/2024-01-02 2".to_string() },
            ],
            new_dirs: vec![Some("/new/2024-01-01 1".to_string()), Some("/new/2024-01-02 2".to_string())],
        })
    );
}

#[test]
fn scan_progress() {
    let mut p = ScanTaskProgress::queued(3);
    assert_eq!(p.state, "queued");
    assert_eq!(p.total, 3);
    p = ScanTaskProgress::running(3);
    p.start_source(0, "src".to_string());
    p.update_confirm(2, 5);
    assert_eq!((p.state.as_str(), p.current, p.current_source.as_str(), p.confirm_current, p.confirm_total), ("running", 1, "src", 2, 5));
    assert_eq!(ScanTaskProgress::default().state, "idle");
}

#[test]
fn checked_tree_refuses_duplicates_and_self_replies() {
    assert!(rows_well_formed(&vec![row(1, None), row(2, Some(1))]));
    assert!(!rows_well_formed(&vec![row(1, None), row(1, None)]));
    assert!(!rows_well_formed(&vec![row(1, Some(1))]));
    assert!(build_reply_tree_checked(&vec![row(1, Some(1))]).is_none());
    assert_eq!(build_reply_tree_checked(&vec![row(2, Some(1)), row(1, None)]).unwrap()[0].sub_replies.len(), 1);
}
