use pasteboard::db::{
    clear_all, delete, get, insert, list, set_pinned, touch, trim, trim_plan, Record, RecordStore,
};

fn rec(id: i64, kind: &str, pinned: bool, last_used_at: i64) -> Record {
    Record {
        id,
        kind: kind.to_string(),
        content: format!("/data/{}", id),
        preview: format!("p{}", id),
        thumb_path: if kind == "image" { Some(format!("/thumbs/{}", id)) } else { None },
        pinned,
        created_at: last_used_at,
        last_used_at,
    }
}

fn ids(rs: &[Record]) -> Vec<i64> {
    rs.iter().map(|r| r.id).collect()
}

#[test]
fn insert_hands_out_increasing_ids() {
    let mut s = RecordStore::new();
    assert_eq!(insert(&mut s, "text", "a", "a", None, 1), 1);
    assert_eq!(insert(&mut s, "image", "/i.png", "[图片]", Some("/t.png"), 2), 2);
    delete(&mut s, 2);
    assert_eq!(insert(&mut s, "text", "c", "c", None, 3), 3);
    assert_eq!(s.largest_id(), 3);
    assert_eq!(ids(&list(&s)), vec![3, 1]);
}

#[test]
fn get_reads_back_what_insert_wrote() {
    let mut s = RecordStore::new();
    let id = insert(&mut s, "image", "/i.png", "[图片]", Some("/t.png"), 42);
    let r = get(&s, id).unwrap();
    assert_eq!(r.kind, "image");
    assert_eq!(r.content, "/i.png");
    assert_eq!(r.preview, "[图片]");
    assert_eq!(r.thumb_path.as_deref(), Some("/t.png"));
    assert!(!r.pinned);
    assert_eq!((r.created_at, r.last_used_at), (42, 42));
    assert!(get(&s, id + 1).is_none());
}

#[test]
fn restore_checks_the_rows() {
    let ok = RecordStore::restore(vec![rec(1, "text", false, 5), rec(4, "text", true, 2)], 7);
    let s = ok.unwrap();
    assert_eq!(s.largest_id(), 7);
    assert_eq!(s.len(), 2);
    assert!(RecordStore::restore(vec![rec(4, "text", false, 5), rec(1, "text", true, 2)], 7).is_none());
    assert!(RecordStore::restore(vec![rec(1, "text", false, 5)], 0).is_none());
    assert!(RecordStore::restore(vec![rec(0, "text", false, 5)], 3).is_none());
    assert!(RecordStore::restore(vec![], -1).is_none());
}

#[test]
fn list_shows_pinned_first_then_most_recent() {
    let s = RecordStore::restore(
        vec![
            rec(1, "text", false, 10),
            rec(2, "text", true, 5),
            rec(3, "text", false, 30),
            rec(4, "text", true, 50),
            rec(5, "text", false, 30),
        ],
        5,
    )
    .unwrap();
    assert_eq!(ids(&list(&s)), vec![4, 2, 3, 5, 1]);
}

#[test]
fn touch_moves_a_record_to_the_top() {
    let mut s = RecordStore::new();
    for t in 1..=3 {
        insert(&mut s, "text", "x", "x", None, t);
    }
    assert_eq!(ids(&list(&s)), vec![3, 2, 1]);
    touch(&mut s, 1, 10);
    assert_eq!(ids(&list(&s)), vec![1, 3, 2]);
    assert_eq!(get(&s, 1).unwrap().last_used_at, 10);
    assert_eq!(get(&s, 1).unwrap().created_at, 1);
    touch(&mut s, 99, 20);
    assert_eq!(ids(&list(&s)), vec![1, 3, 2]);
}

#[test]
fn pinning_puts_a_record_above_unpinned_ones() {
    let mut s = RecordStore::new();
    for t in 1..=3 {
        insert(&mut s, "text", "x", "x", None, t);
    }
    set_pinned(&mut s, 1, true);
    assert_eq!(ids(&list(&s)), vec![1, 3, 2]);
    assert!(get(&s, 1).unwrap().pinned);
    set_pinned(&mut s, 1, false);
    assert_eq!(ids(&list(&s)), vec![3, 2, 1]);
}

#[test]
fn delete_returns_image_and_thumbnail_files() {
    let mut s = RecordStore::new();
    let a = insert(&mut s, "image", "/img/a.png", "[图片]", Some("/th/a.png"), 1);
    let b = insert(&mut s, "text", "hello", "hello", None, 2);
    let c = insert(&mut s, "link", "http://x", "http://x", Some("/th/c.png"), 3);
    assert_eq!(delete(&mut s, a), vec!["/img/a.png".to_string(), "/th/a.png".to_string()]);
    assert_eq!(delete(&mut s, b), Vec::<String>::new());
    assert_eq!(delete(&mut s, c), vec!["/th/c.png".to_string()]);
    assert_eq!(delete(&mut s, c), Vec::<String>::new());
    assert_eq!(s.len(), 0);
    assert!(get(&s, a).is_none());
}

#[test]
fn trim_removes_least_recently_used_unpinned() {
    let mut s = RecordStore::restore(
        vec![
            rec(1, "image", false, 10),
            rec(2, "text", true, 1),
            rec(3, "text", false, 5),
            rec(4, "text", false, 20),
            rec(5, "image", false, 5),
        ],
        5,
    )
    .unwrap();
    assert_eq!(ids(&trim_plan(&s, 2)), vec![3, 5, 1]);
    let files = trim(&mut s, 2);
    assert_eq!(
        files,
        vec![
            "/data/5".to_string(),
            "/thumbs/5".to_string(),
            "/data/1".to_string(),
            "/thumbs/1".to_string()
        ]
    );
    assert_eq!(ids(&list(&s)), vec![2, 4]);
}

#[test]
fn trim_never_removes_pinned_records() {
    let mut s = RecordStore::restore(
        vec![rec(1, "text", true, 1), rec(2, "text", true, 2), rec(3, "text", false, 3)],
        3,
    )
    .unwrap();
    let files = trim(&mut s, 1);
    assert!(files.is_empty());
    assert_eq!(ids(&list(&s)), vec![2, 1]);
}

#[test]
fn trim_within_the_limit_changes_nothing() {
    let mut s = RecordStore::new();
    insert(&mut s, "text", "a", "a", None, 1);
    insert(&mut s, "text", "b", "b", None, 2);
    assert!(trim_plan(&s, 2).is_empty());
    assert!(trim(&mut s, 2).is_empty());
    assert_eq!(s.len(), 2);
}

#[test]
fn clear_all_with_and_without_pinned() {
    let rows = vec![rec(1, "image", true, 1), rec(2, "image", false, 2), rec(3, "text", false, 3)];
    let mut s = RecordStore::restore(rows.clone(), 3).unwrap();
    let files = clear_all(&mut s, true);
    assert_eq!(files, vec!["/data/2".to_string(), "/thumbs/2".to_string()]);
    assert_eq!(ids(&list(&s)), vec![1]);
    let mut s = RecordStore::restore(rows, 3).unwrap();
    let files = clear_all(&mut s, false);
    assert_eq!(
        files,
        vec![
            "/data/1".to_string(),
            "/thumbs/1".to_string(),
            "/data/2".to_string(),
            "/thumbs/2".to_string()
        ]
    );
    assert_eq!(s.len(), 0);
    assert_eq!(s.largest_id(), 3);
}

#[test]
fn files_of_a_record() {
    let r = rec(7, "image", false, 1);
    assert!(r.is_image());
    assert_eq!(r.files(), vec!["/data/7".to_string(), "/thumbs/7".to_string()]);
    let t = rec(8, "text", false, 1);
    assert!(!t.is_image());
    assert!(t.files().is_empty());
}
