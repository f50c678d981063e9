use waseda_moodle_checker::canonical::Canonicalizer;
use waseda_moodle_checker::snapshot::{check_page, snapshot_file_name, Status};

#[test]
fn snapshot_file_is_named_by_the_id() {
    assert_eq!(snapshot_file_name(1), "1.html");
    assert_eq!(snapshot_file_name(0), "0.html");
    assert_eq!(snapshot_file_name(18446744073709551615), "18446744073709551615.html");
}

#[test]
fn three_runs_of_one_course() {
    let canonicalizer = Canonicalizer::new().unwrap();
    let page = |token: &str, content: &str| {
        format!(
            "<html><head><title>Algebra</title></head><body>\
             <a href=\"http://x/logout?sesskey={}\">out</a>\
             <div id=\"page-content\">{}</div></body></html>",
            token, content
        )
    };

    let first = check_page(&canonicalizer, &page("abc123", "Hello"), "abc123", None).unwrap();
    assert_eq!(first.status, Status::FirstFetched);
    let stored = first.snapshot.expect("a first fetch writes the snapshot");
    assert_eq!(
        stored,
        "<html><head></head><body><div id=\"page-content\">Hello</div></body></html>"
    );

    let second =
        check_page(&canonicalizer, &page("zzz999", "Hello"), "zzz999", Some(&stored)).unwrap();
    assert_eq!(second.status, Status::NoUpdates);
    assert!(second.snapshot.is_none());

    let third =
        check_page(&canonicalizer, &page("zzz999", "Hello world"), "zzz999", Some(&stored))
            .unwrap();
    assert_eq!(third.status, Status::Updated);
    assert_eq!(
        third.snapshot.as_deref(),
        Some("<html><head></head><body><div id=\"page-content\">Hello world</div></body></html>")
    );
}

#[test]
fn different_resources_have_different_snapshot_files() {
    let ids = [0u64, 1, 10, 11, 100, 101, 110, u64::MAX];
    for left in ids {
        for right in ids {
            assert_eq!(snapshot_file_name(left) == snapshot_file_name(right), left == right);
        }
    }
}

#[test]
fn a_run_rewrites_only_the_snapshots_of_what_changed() {
    let canonicalizer = Canonicalizer::new().unwrap();
    let page = |content: &str| format!("<div id=\"page-content\">{}</div>", content);
    let mut store: std::collections::HashMap<u64, String> = std::collections::HashMap::new();
    store.insert(1, "<div id=\"page-content\">same</div>".to_string());
    store.insert(2, "<div id=\"page-content\">old</div>".to_string());
    store.insert(7, "<p>not in the run</p>".to_string());
    let before = store.clone();

    let pages = [(1u64, page("same")), (2, page("new")), (3, page("first"))];
    let mut statuses = Vec::new();
    for (id, raw) in &pages {
        let stored = store.get(id).cloned();
        let found = check_page(&canonicalizer, raw, "Qx7Zt", stored.as_deref()).ok().unwrap();
        if let Some(markup) = found.snapshot {
            store.insert(*id, markup);
        }
        statuses.push(found.status);
    }

    assert_eq!(statuses, vec![Status::NoUpdates, Status::Updated, Status::FirstFetched]);
    assert_eq!(store.get(&1), before.get(&1));
    assert_eq!(store.get(&7), before.get(&7));
    assert_eq!(
        store.get(&2).map(String::as_str),
        Some("<html><head></head><body><div id=\"page-content\">new</div></body></html>")
    );
    assert_eq!(
        store.get(&3).map(String::as_str),
        Some("<html><head></head><body><div id=\"page-content\">first</div></body></html>")
    );
    assert_eq!(store.len(), 4);
}
