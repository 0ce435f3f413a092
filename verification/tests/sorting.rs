use rusticsort::organizer::{
    match_rule, plan_file_move, result_overview, summarize_matches, summarize_undo, MoveRecord,
    OrganizeBatch, PREVIEW_LIMIT, RESULT_LIST_LIMIT,
};
use rusticsort::rules::{default_rules, duplicate_rules, SortingRule};

fn rule(ext: &str, target: &str, enabled: bool) -> SortingRule {
    let mut r = SortingRule::new(ext, target, "Category");
    r.enabled = enabled;
    r
}

fn record(from: &str, to: &str, created: Option<&str>) -> MoveRecord {
    MoveRecord {
        original_path: from.to_string(),
        new_path: to.to_string(),
        created_dir: created.map(|d| d.to_string()),
    }
}

#[test]
fn new_rule_holds_its_fields_and_is_enabled() {
    let r = SortingRule::new("pdf", "Documents", "Docs");
    assert_eq!(r.extension, "pdf");
    assert_eq!(r.target_path, "Documents");
    assert_eq!(r.category_name, "Docs");
    assert!(r.enabled);
    let copy = r.duplicate();
    assert_eq!(copy.extension, "pdf");
    assert_eq!(copy.target_path, "Documents");
    assert!(default_rules().is_empty());
    let list = duplicate_rules(&[r.clone(), rule("a", "b", false)]);
    assert_eq!(list.len(), 2);
    assert!(!list[1].enabled);
}

#[test]
fn match_rule_finds_first_enabled_match() {
    let rules = vec![
        rule("jpg", "Old", false),
        rule("JPG", "Images", true),
        rule("jpg", "Photos", true),
        rule("pdf", "Docs", true),
    ];
    assert_eq!(match_rule("jpg", &rules), Some("Images"));
    assert_eq!(match_rule("Jpg", &rules), Some("Images"));
    assert_eq!(match_rule("PDF", &rules), Some("Docs"));
    assert_eq!(match_rule("png", &rules), None);
    assert_eq!(match_rule("jpg", &[]), None);
}

#[test]
fn disabled_rules_never_match() {
    let rules = vec![rule("txt", "Text", false)];
    assert_eq!(match_rule("txt", &rules), None);
    let rules = vec![rule("txt", "Text", false), rule("txt", "Notes", true)];
    assert_eq!(match_rule("TXT", &rules), Some("Notes"));
}

#[test]
fn extensions_differing_in_case_sort_alike() {
    let rules = vec![rule("Mp3", "Music", true), rule("mp4", "Video", true)];
    for (a, b) in [("mp3", "MP3"), ("MP4", "mp4"), ("ogg", "OGG")] {
        assert_eq!(match_rule(a, &rules), match_rule(b, &rules));
    }
}

#[test]
fn plan_for_a_matching_file() {
    let rules = vec![rule("jpg", "Images", true)];
    let plan = plan_file_move("Holiday.photo.JPG", "/home/u/Downloads", &rules).unwrap();
    assert_eq!(plan.target_dir, "/home/u/Downloads/Images");
    assert_eq!(plan.stem, "Holiday.photo");
    assert_eq!(plan.extension, "JPG");
}

#[test]
fn no_plan_without_extension_or_rule() {
    let rules = vec![rule("jpg", "Images", true), rule("", "Nothing", true)];
    assert!(plan_file_move("README", "/d", &rules).is_none());
    assert!(plan_file_move(".jpg", "/d", &rules).is_none());
    assert!(plan_file_move("song.mp3", "/d", &rules).is_none());
    let plan = plan_file_move("odd.", "/d", &rules).unwrap();
    assert_eq!(plan.target_dir, "/d/Nothing");
    assert_eq!(plan.stem, "odd");
    assert_eq!(plan.extension, "");
}

#[test]
fn plan_with_an_absolute_target_folder() {
    let rules = vec![rule("iso", "/srv/images", true)];
    let plan = plan_file_move("disk.iso", "/home/u", &rules).unwrap();
    assert_eq!(plan.target_dir, "/srv/images");
}

#[test]
fn undo_summary_counts_and_dedups_in_reverse_order() {
    let records = vec![
        record("/s/a.jpg", "/s/Images/a.jpg", Some("/s/Images")),
        record("/s/b.pdf", "/s/Docs/b.pdf", Some("/s/Docs")),
        record("/s/c.jpg", "/s/Images/c.jpg", None),
        record("/s/d.pdf", "/s/Docs/d.pdf", Some("/s/Docs")),
    ];
    let s = summarize_undo(&records, &[true, true, true, true]);
    assert_eq!(s.restored, 4);
    assert_eq!(s.dirs_to_remove, vec!["/s/Docs".to_string(), "/s/Images".to_string()]);

    let s = summarize_undo(&records, &[true, false, true, false]);
    assert_eq!(s.restored, 2);
    assert_eq!(s.dirs_to_remove, vec!["/s/Images".to_string()]);

    let s = summarize_undo(&records, &[false, false, false, false]);
    assert_eq!(s.restored, 0);
    assert!(s.dirs_to_remove.is_empty());

    let s = summarize_undo(&[], &[]);
    assert_eq!(s.restored, 0);
    assert!(s.dirs_to_remove.is_empty());
}

#[test]
fn match_summary_counts_all_and_previews_the_first() {
    let rules = vec![rule("jpg", "Images", true), rule("txt", "Text", false)];
    let mut names: Vec<String> = (0..20).map(|i| format!("p{}.jpg", i)).collect();
    names.insert(3, "notes.txt".to_string());
    names.insert(5, "README".to_string());
    let s = summarize_matches(&names, &rules);
    assert_eq!(s.count, 20);
    assert_eq!(s.preview.len(), PREVIEW_LIMIT);
    assert_eq!(s.preview[0].file_name, "p0.jpg");
    assert_eq!(s.preview[0].target_path, "Images");
    assert_eq!(s.preview[14].file_name, "p14.jpg");

    assert_eq!(s.unlisted(), 5);
    assert_eq!(s.message("none"), "20 file(s) will be organized into folders.");

    let few = vec!["a.JPG".to_string(), "b.png".to_string()];
    let s = summarize_matches(&few, &rules);
    assert_eq!(s.unlisted(), 0);
    assert_eq!(summarize_matches(&[], &rules).message("No files match."), "No files match.");
    assert_eq!(s.count, 1);
    assert_eq!(s.preview.len(), 1);
    assert_eq!(s.preview[0].file_name, "a.JPG");
}

#[test]
fn appending_rules_keeps_a_match() {
    let rules = vec![rule("jpg", "Images", true)];
    let mut more = rules.clone();
    more.push(rule("jpg", "Photos", true));
    more.push(rule("png", "Images", true));
    assert_eq!(match_rule("JPG", &rules), Some("Images"));
    assert_eq!(match_rule("JPG", &more), Some("Images"));
}

#[test]
fn disabled_rules_inserted_or_removed_change_nothing() {
    let base = vec![rule("pdf", "Docs", true), rule("jpg", "Images", true)];
    for pos in 0..=base.len() {
        let mut with = base.clone();
        with.insert(pos, rule("jpg", "Elsewhere", false));
        for ext in ["jpg", "pdf", "png"] {
            assert_eq!(match_rule(ext, &with), match_rule(ext, &base));
        }
        with.remove(pos);
        assert_eq!(match_rule("jpg", &with), Some("Images"));
    }
}

#[test]
fn result_list_shows_the_first_names() {
    let records: Vec<MoveRecord> = (0..23)
        .map(|i| record(&format!("/s/f{}.jpg", i), &format!("/s/Images/f{}.jpg", i), None))
        .collect();
    let o = result_overview(&records);
    assert_eq!(o.names.len(), RESULT_LIST_LIMIT);
    assert_eq!(o.names[0], "f0.jpg");
    assert_eq!(o.names[19], "f19.jpg");
    assert_eq!(o.more, 3);
    let o = result_overview(&records[..2]);
    assert_eq!(o.names, vec!["f0.jpg".to_string(), "f1.jpg".to_string()]);
    assert_eq!(o.more, 0);
    let o = result_overview(&[record("/", "/x", None)]);
    assert_eq!(o.names, vec![String::new()]);
}

#[test]
fn organize_batch_stops_at_the_first_failure() {
    let mut b = OrganizeBatch::new();
    assert!(b.record(Ok(Some(record("/s/a.jpg", "/s/I/a.jpg", None)))));
    assert!(b.record(Ok(None)));
    assert!(b.record(Ok(Some(record("/s/b.jpg", "/s/I/b.jpg", None)))));
    let done = b.finish();
    assert_eq!(done.len(), 2);
    assert_eq!(done[1].new_path, "/s/I/b.jpg");

    let mut b = OrganizeBatch::new();
    assert!(b.record(Ok(Some(record("/s/a.jpg", "/s/I/a.jpg", None)))));
    assert!(!b.record(Err("denied".to_string())));
    assert!(!b.record(Ok(Some(record("/s/b.jpg", "/s/I/b.jpg", None)))));
    assert!(b.finish().is_empty());
}
