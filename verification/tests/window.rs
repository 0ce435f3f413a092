use rusticsort::organizer::MoveRecord;
use rusticsort::rules::SortingRule;
use rusticsort::strings::{StringEntry, Strings};
use rusticsort::ui::{step_label, step_state, Action, Message, Modal, Page, RusticSortApp, StepState};

fn entry(section: &str, key: &str, value: &str) -> StringEntry {
    StringEntry { section: section.to_string(), key: key.to_string(), value: value.to_string() }
}

fn strings() -> Strings {
    Strings::from_entries(vec![
        entry("app", "name", "RusticSort"),
        entry("messages", "save_failed", "Could not save"),
        entry("messages", "select_dir_first", "Select a directory first"),
        entry("messages", "undo_success", "Undo complete"),
        entry("links", "website", "https://example.org"),
        entry("app", "name", "Shadowed"),
    ])
}

fn app() -> RusticSortApp {
    RusticSortApp::with_source_dir(None, None, strings())
}

fn modal_text(app: &RusticSortApp) -> Option<String> {
    match app.modal() {
        Modal::Error(e) => Some(e.clone()),
        _ => None,
    }
}

#[test]
fn string_table_lookup() {
    let s = strings();
    assert_eq!(s.get("app", "name"), "RusticSort");
    assert_eq!(s.get("links", "website"), "https://example.org");
    assert_eq!(s.get("app", "missing"), "");
    assert_eq!(s.get("missing", "name"), "");
    assert_eq!(Strings::empty().get("app", "name"), "");
}

#[test]
fn title_is_the_application_name() {
    assert_eq!(app().title(), "RusticSort");
    let bare = RusticSortApp::with_source_dir(None, None, Strings::empty());
    assert_eq!(bare.title(), "");
}

#[test]
fn starting_state() {
    let a = app();
    assert_eq!(a.step(), 0);
    assert!(a.rules().is_empty());
    assert!(a.move_records().is_empty());
    assert!(matches!(a.modal(), Modal::Hidden));
    assert_eq!(a.current_page(), Page::Welcome);
    let loaded = vec![SortingRule::new("jpg", "Images", "Pictures")];
    let a = RusticSortApp::with_source_dir(Some(loaded), Some("/d".to_string()), strings());
    assert_eq!(a.rules().len(), 1);
    assert_eq!(a.source_dir(), Some("/d"));
    let a = RusticSortApp::with_source_dir(Some(vec![]), None, strings());
    assert!(a.rules().is_empty());
    let a = RusticSortApp::from_loaded(None, strings());
    assert!(a.rules().is_empty());
}

#[test]
fn back_undoes_next_and_back_stops_at_first_page() {
    let mut a = app();
    assert!(matches!(a.update(Message::NextStep), Action::Nothing));
    assert_eq!(a.step(), 1);
    assert_eq!(a.current_page(), Page::Source);
    a.update(Message::PrevStep);
    assert_eq!(a.step(), 0);
    a.update(Message::PrevStep);
    assert_eq!(a.step(), 0);
    a.update(Message::GoToStep(3));
    assert_eq!(a.current_page(), Page::Summary);
    a.update(Message::PrevStep);
    a.update(Message::NextStep);
    assert_eq!(a.step(), 3);
    a.update(Message::GoToStep(9));
    assert_eq!(a.current_page(), Page::Welcome);
}

#[test]
fn rule_editing() {
    let mut a = app();
    a.update(Message::AddRule);
    assert_eq!(a.rules().len(), 1);
    assert!(a.rules()[0].enabled);
    assert_eq!(a.rules()[0].extension, "");
    a.update(Message::UpdateRuleExtension(0, "jpg".to_string()));
    a.update(Message::UpdateRuleTarget(0, "Images".to_string()));
    a.update(Message::UpdateRuleCategory(0, "Pictures".to_string()));
    a.update(Message::ToggleRule(0, false));
    let r = &a.rules()[0];
    assert_eq!((r.extension.as_str(), r.target_path.as_str(), r.category_name.as_str(), r.enabled), ("jpg", "Images", "Pictures", false));
    assert_eq!(a.enabled_rule_count(), 0);
    a.update(Message::ToggleRule(0, true));
    assert_eq!(a.enabled_rule_count(), 1);
    a.update(Message::ToggleRule(7, false));
    a.update(Message::RemoveRule(7));
    assert_eq!(a.rules().len(), 1);
    a.update(Message::AddRule);
    a.update(Message::RemoveRule(1));
    assert_eq!(a.rules().len(), 1);
    assert_eq!(a.rules()[0].extension, "jpg");
    a.update(Message::RemoveRule(0));
    assert!(a.rules().is_empty());
}

#[test]
fn outside_work_requested() {
    let mut a = app();
    assert!(matches!(a.update(Message::SelectSourceDir), Action::PickSourceDir));
    assert!(matches!(a.update(Message::SaveRules), Action::SaveRules));
    match a.update(Message::OpenWebsite) {
        Action::OpenUrl(u) => assert_eq!(u, "https://example.org"),
        other => panic!("unexpected {:?}", other),
    }
    assert!(matches!(a.update(Message::OpenFolder), Action::Nothing));
    a.update(Message::SourceDirSelected(None));
    assert_eq!(a.source_dir(), None);
    a.update(Message::SourceDirSelected(Some("/home/u/Downloads".to_string())));
    match a.update(Message::OpenFolder) {
        Action::OpenFolder(d) => assert_eq!(d, "/home/u/Downloads"),
        other => panic!("unexpected {:?}", other),
    }
}

#[test]
fn organizing_needs_a_source_directory() {
    let mut a = app();
    assert!(matches!(a.update(Message::Process), Action::Nothing));
    assert_eq!(modal_text(&a), Some("Select a directory first".to_string()));
    a.update(Message::DismissError);
    assert!(matches!(a.modal(), Modal::Hidden));
    a.update(Message::SourceDirSelected(Some("/d".to_string())));
    assert!(matches!(a.update(Message::Process), Action::Organize));
    assert!(matches!(a.modal(), Modal::Processing));
}

#[test]
fn results_and_undo() {
    let mut a = app();
    let rec = MoveRecord {
        original_path: "/d/a.jpg".to_string(),
        new_path: "/d/Images/a.jpg".to_string(),
        created_dir: Some("/d/Images".to_string()),
    };
    a.update(Message::ProcessComplete(vec![rec]));
    assert_eq!(a.step(), 4);
    assert_eq!(a.current_page(), Page::Result);
    assert_eq!(a.move_records().len(), 1);
    assert!(matches!(a.update(Message::UndoMoves), Action::Undo));
    assert!(matches!(a.modal(), Modal::Processing));
    a.update(Message::UndoCompleted(Err("disk full".to_string())));
    assert_eq!(modal_text(&a), Some("disk full".to_string()));
    assert_eq!(a.move_records().len(), 1);
    a.update(Message::UndoCompleted(Ok(12)));
    assert_eq!(modal_text(&a), Some("Undo complete - 12 file(s)".to_string()));
    assert!(a.move_records().is_empty());
    a.update(Message::ProcessComplete(vec![]));
    a.update(Message::GoHome);
    assert_eq!(a.step(), 0);
    assert!(a.move_records().is_empty());
}

#[test]
fn save_outcome_and_dialogs() {
    let mut a = app();
    a.update(Message::RulesSaved(Ok(())));
    assert!(matches!(a.modal(), Modal::Hidden));
    a.update(Message::RulesSaved(Err("permission denied".to_string())));
    assert_eq!(modal_text(&a), Some("Could not save: permission denied".to_string()));
    a.update(Message::ShowAbout);
    assert!(matches!(a.modal(), Modal::About));
    a.update(Message::ShowDeveloper);
    assert!(matches!(a.modal(), Modal::Developer));
    a.update(Message::DismissModal);
    assert!(matches!(a.modal(), Modal::Hidden));
}

#[test]
fn messages_clone() {
    let m = Message::UndoCompleted(Err("x".to_string()));
    assert!(matches!(m.clone(), Message::UndoCompleted(Err(e)) if e == "x"));
    let m = Message::ProcessComplete(vec![MoveRecord {
        original_path: "a".to_string(),
        new_path: "b".to_string(),
        created_dir: None,
    }]);
    assert!(matches!(m.clone(), Message::ProcessComplete(v) if v.len() == 1 && v[0].new_path == "b"));
}

#[test]
fn step_indicator() {
    assert_eq!(step_label(1, "Source", 2), "[1] Source");
    assert_eq!(step_label(2, "Rules", 2), "2. Rules");
    assert_eq!(step_label(3, "Organize", 2), "3. Organize");
    assert_eq!(step_state(2, 2), StepState::Active);
    assert_eq!(step_state(1, 2), StepState::Done);
    assert_eq!(step_state(3, 2), StepState::Pending);
}

#[test]
fn other_messages_leave_rules_source_and_moves_alone() {
    let loaded = vec![SortingRule::new("jpg", "Images", "Pictures")];
    let mut a = RusticSortApp::with_source_dir(Some(loaded), Some("/d".to_string()), strings());
    a.update(Message::ProcessComplete(vec![MoveRecord {
        original_path: "/d/a.jpg".to_string(),
        new_path: "/d/Images/a.jpg".to_string(),
        created_dir: None,
    }]));
    let others = vec![
        Message::NextStep,
        Message::PrevStep,
        Message::GoToStep(2),
        Message::SelectSourceDir,
        Message::SaveRules,
        Message::RulesSaved(Err("e".to_string())),
        Message::Process,
        Message::UndoMoves,
        Message::OpenFolder,
        Message::OpenWebsite,
        Message::ShowAbout,
        Message::ShowDeveloper,
        Message::DismissModal,
        Message::DismissError,
    ];
    for m in others {
        a.update(m);
        assert_eq!(a.rules().len(), 1);
        assert_eq!(a.rules()[0].extension, "jpg");
        assert_eq!(a.source_dir(), Some("/d"));
        assert_eq!(a.move_records().len(), 1);
        assert_eq!(a.title(), "RusticSort");
    }
}

#[test]
fn string_table_from_toml() {
    let text = "title = \"top\"\n[app]\nname = \"RusticSort\"\nversion = 3\nlist = [\"a\"]\n[app.nested]\nname = \"deep\"\n[links]\nwebsite = \"https://example.org\"\n";
    let s = Strings::from_toml(text).unwrap();
    assert_eq!(s.get("app", "name"), "RusticSort");
    assert_eq!(s.get("app", "version"), "");
    assert_eq!(s.get("links", "website"), "https://example.org");
    assert_eq!(s.get("title", "title"), "");
    assert_eq!(s.get("app", "list"), "");
    assert_eq!(s.get("app", "nested"), "");
    assert_eq!(s.get("nested", "name"), "");
    assert!(Strings::from_toml("[app\nname = ").is_none());
    assert_eq!(Strings::from_toml("").unwrap().get("app", "name"), "");
}
