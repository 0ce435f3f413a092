//! The decisions of the wizard-style window: what each user action or finished
//! background job changes in the application state, and which outside work
//! (picking a folder, saving, organizing, undoing, opening) it asks for.
//!
//! The program around the library shows the state, performs the requested
//! work and reports its outcome back as a further message.

use vstd::prelude::*;

use crate::organizer::{duplicate_records, records_view, MoveRecord, MoveRecordView};
use crate::rules::{default_rules, rules_view, RuleView, SortingRule};
use crate::strings::{lookup, Strings};
use crate::text::{decimal, push_decimal};

verus! {

/// What the user did, or what a finished background job reports.
#[derive(Debug)]
pub enum Message {
    GoToStep(usize),
    NextStep,
    PrevStep,
    SelectSourceDir,
    SourceDirSelected(Option<String>),
    AddRule,
    ToggleRule(usize, bool),
    UpdateRuleExtension(usize, String),
    UpdateRuleCategory(usize, String),
    UpdateRuleTarget(usize, String),
    RemoveRule(usize),
    SaveRules,
    /// The outcome of saving the rules, with the error's text on failure.
    RulesSaved(Result<(), String>),
    Process,
    ProcessComplete(Vec<MoveRecord>),
    UndoMoves,
    UndoCompleted(Result<usize, String>),
    DismissError,
    GoHome,
    OpenFolder,
    OpenWebsite,
    ShowAbout,
    ShowDeveloper,
    DismissModal,
}

impl Clone for Message {
    /// A copy of the message. (A list of moves is copied record by record;
    /// two lists with the same records are not known to be the same value,
    /// so the copy is stated to hold the same records.)
    fn clone(&self) -> (r: Self)
        ensures
            !(self is ProcessComplete) ==> r == *self,
            self matches Message::ProcessComplete(a) ==> r matches Message::ProcessComplete(b)
                && b@ == a@,
    {
        match self {
            Message::GoToStep(n) => Message::GoToStep(*n),
            Message::NextStep => Message::NextStep,
            Message::PrevStep => Message::PrevStep,
            Message::SelectSourceDir => Message::SelectSourceDir,
            Message::SourceDirSelected(p) => Message::SourceDirSelected(
                match p {
                    Some(d) => Some(d.clone()),
                    None => None,
                },
            ),
            Message::AddRule => Message::AddRule,
            Message::ToggleRule(i, v) => Message::ToggleRule(*i, *v),
            Message::UpdateRuleExtension(i, v) => Message::UpdateRuleExtension(*i, v.clone()),
            Message::UpdateRuleCategory(i, v) => Message::UpdateRuleCategory(*i, v.clone()),
            Message::UpdateRuleTarget(i, v) => Message::UpdateRuleTarget(*i, v.clone()),
            Message::RemoveRule(i) => Message::RemoveRule(*i),
            Message::SaveRules => Message::SaveRules,
            Message::RulesSaved(r) => Message::RulesSaved(
                match r {
                    Ok(u) => Ok(*u),
                    Err(e) => Err(e.clone()),
                },
            ),
            Message::Process => Message::Process,
            Message::ProcessComplete(records) => Message::ProcessComplete(
                duplicate_records(records.as_slice()),
            ),
            Message::UndoMoves => Message::UndoMoves,
            Message::UndoCompleted(r) => Message::UndoCompleted(
                match r {
                    Ok(n) => Ok(*n),
                    Err(e) => Err(e.clone()),
                },
            ),
            Message::DismissError => Message::DismissError,
            Message::GoHome => Message::GoHome,
            Message::OpenFolder => Message::OpenFolder,
            Message::OpenWebsite => Message::OpenWebsite,
            Message::ShowAbout => Message::ShowAbout,
            Message::ShowDeveloper => Message::ShowDeveloper,
            Message::DismissModal => Message::DismissModal,
        }
    }
}

/// The dialog shown over the current page.
#[derive(Debug, Clone)]
pub enum Modal {
    /// No dialog.
    Hidden,
    About,
    Developer,
    Error(String),
    Processing,
}

/// The contents of a dialog.
pub enum ModalView {
    Hidden,
    About,
    Developer,
    Error(Seq<char>),
    Processing,
}

impl View for Modal {
    type V = ModalView;

    open spec fn view(&self) -> ModalView {
        match self {
            Modal::Hidden => ModalView::Hidden,
            Modal::About => ModalView::About,
            Modal::Developer => ModalView::Developer,
            Modal::Error(e) => ModalView::Error(e@),
            Modal::Processing => ModalView::Processing,
        }
    }
}

/// The outside work that a message asks for.
#[derive(Debug, Clone)]
pub enum Action {
    /// Nothing to do.
    Nothing,
    /// Let the user pick the directory to organize.
    PickSourceDir,
    /// Save the current rules to the configuration file.
    SaveRules,
    /// Organize the source directory with the current rules.
    Organize,
    /// Undo the recorded moves.
    Undo,
    /// Open a web address.
    OpenUrl(String),
    /// Open a directory in the file manager.
    OpenFolder(String),
}

/// The contents of an action.
pub enum ActionView {
    Nothing,
    PickSourceDir,
    SaveRules,
    Organize,
    Undo,
    OpenUrl(Seq<char>),
    OpenFolder(Seq<char>),
}

impl View for Action {
    type V = ActionView;

    open spec fn view(&self) -> ActionView {
        match self {
            Action::Nothing => ActionView::Nothing,
            Action::PickSourceDir => ActionView::PickSourceDir,
            Action::SaveRules => ActionView::SaveRules,
            Action::Organize => ActionView::Organize,
            Action::Undo => ActionView::Undo,
            Action::OpenUrl(u) => ActionView::OpenUrl(u@),
            Action::OpenFolder(d) => ActionView::OpenFolder(d@),
        }
    }
}

/// The state of the application window.
pub struct RusticSortApp {
    step: usize,
    source_dir: Option<String>,
    rules: Vec<SortingRule>,
    move_records: Vec<MoveRecord>,
    modal: Modal,
    strings: Strings,
}

/// The contents of the application state.
pub struct AppView {
    /// The page shown: 0 welcome, 1 source, 2 rules, 3 summary, 4 result.
    pub step: nat,
    pub source_dir: Option<Seq<char>>,
    pub rules: Seq<RuleView>,
    pub records: Seq<MoveRecordView>,
    pub modal: ModalView,
    pub strings: Seq<(Seq<char>, Seq<char>, Seq<char>)>,
}

impl View for RusticSortApp {
    type V = AppView;

    closed spec fn view(&self) -> AppView {
        AppView {
            step: self.step as nat,
            source_dir: match self.source_dir {
                Some(d) => Some(d@),
                None => None,
            },
            rules: rules_view(self.rules@),
            records: records_view(self.move_records@),
            modal: self.modal@,
            strings: self.strings@,
        }
    }
}

/// The rule that "add rule" appends: empty and enabled.
pub open spec fn blank_rule() -> RuleView {
    RuleView {
        extension: Seq::empty(),
        target_path: Seq::empty(),
        category_name: Seq::empty(),
        enabled: true,
    }
}

/// `s` with the dialog `m`.
pub open spec fn with_modal(s: AppView, m: ModalView) -> AppView {
    AppView { modal: m, ..s }
}

/// `s` with its rules replaced.
pub open spec fn with_rules(s: AppView, rules: Seq<RuleView>) -> AppView {
    AppView { rules: rules, ..s }
}

/// `s` with the rule at `i`, if there is one, changed by `f`.
pub open spec fn edit_rule(s: AppView, i: usize, f: spec_fn(RuleView) -> RuleView) -> AppView {
    if i < s.rules.len() {
        with_rules(s, s.rules.update(i as int, f(s.rules[i as int])))
    } else {
        s
    }
}

/// The next state of the application and the outside work to do, when the
/// message `m` arrives in state `s`.
pub open spec fn transition(s: AppView, m: Message) -> (AppView, ActionView) {
    match m {
        Message::GoToStep(n) => (AppView { step: n as nat, ..s }, ActionView::Nothing),
        Message::NextStep => (AppView { step: s.step + 1, ..s }, ActionView::Nothing),
        Message::PrevStep => (
            AppView {
                step: if s.step > 0 {
                    (s.step - 1) as nat
                } else {
                    s.step
                },
                ..s
            },
            ActionView::Nothing,
        ),
        Message::GoHome => (AppView { step: 0, records: Seq::empty(), ..s }, ActionView::Nothing),
        Message::SelectSourceDir => (s, ActionView::PickSourceDir),
        Message::SourceDirSelected(p) => (
            match p {
                Some(d) => AppView { source_dir: Some(d@), ..s },
                None => s,
            },
            ActionView::Nothing,
        ),
        Message::AddRule => (with_rules(s, s.rules.push(blank_rule())), ActionView::Nothing),
        Message::ToggleRule(i, v) => (
            edit_rule(s, i, |r: RuleView| RuleView { enabled: v, ..r }),
            ActionView::Nothing,
        ),
        Message::UpdateRuleExtension(i, v) => (
            edit_rule(s, i, |r: RuleView| RuleView { extension: v@, ..r }),
            ActionView::Nothing,
        ),
        Message::UpdateRuleCategory(i, v) => (
            edit_rule(s, i, |r: RuleView| RuleView { category_name: v@, ..r }),
            ActionView::Nothing,
        ),
        Message::UpdateRuleTarget(i, v) => (
            edit_rule(s, i, |r: RuleView| RuleView { target_path: v@, ..r }),
            ActionView::Nothing,
        ),
        Message::RemoveRule(i) => (
            if i < s.rules.len() {
                with_rules(s, s.rules.remove(i as int))
            } else {
                s
            },
            ActionView::Nothing,
        ),
        Message::SaveRules => (s, ActionView::SaveRules),
        Message::RulesSaved(r) => (
            match r {
                Ok(_) => s,
                Err(e) => with_modal(
                    s,
                    ModalView::Error(
                        lookup(s.strings, "messages"@, "save_failed"@) + ": "@ + e@,
                    ),
                ),
            },
            ActionView::Nothing,
        ),
        Message::Process => match s.source_dir {
            Some(_) => (with_modal(s, ModalView::Processing), ActionView::Organize),
            None => (
                with_modal(
                    s,
                    ModalView::Error(lookup(s.strings, "messages"@, "select_dir_first"@)),
                ),
                ActionView::Nothing,
            ),
        },
        Message::ProcessComplete(records) => (
            AppView {
                records: records_view(records@),
                modal: ModalView::Hidden,
                step: 4,
                ..s
            },
            ActionView::Nothing,
        ),
        Message::UndoMoves => (with_modal(s, ModalView::Processing), ActionView::Undo),
        Message::UndoCompleted(r) => (
            match r {
                Ok(count) => AppView {
                    records: Seq::empty(),
                    modal: ModalView::Error(
                        lookup(s.strings, "messages"@, "undo_success"@) + " - "@ + decimal(
                            count as nat,
                        ) + " file(s)"@,
                    ),
                    ..s
                },
                Err(e) => with_modal(s, ModalView::Error(e@)),
            },
            ActionView::Nothing,
        ),
        Message::OpenWebsite => (s, ActionView::OpenUrl(lookup(s.strings, "links"@, "website"@))),
        Message::OpenFolder => (
            s,
            match s.source_dir {
                Some(d) => ActionView::OpenFolder(d),
                None => ActionView::Nothing,
            },
        ),
        Message::ShowAbout => (with_modal(s, ModalView::About), ActionView::Nothing),
        Message::ShowDeveloper => (with_modal(s, ModalView::Developer), ActionView::Nothing),
        Message::DismissModal => (with_modal(s, ModalView::Hidden), ActionView::Nothing),
        Message::DismissError => (with_modal(s, ModalView::Hidden), ActionView::Nothing),
    }
}


/// The state in which the application starts: the first page, the loaded rules
/// when there are any (else the default rules), no moves and no dialog.
pub open spec fn initial_view(
    loaded: Option<Seq<RuleView>>,
    source_dir: Option<Seq<char>>,
    strings: Seq<(Seq<char>, Seq<char>, Seq<char>)>,
) -> AppView {
    AppView {
        step: 0,
        source_dir: source_dir,
        rules: match loaded {
            Some(r) => if r.len() > 0 {
                r
            } else {
                Seq::empty()
            },
            None => Seq::empty(),
        },
        records: Seq::empty(),
        modal: ModalView::Hidden,
        strings: strings,
    }
}

/// The contents of the rules loaded from the configuration, if any.
pub open spec fn loaded_view(loaded: Option<Vec<SortingRule>>) -> Option<Seq<RuleView>> {
    match loaded {
        Some(v) => Some(rules_view(v@)),
        None => None,
    }
}

/// The contents of an optional directory.
pub open spec fn dir_view(dir: Option<String>) -> Option<Seq<char>> {
    match dir {
        Some(d) => Some(d@),
        None => None,
    }
}

/// The number of enabled rules.
pub open spec fn enabled_count(rules: Seq<RuleView>) -> nat
    decreases rules.len(),
{
    if rules.len() == 0 {
        0
    } else {
        enabled_count(rules.drop_last()) + if rules.last().enabled {
            1nat
        } else {
            0nat
        }
    }
}

impl RusticSortApp {
    /// The starting state, with the rules loaded from the configuration
    /// (`None` when they could not be loaded) and the given source directory.
    pub fn with_source_dir(
        loaded: Option<Vec<SortingRule>>,
        source_dir: Option<String>,
        strings: Strings,
    ) -> (r: Self)
        ensures
            r@ == initial_view(loaded_view(loaded), dir_view(source_dir), strings@),
    {
        let rules = match loaded {
            Some(v) => if v.len() > 0 {
                v
            } else {
                default_rules()
            },
            None => default_rules(),
        };
        let r = RusticSortApp {
            step: 0,
            source_dir,
            rules,
            move_records: Vec::new(),
            modal: Modal::Hidden,
            strings,
        };
        assert(r@.rules =~= initial_view(loaded_view(loaded), r@.source_dir, strings@).rules);
        assert(r@.records =~= Seq::<MoveRecordView>::empty());
        r
    }

    /// The starting state, with the rules loaded from the configuration and the
    /// user's download directory, when there is one, as the source directory.
    pub fn from_loaded(loaded: Option<Vec<SortingRule>>, strings: Strings) -> (r: Self)
        ensures
            exists|d: Option<Seq<char>>|
                r@ == #[trigger] initial_view(loaded_view(loaded), d, strings@),
    {
        let dir = crate::paths::user_download_dir();
        Self::with_source_dir(loaded, dir, strings)
    }

    /// The window title: the application's name from the string table.
    pub fn title(&self) -> (r: String)
        ensures
            r@ == lookup(self@.strings, "app"@, "name"@),
    {
        let mut r = String::new();
        r.append(self.strings.get("app", "name"));
        r
    }

    /// The page shown.
    pub fn step(&self) -> (r: usize)
        ensures
            r == self@.step,
    {
        self.step
    }

    /// The directory to organize, if one is chosen.
    pub fn source_dir(&self) -> (r: Option<&str>)
        ensures
            r matches Some(d) ==> self@.source_dir == Some(d@),
            r is None ==> self@.source_dir is None,
    {
        match &self.source_dir {
            Some(d) => Some(d.as_str()),
            None => None,
        }
    }

    /// The sorting rules.
    pub fn rules(&self) -> (r: &[SortingRule])
        ensures
            rules_view(r@) == self@.rules,
    {
        self.rules.as_slice()
    }

    /// The moves of the last run, for undoing.
    pub fn move_records(&self) -> (r: &[MoveRecord])
        ensures
            records_view(r@) == self@.records,
    {
        self.move_records.as_slice()
    }

    /// The dialog shown.
    pub fn modal(&self) -> (r: &Modal)
        ensures
            r@ == self@.modal,
    {
        &self.modal
    }

    /// The string table.
    pub fn strings(&self) -> (r: &Strings)
        ensures
            r@ == self@.strings,
    {
        &self.strings
    }

    /// The number of enabled rules.
    pub fn enabled_rule_count(&self) -> (r: usize)
        ensures
            r == enabled_count(self@.rules),
    {
        let ghost rv = self@.rules;
        let n = self.rules.len();
        let mut count: usize = 0;
        let mut i: usize = 0;
        while i < n
            invariant
                n == self.rules@.len(),
                rv == rules_view(self.rules@),
                i <= n,
                count <= i,
                count == enabled_count(rv.take(i as int)),
            decreases n - i,
        {
            assert(rv.take((i + 1) as int).drop_last() =~= rv.take(i as int));
            if self.rules[i].enabled {
                count = count + 1;
            }
            i = i + 1;
        }
        assert(rv.take(n as int) =~= rv);
        count
    }

    /// Applies a message to the state and returns the outside work it asks for.
    pub fn update(&mut self, message: Message) -> (a: Action)
        requires
            message is NextStep ==> old(self)@.step < usize::MAX,
        ensures
            (final(self)@, a@) == transition(old(self)@, message),
    {
        let ghost s = self@;
        match message {
            Message::GoToStep(n) => {
                self.step = n;
                Action::Nothing
            },
            Message::NextStep => {
                self.step = self.step + 1;
                Action::Nothing
            },
            Message::PrevStep => {
                if self.step > 0 {
                    self.step = self.step - 1;
                }
                Action::Nothing
            },
            Message::GoHome => {
                self.step = 0;
                self.move_records.clear();
                assert(self@.records =~= Seq::<MoveRecordView>::empty());
                Action::Nothing
            },
            Message::SelectSourceDir => Action::PickSourceDir,
            Message::SourceDirSelected(p) => {
                if let Some(path) = p {
                    self.source_dir = Some(path);
                }
                Action::Nothing
            },
            Message::AddRule => {
                self.rules.push(SortingRule::new("", "", ""));
                proof {
                    reveal_strlit("");
                    assert(""@ =~= Seq::<char>::empty());
                }
                assert(self@.rules =~= s.rules.push(blank_rule()));
                Action::Nothing
            },
            Message::ToggleRule(i, v) => {
                if i < self.rules.len() {
                    self.rules[i].enabled = v;
                    assert(self@.rules =~= s.rules.update(
                        i as int,
                        RuleView { enabled: v, ..s.rules[i as int] },
                    ));
                }
                Action::Nothing
            },
            Message::UpdateRuleExtension(i, v) => {
                if i < self.rules.len() {
                    let ghost vv = v@;
                    self.rules[i].extension = v;
                    assert(self@.rules =~= s.rules.update(
                        i as int,
                        RuleView { extension: vv, ..s.rules[i as int] },
                    ));
                }
                Action::Nothing
            },
            Message::UpdateRuleCategory(i, v) => {
                if i < self.rules.len() {
                    let ghost vv = v@;
                    self.rules[i].category_name = v;
                    assert(self@.rules =~= s.rules.update(
                        i as int,
                        RuleView { category_name: vv, ..s.rules[i as int] },
                    ));
                }
                Action::Nothing
            },
            Message::UpdateRuleTarget(i, v) => {
                if i < self.rules.len() {
                    let ghost vv = v@;
                    self.rules[i].target_path = v;
                    assert(self@.rules =~= s.rules.update(
                        i as int,
                        RuleView { target_path: vv, ..s.rules[i as int] },
                    ));
                }
                Action::Nothing
            },
            Message::RemoveRule(i) => {
                if i < self.rules.len() {
                    self.rules.remove(i);
                    assert(self@.rules =~= s.rules.remove(i as int));
                }
                Action::Nothing
            },
            Message::SaveRules => Action::SaveRules,
            Message::RulesSaved(r) => {
                if let Err(e) = r {
                    let mut text = String::new();
                    text.append(self.strings.get("messages", "save_failed"));
                    text.append(": ");
                    text.append(e.as_str());
                    self.modal = Modal::Error(text);
                }
                Action::Nothing
            },
            Message::Process => {
                if self.source_dir.is_some() {
                    self.modal = Modal::Processing;
                    Action::Organize
                } else {
                    let mut text = String::new();
                    text.append(self.strings.get("messages", "select_dir_first"));
                    self.modal = Modal::Error(text);
                    Action::Nothing
                }
            },
            Message::ProcessComplete(records) => {
                self.move_records = records;
                self.modal = Modal::Hidden;
                self.step = 4;
                Action::Nothing
            },
            Message::UndoMoves => {
                self.modal = Modal::Processing;
                Action::Undo
            },
            Message::UndoCompleted(r) => {
                self.modal = Modal::Hidden;
                match r {
                    Ok(count) => {
                        self.move_records.clear();
                        let mut text = String::new();
                        text.append(self.strings.get("messages", "undo_success"));
                        text.append(" - ");
                        push_decimal(&mut text, count as u64);
                        text.append(" file(s)");
                        self.modal = Modal::Error(text);
                        assert(self@.records =~= Seq::<MoveRecordView>::empty());
                    },
                    Err(e) => {
                        self.modal = Modal::Error(e);
                    },
                }
                Action::Nothing
            },
            Message::OpenWebsite => {
                let mut url = String::new();
                url.append(self.strings.get("links", "website"));
                Action::OpenUrl(url)
            },
            Message::OpenFolder => match &self.source_dir {
                Some(d) => Action::OpenFolder(d.clone()),
                None => Action::Nothing,
            },
            Message::ShowAbout => {
                self.modal = Modal::About;
                Action::Nothing
            },
            Message::ShowDeveloper => {
                self.modal = Modal::Developer;
                Action::Nothing
            },
            Message::DismissModal => {
                self.modal = Modal::Hidden;
                Action::Nothing
            },
            Message::DismissError => {
                self.modal = Modal::Hidden;
                Action::Nothing
            },
        }
    }
}


/// Going back undoes going forward.
pub proof fn law_back_undoes_next(s: AppView)
    ensures
        transition(transition(s, Message::NextStep).0, Message::PrevStep).0 == s,
{
}

/// Going forward undoes going back from any page but the first; going back from
/// the first page stays there.
pub proof fn law_next_undoes_back(s: AppView)
    ensures
        s.step > 0 ==> transition(transition(s, Message::PrevStep).0, Message::NextStep).0 == s,
        s.step == 0 ==> transition(s, Message::PrevStep).0 == s,
{
}

/// Removing the rule just added restores the rules.
pub proof fn law_remove_undoes_add(s: AppView)
    requires
        s.rules.len() < usize::MAX,
    ensures
        transition(transition(s, Message::AddRule).0, Message::RemoveRule(s.rules.len() as usize)).0
            == s,
{
    let added = transition(s, Message::AddRule).0;
    assert(added.rules.remove(s.rules.len() as int) =~= s.rules);
}

/// Setting a rule's enabled flag back to what it was restores the state.
pub proof fn law_toggle_back_restores(s: AppView, i: usize, v: bool)
    requires
        i < s.rules.len(),
    ensures
        transition(
            transition(s, Message::ToggleRule(i, v)).0,
            Message::ToggleRule(i, s.rules[i as int].enabled),
        ).0 == s,
{
    let once = transition(s, Message::ToggleRule(i, v)).0;
    let twice = transition(once, Message::ToggleRule(i, s.rules[i as int].enabled)).0;
    assert(twice.rules =~= s.rules);
}

/// A rule edit at a position where there is no rule changes nothing.
pub proof fn law_edit_outside_rules_is_ignored(s: AppView, i: usize, v: bool, text: String)
    requires
        i >= s.rules.len(),
    ensures
        transition(s, Message::ToggleRule(i, v)) == (s, ActionView::Nothing),
        transition(s, Message::UpdateRuleExtension(i, text)) == (s, ActionView::Nothing),
        transition(s, Message::UpdateRuleCategory(i, text)) == (s, ActionView::Nothing),
        transition(s, Message::UpdateRuleTarget(i, text)) == (s, ActionView::Nothing),
        transition(s, Message::RemoveRule(i)) == (s, ActionView::Nothing),
{
}

/// The messages that change the rules.
pub open spec fn edits_rules(m: Message) -> bool {
    ||| m is AddRule
    ||| m is ToggleRule
    ||| m is UpdateRuleExtension
    ||| m is UpdateRuleCategory
    ||| m is UpdateRuleTarget
    ||| m is RemoveRule
}

/// Only the rule messages change the rules, and they change nothing else; the
/// string table never changes.
pub proof fn law_rules_change_only_by_rule_messages(s: AppView, m: Message)
    ensures
        !edits_rules(m) ==> transition(s, m).0.rules == s.rules,
        edits_rules(m) ==> transition(s, m).0 == with_rules(s, transition(s, m).0.rules),
        transition(s, m).0.strings == s.strings,
{
}

/// The chosen directory changes only when the user picks one, and the
/// recorded moves only when organizing finishes, an undo succeeds or the user
/// goes back to the start.
pub proof fn law_source_and_moves_change_only_by_their_messages(s: AppView, m: Message)
    ensures
        !(m is SourceDirSelected) ==> transition(s, m).0.source_dir == s.source_dir,
        !(m is ProcessComplete || m is UndoCompleted || m is GoHome) ==> transition(s, m).0.records
            == s.records,
{
}

/// A picked folder becomes the folder to organize, whatever was chosen
/// before; a cancelled pick changes nothing.
pub proof fn law_picked_folder_is_taken(s: AppView, d: String)
    ensures
        transition(s, Message::SourceDirSelected(Some(d))).0.source_dir == Some(d@),
        transition(s, Message::SourceDirSelected(Some(d))).0.rules == s.rules,
        transition(s, Message::SourceDirSelected(None)) == (s, ActionView::Nothing),
{
}

/// Removing the rule at `i` drops exactly that rule: the rules before it
/// stay where they are and the ones after it move down by one.
pub proof fn law_remove_rule_drops_that_rule(s: AppView, i: usize)
    requires
        i < s.rules.len(),
    ensures
        ({
            let after = transition(s, Message::RemoveRule(i)).0.rules;
            &&& after.len() == s.rules.len() - 1
            &&& forall|j: int| 0 <= j < i ==> #[trigger] after[j] == s.rules[j]
            &&& forall|j: int| i <= j < after.len() ==> #[trigger] after[j] == s.rules[j + 1]
        }),
{
}

/// Adding a rule keeps the rules and puts an empty, enabled rule after them.
pub proof fn law_add_rule_appends_blank_rule(s: AppView)
    ensures
        ({
            let after = transition(s, Message::AddRule).0.rules;
            &&& after.len() == s.rules.len() + 1
            &&& forall|j: int| 0 <= j < s.rules.len() ==> #[trigger] after[j] == s.rules[j]
            &&& after[s.rules.len() as int].enabled
            &&& after[s.rules.len() as int].extension.len() == 0
            &&& after[s.rules.len() as int].target_path.len() == 0
            &&& after[s.rules.len() as int].category_name.len() == 0
        }),
{
}

/// Editing the rule at `i` changes that rule's one field to the new value and
/// nothing else.
pub proof fn law_rule_edit_changes_one_field(s: AppView, i: usize, v: bool, t: String)
    requires
        i < s.rules.len(),
    ensures
        ({
            let after = transition(s, Message::ToggleRule(i, v)).0.rules;
            &&& after.len() == s.rules.len()
            &&& forall|j: int| 0 <= j < after.len() && j != i ==> #[trigger] after[j] == s.rules[j]
            &&& after[i as int].enabled == v
            &&& after[i as int].extension == s.rules[i as int].extension
            &&& after[i as int].target_path == s.rules[i as int].target_path
            &&& after[i as int].category_name == s.rules[i as int].category_name
        }),
        ({
            let after = transition(s, Message::UpdateRuleExtension(i, t)).0.rules;
            &&& after.len() == s.rules.len()
            &&& forall|j: int| 0 <= j < after.len() && j != i ==> #[trigger] after[j] == s.rules[j]
            &&& after[i as int].extension == t@
            &&& after[i as int].enabled == s.rules[i as int].enabled
            &&& after[i as int].target_path == s.rules[i as int].target_path
            &&& after[i as int].category_name == s.rules[i as int].category_name
        }),
        ({
            let after = transition(s, Message::UpdateRuleTarget(i, t)).0.rules;
            &&& after.len() == s.rules.len()
            &&& forall|j: int| 0 <= j < after.len() && j != i ==> #[trigger] after[j] == s.rules[j]
            &&& after[i as int].target_path == t@
            &&& after[i as int].enabled == s.rules[i as int].enabled
            &&& after[i as int].extension == s.rules[i as int].extension
            &&& after[i as int].category_name == s.rules[i as int].category_name
        }),
        ({
            let after = transition(s, Message::UpdateRuleCategory(i, t)).0.rules;
            &&& after.len() == s.rules.len()
            &&& forall|j: int| 0 <= j < after.len() && j != i ==> #[trigger] after[j] == s.rules[j]
            &&& after[i as int].category_name == t@
            &&& after[i as int].enabled == s.rules[i as int].enabled
            &&& after[i as int].extension == s.rules[i as int].extension
            &&& after[i as int].target_path == s.rules[i as int].target_path
        }),
{
}

/// Going to a page shows that page; going home shows the first page and
/// forgets the recorded moves, keeping the rules and the chosen folder.
pub proof fn law_go_to_page_and_home(s: AppView, n: usize)
    ensures
        transition(s, Message::GoToStep(n)).0.step == n,
        transition(s, Message::GoToStep(n)).0.rules == s.rules,
        transition(s, Message::GoHome).0.step == 0,
        transition(s, Message::GoHome).0.records.len() == 0,
        transition(s, Message::GoHome).0.rules == s.rules,
        transition(s, Message::GoHome).0.source_dir == s.source_dir,
{
}

/// The enabled rules are at most all rules: all of them when every rule is
/// enabled, none when none is.
pub proof fn law_enabled_count_bounds(rules: Seq<RuleView>)
    ensures
        enabled_count(rules) <= rules.len(),
        (forall|i: int| 0 <= i < rules.len() ==> #[trigger] rules[i].enabled) ==> enabled_count(
            rules,
        ) == rules.len(),
        (forall|i: int| 0 <= i < rules.len() ==> !#[trigger] rules[i].enabled) ==> enabled_count(
            rules,
        ) == 0,
    decreases rules.len(),
{
    if rules.len() > 0 {
        law_enabled_count_bounds(rules.drop_last());
        assert(rules.last() == rules[rules.len() - 1]);
        assert forall|i: int| 0 <= i < rules.drop_last().len() implies #[trigger] rules.drop_last()[i]
            == rules[i] by {}
    }
}

/// Organizing is asked for only when a source directory is chosen; without
/// one, the user is told so instead.
pub proof fn law_organize_needs_source(s: AppView)
    ensures
        transition(s, Message::Process).1 is Organize <==> s.source_dir is Some,
        s.source_dir is None ==> transition(s, Message::Process).0.modal == ModalView::Error(
            lookup(s.strings, "messages"@, "select_dir_first"@),
        ),
{
}

/// Finished organizing shows the result page with the new moves; a successful
/// undo forgets them, a failed one keeps them.
pub proof fn law_moves_recorded_until_undone(
    s: AppView,
    records: Vec<MoveRecord>,
    count: usize,
    err: String,
)
    ensures
        transition(s, Message::ProcessComplete(records)).0.records == records_view(records@),
        transition(s, Message::ProcessComplete(records)).0.step == 4,
        transition(s, Message::UndoCompleted(Ok(count))).0.records.len() == 0,
        transition(s, Message::UndoCompleted(Err(err))).0.records == s.records,
{
}

/// Every way of closing a dialog closes it, whatever it was.
pub proof fn law_dismiss_closes_dialog(s: AppView)
    ensures
        transition(s, Message::DismissModal).0 == with_modal(s, ModalView::Hidden),
        transition(s, Message::DismissError).0 == with_modal(s, ModalView::Hidden),
{
}


/// The pages of the window.
#[derive(Debug, Clone, Copy, PartialEq, Eq)]
pub enum Page {
    Welcome,
    Source,
    Rules,
    Summary,
    Result,
}

/// The page shown on step `step`; an unknown step shows the welcome page.
pub open spec fn page_of(step: nat) -> Page {
    if step == 1 {
        Page::Source
    } else if step == 2 {
        Page::Rules
    } else if step == 3 {
        Page::Summary
    } else if step == 4 {
        Page::Result
    } else {
        Page::Welcome
    }
}

/// How a step of the step indicator is shown.
#[derive(Debug, Clone, Copy, PartialEq, Eq)]
pub enum StepState {
    /// The step being worked on.
    Active,
    /// A step already passed.
    Done,
    /// A step still to come.
    Pending,
}

/// The state of step `step_num` while step `current` is shown.
pub open spec fn step_state_of(step_num: nat, current: nat) -> StepState {
    if step_num == current {
        StepState::Active
    } else if step_num < current {
        StepState::Done
    } else {
        StepState::Pending
    }
}

/// The state of step `step_num` while step `current` is shown.
pub fn step_state(step_num: usize, current: usize) -> (r: StepState)
    ensures
        r == step_state_of(step_num as nat, current as nat),
{
    if step_num == current {
        StepState::Active
    } else if step_num < current {
        StepState::Done
    } else {
        StepState::Pending
    }
}

/// The label of step `step_num` in the indicator: `[n] label` for a step
/// already passed, `n. label` otherwise.
pub fn step_label(step_num: usize, label: &str, current: usize) -> (r: String)
    ensures
        step_num < current ==> r@ == seq!['['] + decimal(step_num as nat) + seq![']', ' '] + label@,
        step_num >= current ==> r@ == decimal(step_num as nat) + seq!['.', ' '] + label@,
{
    let mut r = String::new();
    if step_num < current {
        crate::text::push_char(&mut r, '[');
        push_decimal(&mut r, step_num as u64);
        crate::text::push_char(&mut r, ']');
        crate::text::push_char(&mut r, ' ');
        r.append(label);
        assert(r@ =~= seq!['['] + decimal(step_num as nat) + seq![']', ' '] + label@);
    } else {
        push_decimal(&mut r, step_num as u64);
        crate::text::push_char(&mut r, '.');
        crate::text::push_char(&mut r, ' ');
        r.append(label);
        assert(r@ =~= decimal(step_num as nat) + seq!['.', ' '] + label@);
    }
    r
}

impl RusticSortApp {
    /// The page to show.
    pub fn current_page(&self) -> (r: Page)
        ensures
            r == page_of(self@.step),
    {
        if self.step == 1 {
            Page::Source
        } else if self.step == 2 {
            Page::Rules
        } else if self.step == 3 {
            Page::Summary
        } else if self.step == 4 {
            Page::Result
        } else {
            Page::Welcome
        }
    }
}

} // verus!
