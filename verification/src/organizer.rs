//! The organizer's decisions: which rule sorts a file, which name it gets in
//! its target folder, and what undoing a batch of moves amounts to.

use vstd::prelude::*;

use crate::rules::{rules_view, RuleView, SortingRule};
use crate::paths::{
    extension_of, file_extension, file_name, file_name_of, file_stem, file_stem_of, join_path,
    is_parent_name, join_spec, law_name_splits_at_last_dot,
};
use crate::text::{
    ascii_lower, decimal, eq_ignore_ascii_case, eq_ignore_ascii_case_spec, lemma_decimal_injective,
    lemma_decimal_len, push_char, push_decimal, str_eq, law_ignore_case_is_letter_case_only,
    same_up_to_ascii_case,
};

verus! {

/// A rule applies to an extension when it is enabled and its extension equals
/// the given one without regard to ASCII case.
pub open spec fn rule_applies(rule: RuleView, ext: Seq<char>) -> bool {
    rule.enabled && eq_ignore_ascii_case_spec(rule.extension, ext)
}

/// `i` is the position of the first rule that applies to `ext`.
pub open spec fn is_first_applicable(rules: Seq<RuleView>, ext: Seq<char>, i: int) -> bool {
    &&& 0 <= i < rules.len()
    &&& rule_applies(rules[i], ext)
    &&& forall|j: int| 0 <= j < i ==> !rule_applies(#[trigger] rules[j], ext)
}

/// The target folder of the first enabled rule whose extension matches `ext`.
pub open spec fn matched_target(rules: Seq<RuleView>, ext: Seq<char>) -> Option<Seq<char>> {
    if exists|i: int| is_first_applicable(rules, ext, i) {
        Some(rules[choose|i: int| is_first_applicable(rules, ext, i)].target_path)
    } else {
        None
    }
}

/// There is at most one first applicable rule.
pub proof fn lemma_first_applicable_unique(rules: Seq<RuleView>, ext: Seq<char>, i: int, k: int)
    requires
        is_first_applicable(rules, ext, i),
        is_first_applicable(rules, ext, k),
    ensures
        i == k,
{
    if i < k {
        assert(!rule_applies(rules[i], ext));
    } else if k < i {
        assert(!rule_applies(rules[k], ext));
    }
}

/// Matches a file extension to a target path based on the enabled rules.
pub fn match_rule<'a>(extension: &str, rules: &'a [SortingRule]) -> (r: Option<&'a str>)
    ensures
        r matches Some(t) ==> matched_target(rules_view(rules@), extension@) == Some(t@),
        r is None ==> matched_target(rules_view(rules@), extension@) is None,
{
    let ghost rv = rules_view(rules@);
    let n = rules.len();
    let mut i: usize = 0;
    while i < n
        invariant
            n == rules@.len(),
            rv == rules_view(rules@),
            i <= n,
            forall|j: int| 0 <= j < i ==> !rule_applies(#[trigger] rv[j], extension@),
        decreases n - i,
    {
        let rule = &rules[i];
        if rule.enabled && eq_ignore_ascii_case(rule.extension.as_str(), extension) {
            proof {
                assert(is_first_applicable(rv, extension@, i as int));
                let c = choose|c: int| is_first_applicable(rv, extension@, c);
                lemma_first_applicable_unique(rv, extension@, i as int, c);
            }
            return Some(rule.target_path.as_str());
        }
        assert(!rule_applies(rv[i as int], extension@));
        i = i + 1;
    }
    proof {
        assert forall|c: int| !is_first_applicable(rv, extension@, c) by {
            if 0 <= c < rv.len() {
                assert(!rule_applies(rv[c], extension@));
            }
        }
    }
    None
}

/// Extensions that differ only in the case of ASCII letters are sorted alike.
pub proof fn law_match_ignores_ascii_case(rules: Seq<RuleView>, a: Seq<char>, b: Seq<char>)
    requires
        eq_ignore_ascii_case_spec(a, b),
    ensures
        matched_target(rules, a) == matched_target(rules, b),
{
    assert forall|r: RuleView| rule_applies(r, a) == rule_applies(r, b) by {
        if eq_ignore_ascii_case_spec(r.extension, a) {
            assert forall|i: int| 0 <= i < r.extension.len() implies #[trigger] ascii_lower(
                r.extension[i],
            ) == ascii_lower(b[i]) by {
                assert(ascii_lower(r.extension[i]) == ascii_lower(a[i]));
                assert(ascii_lower(a[i]) == ascii_lower(b[i]));
            }
        }
        if eq_ignore_ascii_case_spec(r.extension, b) {
            assert forall|i: int| 0 <= i < r.extension.len() implies #[trigger] ascii_lower(
                r.extension[i],
            ) == ascii_lower(a[i]) by {
                assert(ascii_lower(r.extension[i]) == ascii_lower(b[i]));
                assert(ascii_lower(a[i]) == ascii_lower(b[i]));
            }
        }
    }
    assert forall|i: int| is_first_applicable(rules, a, i) == is_first_applicable(rules, b, i) by {
        if 0 <= i < rules.len() {
            assert(rule_applies(rules[i], a) == rule_applies(rules[i], b));
            assert forall|j: int| 0 <= j < i implies rule_applies(#[trigger] rules[j], a)
                == rule_applies(rules[j], b) by {}
        }
    }
}

/// Only an enabled rule whose extension matches can be the one applied.
pub proof fn law_match_is_enabled_rule(rules: Seq<RuleView>, ext: Seq<char>)
    ensures
        matched_target(rules, ext) matches Some(t) ==> exists|i: int|
            0 <= i < rules.len() && rules[i].enabled && eq_ignore_ascii_case_spec(
                rules[i].extension,
                ext,
            ) && rules[i].target_path == t,
        matched_target(rules, ext) is None <==> forall|i: int|
            0 <= i < rules.len() ==> !rule_applies(#[trigger] rules[i], ext),
{
    if exists|i: int| is_first_applicable(rules, ext, i) {
        let c = choose|i: int| is_first_applicable(rules, ext, i);
        assert(rules[c].enabled);
    } else {
        assert forall|i: int| 0 <= i < rules.len() implies !rule_applies(
            #[trigger] rules[i],
            ext,
        ) by {
            if rule_applies(rules[i], ext) {
                lemma_has_first_applicable(rules, ext, i);
            }
        }
    }
}

/// A match stays the same when more rules are appended after the rules.
pub proof fn law_match_kept_when_rules_appended(
    rules: Seq<RuleView>,
    more: Seq<RuleView>,
    ext: Seq<char>,
)
    ensures
        matched_target(rules, ext) is Some ==> matched_target(rules + more, ext) == matched_target(
            rules,
            ext,
        ),
{
    if matched_target(rules, ext) is Some {
        let all = rules + more;
        let c = choose|i: int| is_first_applicable(rules, ext, i);
        assert(is_first_applicable(all, ext, c)) by {
            assert(all[c] == rules[c]);
            assert forall|j: int| 0 <= j < c implies !rule_applies(#[trigger] all[j], ext) by {
                assert(all[j] == rules[j]);
                assert(!rule_applies(rules[j], ext));
            }
        }
        let d = choose|i: int| is_first_applicable(all, ext, i);
        lemma_first_applicable_unique(all, ext, c, d);
    }
}

/// Inserting a disabled rule anywhere never changes which target a file gets.
pub proof fn law_disabled_rule_inserted_is_ignored(
    rules: Seq<RuleView>,
    i: int,
    rule: RuleView,
    ext: Seq<char>,
)
    requires
        0 <= i <= rules.len(),
        !rule.enabled,
    ensures
        matched_target(rules.insert(i, rule), ext) == matched_target(rules, ext),
{
    let ins = rules.insert(i, rule);
    assert(!rule_applies(rule, ext));
    if exists|k: int| is_first_applicable(rules, ext, k) {
        let c = choose|k: int| is_first_applicable(rules, ext, k);
        let c2 = if c < i {
            c
        } else {
            c + 1
        };
        assert(ins[c2] == rules[c]);
        assert forall|j: int| 0 <= j < c2 implies !rule_applies(#[trigger] ins[j], ext) by {
            if j < i {
                assert(ins[j] == rules[j]);
            } else if j > i {
                assert(ins[j] == rules[j - 1]);
            }
        }
        assert(is_first_applicable(ins, ext, c2));
        let d = choose|k: int| is_first_applicable(ins, ext, k);
        lemma_first_applicable_unique(ins, ext, c2, d);
    } else {
        if exists|k: int| is_first_applicable(ins, ext, k) {
            let d = choose|k: int| is_first_applicable(ins, ext, k);
            assert(d != i);
            let k = if d < i {
                d
            } else {
                d - 1
            };
            assert(rules[k] == ins[d]);
            lemma_has_first_applicable(rules, ext, k);
        }
    }
}

/// Removing a disabled rule never changes which target a file gets.
pub proof fn law_disabled_rule_removed_is_ignored(rules: Seq<RuleView>, i: int, ext: Seq<char>)
    requires
        0 <= i < rules.len(),
        !rules[i].enabled,
    ensures
        matched_target(rules.remove(i), ext) == matched_target(rules, ext),
{
    assert(rules.remove(i).insert(i, rules[i]) =~= rules);
    law_disabled_rule_inserted_is_ignored(rules.remove(i), i, rules[i], ext);
}

/// When some rule applies, a first one does.
proof fn lemma_has_first_applicable(rules: Seq<RuleView>, ext: Seq<char>, i: int)
    requires
        0 <= i < rules.len(),
        rule_applies(rules[i], ext),
    ensures
        exists|k: int| is_first_applicable(rules, ext, k),
    decreases i,
{
    if exists|j: int| 0 <= j < i && rule_applies(rules[j], ext) {
        let j = choose|j: int| 0 <= j < i && rule_applies(rules[j], ext);
        lemma_has_first_applicable(rules, ext, j);
    } else {
        assert(is_first_applicable(rules, ext, i));
    }
}


/// The name tried for the `counter`-th time for a file with stem `stem` and
/// extension `ext`: `stem.ext` first, then `stem_1.ext`, `stem_2.ext`, ...
pub open spec fn candidate_name(stem: Seq<char>, ext: Seq<char>, counter: nat) -> Seq<char> {
    if counter == 0 {
        stem + seq!['.'] + ext
    } else {
        stem + seq!['_'] + decimal(counter) + seq!['.'] + ext
    }
}

/// No two tries give the same name, so the search for a free name ends.
pub proof fn law_candidate_names_distinct(stem: Seq<char>, ext: Seq<char>, i: nat, j: nat)
    requires
        i != j,
    ensures
        candidate_name(stem, ext, i) != candidate_name(stem, ext, j),
{
    lemma_decimal_len(i);
    lemma_decimal_len(j);
    let ci = candidate_name(stem, ext, i);
    let cj = candidate_name(stem, ext, j);
    if i > 0 {
        assert(ci.len() == stem.len() + 2 + decimal(i).len() + ext.len());
    } else {
        assert(ci.len() == stem.len() + 1 + ext.len());
    }
    if j > 0 {
        assert(cj.len() == stem.len() + 2 + decimal(j).len() + ext.len());
    } else {
        assert(cj.len() == stem.len() + 1 + ext.len());
    }
    if i > 0 && j > 0 && ci == cj {
        let s = stem.len() as int;
        assert(decimal(i).len() == decimal(j).len());
        assert(ci.subrange(s + 1, s + 1 + decimal(i).len()) =~= decimal(i));
        assert(cj.subrange(s + 1, s + 1 + decimal(j).len()) =~= decimal(j));
        lemma_decimal_injective(i, j);
    }
}

/// Every candidate name starts with the file's stem and ends with a `.` and
/// its extension: a moved file keeps its extension.
pub proof fn law_candidate_keeps_stem_and_extension(stem: Seq<char>, ext: Seq<char>, counter: nat)
    ensures
        candidate_name(stem, ext, counter).len() > stem.len() + ext.len(),
        candidate_name(stem, ext, counter).take(stem.len() as int) == stem,
        candidate_name(stem, ext, counter).skip(
            candidate_name(stem, ext, counter).len() - ext.len() - 1,
        ) == seq!['.'] + ext,
{
    let c = candidate_name(stem, ext, counter);
    assert(c.take(stem.len() as int) =~= stem);
    assert(c.skip(c.len() - ext.len() - 1) =~= seq!['.'] + ext);
}

/// Builds the `counter`-th candidate name for a file.
pub fn candidate_file_name(stem: &str, ext: &str, counter: u64) -> (r: String)
    ensures
        r@ == candidate_name(stem@, ext@, counter as nat),
{
    let mut r = String::new();
    r.append(stem);
    if counter > 0 {
        push_char(&mut r, '_');
        push_decimal(&mut r, counter);
    }
    push_char(&mut r, '.');
    r.append(ext);
    assert(r@ =~= candidate_name(stem@, ext@, counter as nat));
    r
}

/// The contents of a list of names.
pub open spec fn names_view(names: Seq<String>) -> Seq<Seq<char>> {
    names.map_values(|s: String| s@)
}

/// Whether `name` is one of `names`.
pub fn contains_name(names: &[String], name: &str) -> (r: bool)
    ensures
        r == names_view(names@).contains(name@),
{
    let ghost nv = names_view(names@);
    let n = names.len();
    let mut i: usize = 0;
    while i < n
        invariant
            n == names@.len(),
            nv == names_view(names@),
            i <= n,
            forall|j: int| 0 <= j < i ==> nv[j] != name@,
        decreases n - i,
    {
        if str_eq(names[i].as_str(), name) {
            assert(nv[i as int] == name@);
            return true;
        }
        i = i + 1;
    }
    false
}

/// The path of the `counter`-th try for a file moved into `dir`.
pub open spec fn candidate_path(dir: Seq<char>, stem: Seq<char>, ext: Seq<char>, counter: nat) -> Seq<
    char,
> {
    join_spec(dir, candidate_name(stem, ext, counter))
}

/// No two tries give the same path, whatever the stem and extension hold.
pub proof fn law_candidate_paths_distinct(
    dir: Seq<char>,
    stem: Seq<char>,
    ext: Seq<char>,
    i: nat,
    j: nat,
)
    requires
        i != j,
    ensures
        candidate_path(dir, stem, ext, i) != candidate_path(dir, stem, ext, j),
{
    law_candidate_names_distinct(stem, ext, i, j);
    let ci = candidate_name(stem, ext, i);
    let cj = candidate_name(stem, ext, j);
    lemma_decimal_len(i);
    lemma_decimal_len(j);
    // Both names start alike: with the stem's first character, or, for an
    // empty stem, with `.` or `_`; so both are absolute or both are not.
    if stem.len() > 0 {
        assert(ci[0] == stem[0]);
        assert(cj[0] == stem[0]);
    } else {
        assert(ci[0] == '.' || ci[0] == '_');
        assert(cj[0] == '.' || cj[0] == '_');
    }
    let pi = candidate_path(dir, stem, ext, i);
    let pj = candidate_path(dir, stem, ext, j);
    if pi == pj && !(ci[0] == '/') {
        let prefix = if dir.len() == 0 || dir.last() == '/' {
            dir
        } else {
            dir.push('/')
        };
        assert(pi == prefix + ci);
        assert(pj == prefix + cj);
        assert(ci =~= pi.subrange(prefix.len() as int, pi.len() as int));
        assert(cj =~= pj.subrange(prefix.len() as int, pj.len() as int));
    }
}

/// `k` is the first try whose path is not among `taken`.
pub open spec fn is_first_free(
    taken: Seq<Seq<char>>,
    dir: Seq<char>,
    stem: Seq<char>,
    ext: Seq<char>,
    k: nat,
) -> bool {
    &&& !taken.contains(candidate_path(dir, stem, ext, k))
    &&& forall|j: nat| j < k ==> taken.contains(#[trigger] candidate_path(dir, stem, ext, j))
}

/// The paths of the first `count` tries for a file moved into `target_dir`,
/// in order.
pub fn destination_candidates(target_dir: &str, stem: &str, ext: &str, count: usize) -> (r: Vec<
    String,
>)
    ensures
        r@.len() == count,
        forall|k: int| 0 <= k < count ==> #[trigger] r@[k]@ == candidate_path(
            target_dir@,
            stem@,
            ext@,
            k as nat,
        ),
{
    let mut r: Vec<String> = Vec::new();
    let mut k: usize = 0;
    while k < count
        invariant
            k <= count,
            r@.len() == k,
            forall|j: int| 0 <= j < k ==> #[trigger] r@[j]@ == candidate_path(
                target_dir@,
                stem@,
                ext@,
                j as nat,
            ),
        decreases count - k,
    {
        let name = candidate_file_name(stem, ext, k as u64);
        r.push(join_path(target_dir, name.as_str()));
        k = k + 1;
    }
    r
}

/// Computes a safe file path to avoid overwriting existing files: the path in
/// `target_dir` of the first candidate name whose path is not among
/// `existing`, the paths that already exist. At most as many tries as there
/// are existing paths are skipped.
pub fn get_safe_destination_path(
    target_dir: &str,
    original_name: &str,
    extension: &str,
    existing: &[String],
) -> (r: String)
    ensures
        exists|k: nat|
            k <= existing@.len() && #[trigger] is_first_free(
                names_view(existing@),
                target_dir@,
                original_name@,
                extension@,
                k,
            ) && r@ == candidate_path(target_dir@, original_name@, extension@, k),
{
    let ghost taken = names_view(existing@);
    let ghost dir = target_dir@;
    let ghost stem = original_name@;
    let ghost ext = extension@;
    let ghost mut seen: Set<Seq<char>> = Set::empty();
    let n = existing.len();
    let mut counter: usize = 0;
    let mut candidate = join_path(target_dir, candidate_file_name(original_name, extension, 0).as_str());
    while contains_name(existing, candidate.as_str())
        invariant
            taken == names_view(existing@),
            dir == target_dir@,
            stem == original_name@,
            ext == extension@,
            candidate@ == candidate_path(dir, stem, ext, counter as nat),
            forall|j: nat| j < counter ==> taken.contains(#[trigger] candidate_path(dir, stem, ext, j)),
            seen.finite(),
            seen.len() == counter,
            seen.subset_of(taken.to_set()),
            forall|s: Seq<char>|
                seen.contains(s) ==> exists|j: nat|
                    j < counter && s == candidate_path(dir, stem, ext, j),
            n == existing@.len(),
            counter <= n,
        decreases n - counter,
    {
        proof {
            let c = candidate_path(dir, stem, ext, counter as nat);
            if seen.contains(c) {
                let j = choose|j: nat| j < counter && c == candidate_path(dir, stem, ext, j);
                law_candidate_paths_distinct(dir, stem, ext, j, counter as nat);
            }
            let grown = seen.insert(c);
            assert(taken.to_set().contains(c));
            taken.lemma_cardinality_of_set();
            vstd::seq_lib::seq_to_set_is_finite(taken);
            vstd::set_lib::lemma_len_subset(grown, taken.to_set());
            assert(forall|s: Seq<char>|
                grown.contains(s) ==> exists|j: nat|
                    j < counter + 1 && s == candidate_path(dir, stem, ext, j));
            assert(grown.len() == counter + 1);
            assert(taken.len() == existing@.len());
            seen = grown;
        }
        assert(counter + 1 <= n);
        counter = counter + 1;
        candidate = join_path(
            target_dir,
            candidate_file_name(original_name, extension, counter as u64).as_str(),
        );
    }
    assert(is_first_free(taken, dir, stem, ext, counter as nat));
    candidate
}


/// A single file move, kept so that it can be undone.
#[derive(Debug, Clone)]
pub struct MoveRecord {
    pub original_path: String,
    pub new_path: String,
    /// The target directory, when this move had to create it.
    pub created_dir: Option<String>,
}

/// The contents of a move record.
pub struct MoveRecordView {
    pub original_path: Seq<char>,
    pub new_path: Seq<char>,
    pub created_dir: Option<Seq<char>>,
}

impl View for MoveRecord {
    type V = MoveRecordView;

    open spec fn view(&self) -> MoveRecordView {
        MoveRecordView {
            original_path: self.original_path@,
            new_path: self.new_path@,
            created_dir: match self.created_dir {
                Some(d) => Some(d@),
                None => None,
            },
        }
    }
}

/// The contents of a list of move records.
pub open spec fn records_view(records: Seq<MoveRecord>) -> Seq<MoveRecordView> {
    records.map_values(|r: MoveRecord| r@)
}

impl MoveRecord {
    /// A copy of this record.
    pub fn duplicate(&self) -> (r: Self)
        ensures
            r == *self,
    {
        MoveRecord {
            original_path: self.original_path.clone(),
            new_path: self.new_path.clone(),
            created_dir: match &self.created_dir {
                Some(d) => Some(d.clone()),
                None => None,
            },
        }
    }
}

/// A copy of a list of move records.
pub fn duplicate_records(records: &[MoveRecord]) -> (r: Vec<MoveRecord>)
    ensures
        r@ == records@,
{
    let mut r: Vec<MoveRecord> = Vec::new();
    let n = records.len();
    let mut i: usize = 0;
    while i < n
        invariant
            n == records@.len(),
            i <= n,
            r@ == records@.subrange(0, i as int),
        decreases n - i,
    {
        r.push(records[i].duplicate());
        assert(r@ =~= records@.subrange(0, (i + 1) as int));
        i = i + 1;
    }
    assert(records@.subrange(0, n as int) =~= records@);
    r
}

/// Where a file goes: the folder to move it into and the parts of its new name.
pub struct MovePlan {
    pub target_dir: String,
    pub stem: String,
    pub extension: String,
}

/// The contents of a move plan.
pub struct MovePlanView {
    pub target_dir: Seq<char>,
    pub stem: Seq<char>,
    pub extension: Seq<char>,
}

impl View for MovePlan {
    type V = MovePlanView;

    open spec fn view(&self) -> MovePlanView {
        MovePlanView { target_dir: self.target_dir@, stem: self.stem@, extension: self.extension@ }
    }
}

/// The plan for the file named `file_name` in `source_dir`: none when it has no
/// extension or no enabled rule matches it; otherwise the rule's folder below
/// `source_dir`, with the file's stem and extension.
pub open spec fn move_plan_of(file_name: Seq<char>, source_dir: Seq<char>, rules: Seq<RuleView>) -> Option<
    MovePlanView,
> {
    match extension_of(file_name) {
        None => None,
        Some(ext) => match matched_target(rules, ext) {
            None => None,
            Some(target) => Some(
                MovePlanView {
                    target_dir: join_spec(source_dir, target),
                    stem: file_stem_of(file_name),
                    extension: ext,
                },
            ),
        },
    }
}

/// Decides where the file named `file_name`, found in `source_dir`, is to be moved.
pub fn plan_file_move(file_name: &str, source_dir: &str, rules: &[SortingRule]) -> (r: Option<
    MovePlan,
>)
    ensures
        r matches Some(p) ==> move_plan_of(file_name@, source_dir@, rules_view(rules@)) == Some(p@),
        r is None ==> move_plan_of(file_name@, source_dir@, rules_view(rules@)) is None,
{
    let ext = file_extension(file_name);
    match ext {
        None => None,
        Some(e) => {
            let target = match_rule(e.as_str(), rules);
            match target {
                None => None,
                Some(t) => {
                    let plan = MovePlan {
                        target_dir: join_path(source_dir, t),
                        stem: file_stem(file_name),
                        extension: e,
                    };
                    Some(plan)
                },
            }
        },
    }
}

/// How many of the moves were undone.
pub open spec fn restored_count(flags: Seq<bool>) -> nat
    decreases flags.len(),
{
    if flags.len() == 0 {
        0
    } else {
        restored_count(flags.drop_last()) + if flags.last() {
            1nat
        } else {
            0nat
        }
    }
}

/// The directories to remove after undoing moves from the last to the first,
/// once the last `m` records have been looked at: the directory that each undone
/// move created, each one once, in the order in which they come up.
pub open spec fn dirs_to_remove(records: Seq<MoveRecordView>, flags: Seq<bool>, m: nat) -> Seq<
    Seq<char>,
>
    decreases m,
{
    if m == 0 || m > records.len() {
        seq![]
    } else {
        let before = dirs_to_remove(records, flags, (m - 1) as nat);
        let i = records.len() - m;
        match records[i].created_dir {
            Some(d) => if flags[i] && !before.contains(d) {
                before.push(d)
            } else {
                before
            },
            None => before,
        }
    }
}

/// What undoing a batch of moves leaves to report and to clean up.
pub struct UndoSummary {
    /// The number of files moved back.
    pub restored: usize,
    /// The directories that the undone moves had created, to remove if empty.
    pub dirs_to_remove: Vec<String>,
}

/// Sums up an undo, where `restored[i]` tells whether the move `records[i]` was
/// undone. Moves are undone from the last to the first.
pub fn summarize_undo(records: &[MoveRecord], restored: &[bool]) -> (r: UndoSummary)
    requires
        restored@.len() == records@.len(),
    ensures
        r.restored == restored_count(restored@),
        names_view(r.dirs_to_remove@) == dirs_to_remove(
            records_view(records@),
            restored@,
            records@.len(),
        ),
{
    let ghost rv = records_view(records@);
    let n = records.len();
    let mut count: usize = 0;
    let mut dirs: Vec<String> = Vec::new();
    let mut m: usize = 0;
    while m < n
        invariant
            n == records@.len(),
            n == restored@.len(),
            rv == records_view(records@),
            m <= n,
            count == restored_count(restored@.subrange((n - m) as int, n as int)),
            count <= m,
            names_view(dirs@) == dirs_to_remove(rv, restored@, m as nat),
        decreases n - m,
    {
        let i = n - 1 - m;
        let ghost before = dirs@;
        proof {
            let tail = restored@.subrange(i as int, n as int);
            assert(tail.drop_last() =~= restored@.subrange(i as int, (n - 1) as int));
            assert(restored@.subrange((n - m) as int, n as int) =~= tail.drop_first());
            lemma_restored_count_front(tail);
        }
        if restored[i] {
            count = count + 1;
            match &records[i].created_dir {
                Some(d) => {
                    if !contains_name(dirs.as_slice(), d.as_str()) {
                        dirs.push(d.clone());
                        assert(names_view(dirs@) =~= names_view(before).push(d@));
                    }
                },
                None => {},
            }
        }
        m = m + 1;
    }
    assert(restored@.subrange(0, n as int) =~= restored@);
    UndoSummary { restored: count, dirs_to_remove: dirs }
}

/// Counting from the front gives the same as counting from the back.
proof fn lemma_restored_count_front(flags: Seq<bool>)
    requires
        flags.len() > 0,
    ensures
        restored_count(flags) == restored_count(flags.drop_first()) + if flags[0] {
            1nat
        } else {
            0nat
        },
    decreases flags.len(),
{
    if flags.len() > 1 {
        lemma_restored_count_front(flags.drop_last());
        assert(flags.drop_last().drop_first() =~= flags.drop_first().drop_last());
        assert(flags.drop_first().last() == flags.last());
        assert(flags.drop_last()[0] == flags[0]);
    } else {
        assert(restored_count(flags.drop_first()) == 0);
        assert(restored_count(flags.drop_last()) == 0);
        assert(flags.last() == flags[0]);
    }
}


/// Undoing never reports more restored files than there were moves.
pub proof fn law_restored_at_most_moves(flags: Seq<bool>)
    ensures
        restored_count(flags) <= flags.len(),
    decreases flags.len(),
{
    if flags.len() > 0 {
        law_restored_at_most_moves(flags.drop_last());
    }
}

/// When every move was undone the count is the number of moves; when none
/// was, it is zero.
pub proof fn law_restored_count_extremes(flags: Seq<bool>)
    ensures
        (forall|i: int| 0 <= i < flags.len() ==> #[trigger] flags[i]) ==> restored_count(flags)
            == flags.len(),
        (forall|i: int| 0 <= i < flags.len() ==> !#[trigger] flags[i]) ==> restored_count(flags)
            == 0,
    decreases flags.len(),
{
    if flags.len() > 0 {
        law_restored_count_extremes(flags.drop_last());
        assert(flags.last() == flags[flags.len() - 1]);
        assert forall|i: int| 0 <= i < flags.drop_last().len() implies #[trigger] flags.drop_last()[i]
            == flags[i] by {}
    }
}

/// After undoing, each directory is listed for removal at most once, and the
/// list holds exactly the directories created by the moves that were undone.
pub proof fn law_undo_cleans_created_dirs_once(
    records: Seq<MoveRecordView>,
    flags: Seq<bool>,
    m: nat,
)
    requires
        flags.len() == records.len(),
        m <= records.len(),
    ensures
        dirs_to_remove(records, flags, m).no_duplicates(),
        forall|d: Seq<char>|
            dirs_to_remove(records, flags, m).contains(d) <==> exists|i: int|
                records.len() - m <= i < records.len() && flags[i] && #[trigger] records[i].created_dir
                    == Some(d),
    decreases m,
{
    if m > 0 {
        let prev_m = (m - 1) as nat;
        law_undo_cleans_created_dirs_once(records, flags, prev_m);
        let before = dirs_to_remove(records, flags, prev_m);
        let i = records.len() - m;
        assert forall|d: Seq<char>|
            dirs_to_remove(records, flags, m).contains(d) <==> exists|k: int|
                records.len() - m <= k < records.len() && flags[k] && #[trigger] records[k].created_dir
                    == Some(d) by {
            if dirs_to_remove(records, flags, m).contains(d) {
                if before.contains(d) {
                    let k = choose|k: int|
                        records.len() - prev_m <= k < records.len() && flags[k]
                            && #[trigger] records[k].created_dir == Some(d);
                    assert(records.len() - m <= k);
                } else {
                    assert(records[i].created_dir == Some(d));
                }
            }
            if exists|k: int|
                records.len() - m <= k < records.len() && flags[k] && #[trigger] records[k].created_dir
                    == Some(d) {
                let k = choose|k: int|
                    records.len() - m <= k < records.len() && flags[k] && #[trigger] records[k].created_dir
                        == Some(d);
                if k == i {
                    if !before.contains(d) {
                        assert(dirs_to_remove(records, flags, m) == before.push(d));
                        assert(before.push(d)[before.len() as int] == d);
                    }
                } else {
                    assert(before.contains(d));
                }
                let now = dirs_to_remove(records, flags, m);
                if before.contains(d) {
                    let j = choose|j: int| 0 <= j < before.len() && before[j] == d;
                    assert(now.len() >= before.len());
                    assert(now[j] == d);
                }
            }
        }
    }
}


/// How many matching files the summary lists by name.
pub const PREVIEW_LIMIT: usize = 15;

/// A file that a rule will sort, as the summary shows it.
pub struct MatchPreview {
    pub file_name: String,
    pub target_path: String,
}

/// What the summary before organizing shows: how many files will move, and
/// the first of them with their target folders.
pub struct MatchSummary {
    pub count: usize,
    pub preview: Vec<MatchPreview>,
}

/// The contents of a list of previews.
pub open spec fn previews_view(p: Seq<MatchPreview>) -> Seq<(Seq<char>, Seq<char>)> {
    p.map_values(|m: MatchPreview| (m.file_name@, m.target_path@))
}

/// The files among `names` that an enabled rule sorts, in order, each with the
/// target folder of its rule.
pub open spec fn sorted_files(names: Seq<Seq<char>>, rules: Seq<RuleView>) -> Seq<
    (Seq<char>, Seq<char>),
>
    decreases names.len(),
{
    if names.len() == 0 {
        seq![]
    } else {
        let before = sorted_files(names.drop_last(), rules);
        let name = names.last();
        match extension_of(name) {
            Some(ext) => match matched_target(rules, ext) {
                Some(t) => before.push((name, t)),
                None => before,
            },
            None => before,
        }
    }
}

/// The smaller of two numbers.
pub open spec fn min_nat(a: nat, b: nat) -> nat {
    if a <= b {
        a
    } else {
        b
    }
}

/// Counts the files among `file_names` that the rules will sort, and lists the
/// first `PREVIEW_LIMIT` of them.
pub fn summarize_matches(file_names: &[String], rules: &[SortingRule]) -> (r: MatchSummary)
    ensures
        r.count == sorted_files(names_view(file_names@), rules_view(rules@)).len(),
        previews_view(r.preview@) == sorted_files(
            names_view(file_names@),
            rules_view(rules@),
        ).take(min_nat(PREVIEW_LIMIT as nat, r.count as nat) as int),
{
    let ghost nv = names_view(file_names@);
    let ghost rv = rules_view(rules@);
    let n = file_names.len();
    let mut count: usize = 0;
    let mut preview: Vec<MatchPreview> = Vec::new();
    let mut i: usize = 0;
    while i < n
        invariant
            n == file_names@.len(),
            nv == names_view(file_names@),
            rv == rules_view(rules@),
            i <= n,
            count <= i,
            count == sorted_files(nv.take(i as int), rv).len(),
            previews_view(preview@) == sorted_files(nv.take(i as int), rv).take(
                min_nat(PREVIEW_LIMIT as nat, count as nat) as int,
            ),
        decreases n - i,
    {
        let ghost before = sorted_files(nv.take(i as int), rv);
        let ghost pv = preview@;
        assert(nv.take((i + 1) as int).drop_last() =~= nv.take(i as int));
        assert(nv.take((i + 1) as int).last() == file_names@[i as int]@);
        let name = &file_names[i];
        let ext = file_extension(name.as_str());
        match ext {
            Some(e) => {
                let target = match_rule(e.as_str(), rules);
                match target {
                    Some(t) => {
                        let ghost now = before.push((name@, t@));
                        assert(sorted_files(nv.take((i + 1) as int), rv) == now);
                        if count < PREVIEW_LIMIT {
                            let mut fname = String::new();
                            fname.append(name.as_str());
                            let mut tname = String::new();
                            tname.append(t);
                            preview.push(MatchPreview { file_name: fname, target_path: tname });
                            assert(previews_view(preview@) =~= previews_view(pv).push((name@, t@)));
                            assert(now.take((count + 1) as int) =~= before.take(count as int).push(
                                (name@, t@),
                            ));
                        } else {
                            assert(now.take(PREVIEW_LIMIT as int) =~= before.take(
                                PREVIEW_LIMIT as int,
                            ));
                        }
                        count = count + 1;
                    },
                    None => {},
                }
            },
            None => {},
        }
        i = i + 1;
    }
    assert(nv.take(n as int) =~= nv);
    MatchSummary { count, preview }
}


impl MatchSummary {
    /// How many matching files are counted but not listed.
    pub fn unlisted(&self) -> (r: usize)
        ensures
            r == (if self.count > PREVIEW_LIMIT {
                self.count - PREVIEW_LIMIT
            } else {
                0
            }),
    {
        if self.count > PREVIEW_LIMIT {
            self.count - PREVIEW_LIMIT
        } else {
            0
        }
    }

    /// The sentence that sums up the run to come: how many files will be
    /// organized, or `no_match` when none will.
    pub fn message(&self, no_match: &str) -> (r: String)
        ensures
            self.count > 0 ==> r@ == decimal(self.count as nat)
                + " file(s) will be organized into folders."@,
            self.count == 0 ==> r@ == no_match@,
    {
        let mut r = String::new();
        if self.count > 0 {
            push_decimal(&mut r, self.count as u64);
            r.append(" file(s) will be organized into folders.");
        } else {
            r.append(no_match);
        }
        r
    }
}

/// How many moved files the result page lists by name.
pub const RESULT_LIST_LIMIT: usize = 20;

/// The name under which a move is listed: the file name of its original
/// path, or nothing when that path has none.
pub open spec fn listed_name(r: MoveRecordView) -> Seq<char> {
    match file_name_of(r.original_path) {
        Some(n) => n,
        None => Seq::empty(),
    }
}

/// What the result page lists: the names of the first moves, and how many
/// further moves are only counted.
pub struct ResultOverview {
    pub names: Vec<String>,
    pub more: usize,
}

/// Lists the first `RESULT_LIST_LIMIT` moves by file name and counts the rest.
pub fn result_overview(records: &[MoveRecord]) -> (r: ResultOverview)
    ensures
        names_view(r.names@) == records_view(records@).take(
            min_nat(RESULT_LIST_LIMIT as nat, records@.len()) as int,
        ).map_values(|x: MoveRecordView| listed_name(x)),
        r.more == if records@.len() > RESULT_LIST_LIMIT {
            records@.len() - RESULT_LIST_LIMIT
        } else {
            0
        },
{
    let ghost rv = records_view(records@);
    let n = records.len();
    let shown = if n < RESULT_LIST_LIMIT {
        n
    } else {
        RESULT_LIST_LIMIT
    };
    let mut names: Vec<String> = Vec::new();
    let mut i: usize = 0;
    while i < shown
        invariant
            n == records@.len(),
            rv == records_view(records@),
            shown <= n,
            i <= shown,
            names_view(names@) == rv.take(i as int).map_values(|x: MoveRecordView| listed_name(x)),
        decreases shown - i,
    {
        let ghost before = names@;
        let name = match file_name(records[i].original_path.as_str()) {
            Some(f) => f,
            None => String::new(),
        };
        assert(rv[i as int] == records@[i as int]@);
        assert(name@ == listed_name(rv[i as int]));
        let ghost nv = name@;
        names.push(name);
        assert(names_view(names@) =~= names_view(before).push(nv));
        assert(names_view(names@) =~= rv.take((i + 1) as int).map_values(
            |x: MoveRecordView| listed_name(x),
        ));
        i = i + 1;
    }
    let more = if n > RESULT_LIST_LIMIT {
        n - RESULT_LIST_LIMIT
    } else {
        0
    };
    ResultOverview { names, more }
}

/// The outcome of organizing one file: moved (with its record), left where it
/// was, or failed with an error text.
pub open spec fn outcome_view(o: Result<Option<MoveRecord>, String>) -> Option<
    Option<MoveRecordView>,
> {
    match o {
        Ok(Some(r)) => Some(Some(r@)),
        Ok(None) => Some(None),
        Err(_) => None,
    }
}

/// The state of a batch after one more file's outcome: a move is recorded,
/// an untouched file changes nothing, and a failure ends the batch.
pub open spec fn batch_step(
    state: (Seq<MoveRecordView>, bool),
    outcome: Option<Option<MoveRecordView>>,
) -> (Seq<MoveRecordView>, bool) {
    if state.1 {
        state
    } else {
        match outcome {
            Some(Some(r)) => (state.0.push(r), false),
            Some(None) => state,
            None => (state.0, true),
        }
    }
}

/// The moves made while organizing a folder file by file, and whether a
/// file failed (which ends the run).
pub struct OrganizeBatch {
    records: Vec<MoveRecord>,
    failed: bool,
}

impl View for OrganizeBatch {
    type V = (Seq<MoveRecordView>, bool);

    closed spec fn view(&self) -> (Seq<MoveRecordView>, bool) {
        (records_view(self.records@), self.failed)
    }
}

impl OrganizeBatch {
    /// A batch with no moves yet.
    pub fn new() -> (r: Self)
        ensures
            r@ == (Seq::<MoveRecordView>::empty(), false),
    {
        let r = OrganizeBatch { records: Vec::new(), failed: false };
        assert(r@.0 =~= Seq::<MoveRecordView>::empty());
        r
    }

    /// Takes the outcome of one more file; returns whether to go on with the
    /// next file.
    pub fn record(&mut self, outcome: Result<Option<MoveRecord>, String>) -> (go_on: bool)
        ensures
            final(self)@ == batch_step(old(self)@, outcome_view(outcome)),
            go_on == !final(self)@.1,
    {
        if self.failed {
            return false;
        }
        match outcome {
            Ok(Some(r)) => {
                let ghost before = self.records@;
                self.records.push(r);
                assert(records_view(self.records@) =~= records_view(before).push(
                    self.records@.last()@,
                ));
                true
            },
            Ok(None) => true,
            Err(_) => {
                self.failed = true;
                false
            },
        }
    }

    /// The moves to report when the run ends: all of them, or none when a
    /// file failed.
    pub fn finish(self) -> (r: Vec<MoveRecord>)
        ensures
            records_view(r@) == (if self@.1 {
                Seq::<MoveRecordView>::empty()
            } else {
                self@.0
            }),
    {
        if self.failed {
            let r: Vec<MoveRecord> = Vec::new();
            assert(records_view(r@) =~= Seq::<MoveRecordView>::empty());
            r
        } else {
            self.records
        }
    }
}


/// A rule sorts files with extension `ext` when it is enabled and its
/// extension is `ext` up to the case of ASCII letters.
pub open spec fn sorts_extension(rule: RuleView, ext: Seq<char>) -> bool {
    &&& rule.enabled
    &&& rule.extension.len() == ext.len()
    &&& forall|k: int|
        0 <= k < ext.len() ==> #[trigger] same_up_to_ascii_case(rule.extension[k], ext[k])
}

proof fn lemma_applies_iff_sorts(rule: RuleView, ext: Seq<char>)
    ensures
        rule_applies(rule, ext) <==> sorts_extension(rule, ext),
{
    law_ignore_case_is_letter_case_only(rule.extension, ext);
}

/// The first rule that sorts an extension gives its target; a rule whose
/// extension differs in anything but ASCII letter case (such as `mp3` for
/// `mp4`) never applies.
pub proof fn law_first_sorting_rule_gives_target(rules: Seq<RuleView>, ext: Seq<char>, i: int)
    requires
        0 <= i < rules.len(),
        sorts_extension(rules[i], ext),
        forall|j: int| 0 <= j < i ==> !sorts_extension(#[trigger] rules[j], ext),
    ensures
        matched_target(rules, ext) == Some(rules[i].target_path),
{
    lemma_applies_iff_sorts(rules[i], ext);
    assert forall|j: int| 0 <= j < i implies !rule_applies(#[trigger] rules[j], ext) by {
        lemma_applies_iff_sorts(rules[j], ext);
    }
    assert(is_first_applicable(rules, ext, i));
    let c = choose|c: int| is_first_applicable(rules, ext, c);
    lemma_first_applicable_unique(rules, ext, i, c);
}

/// A target is only ever given by an enabled rule whose extension is the
/// given one up to ASCII letter case; when no rule is such, there is none.
pub proof fn law_match_only_from_sorting_rule(rules: Seq<RuleView>, ext: Seq<char>)
    ensures
        matched_target(rules, ext) matches Some(t) ==> exists|i: int|
            0 <= i < rules.len() && #[trigger] sorts_extension(rules[i], ext)
                && rules[i].target_path == t,
        (forall|i: int| 0 <= i < rules.len() ==> !#[trigger] sorts_extension(rules[i], ext))
            ==> matched_target(rules, ext) is None,
{
    if exists|i: int| is_first_applicable(rules, ext, i) {
        let c = choose|i: int| is_first_applicable(rules, ext, i);
        lemma_applies_iff_sorts(rules[c], ext);
        assert(sorts_extension(rules[c], ext));
    }
    if forall|i: int| 0 <= i < rules.len() ==> !#[trigger] sorts_extension(rules[i], ext) {
        assert forall|i: int| 0 <= i < rules.len() implies !rule_applies(#[trigger] rules[i], ext) by {
            lemma_applies_iff_sorts(rules[i], ext);
            assert(!sorts_extension(rules[i], ext));
        }
        law_match_is_enabled_rule(rules, ext);
    }
}

/// A file `stem.e` (non-empty stem, `e` without `.`) that the rule at `i` is
/// the first to sort is planned into that rule's folder below the source
/// folder, keeping its stem and extension, whatever their lengths.
pub proof fn law_plan_for_sorted_file(
    stem: Seq<char>,
    e: Seq<char>,
    source_dir: Seq<char>,
    rules: Seq<RuleView>,
    i: int,
)
    requires
        stem.len() > 0,
        !e.contains('.'),
        !is_parent_name(stem + seq!['.'] + e),
        0 <= i < rules.len(),
        sorts_extension(rules[i], e),
        forall|j: int| 0 <= j < i ==> !sorts_extension(#[trigger] rules[j], e),
    ensures
        move_plan_of(stem + seq!['.'] + e, source_dir, rules) == Some(
            MovePlanView {
                target_dir: join_spec(source_dir, rules[i].target_path),
                stem: stem,
                extension: e,
            },
        ),
{
    law_name_splits_at_last_dot(stem, e);
    law_first_sorting_rule_gives_target(rules, e, i);
}

/// A file that no rule sorts is not planned.
pub proof fn law_no_plan_for_unsorted_file(
    stem: Seq<char>,
    e: Seq<char>,
    source_dir: Seq<char>,
    rules: Seq<RuleView>,
)
    requires
        stem.len() > 0,
        !e.contains('.'),
        !is_parent_name(stem + seq!['.'] + e),
        forall|j: int| 0 <= j < rules.len() ==> !sorts_extension(#[trigger] rules[j], e),
    ensures
        move_plan_of(stem + seq!['.'] + e, source_dir, rules) is None,
{
    law_name_splits_at_last_dot(stem, e);
    law_match_only_from_sorting_rule(rules, e);
}

/// Every file `stem.e` that some rule sorts adds one entry, with its rule's
/// target, at the end of the summary, however many dots its stem holds.
pub proof fn law_summary_adds_each_sorted_file(
    names: Seq<Seq<char>>,
    stem: Seq<char>,
    e: Seq<char>,
    rules: Seq<RuleView>,
    i: int,
)
    requires
        stem.len() > 0,
        !e.contains('.'),
        !is_parent_name(stem + seq!['.'] + e),
        0 <= i < rules.len(),
        sorts_extension(rules[i], e),
        forall|j: int| 0 <= j < i ==> !sorts_extension(#[trigger] rules[j], e),
    ensures
        sorted_files(names.push(stem + seq!['.'] + e), rules) == sorted_files(names, rules).push(
            (stem + seq!['.'] + e, rules[i].target_path),
        ),
        sorted_files(names.push(stem + seq!['.'] + e), rules).len() == sorted_files(
            names,
            rules,
        ).len() + 1,
{
    law_name_splits_at_last_dot(stem, e);
    law_first_sorting_rule_gives_target(rules, e, i);
    assert(names.push(stem + seq!['.'] + e).drop_last() =~= names);
}

/// A file that no rule sorts leaves the summary as it was.
pub proof fn law_summary_skips_unsorted_file(
    names: Seq<Seq<char>>,
    stem: Seq<char>,
    e: Seq<char>,
    rules: Seq<RuleView>,
)
    requires
        stem.len() > 0,
        !e.contains('.'),
        !is_parent_name(stem + seq!['.'] + e),
        forall|j: int| 0 <= j < rules.len() ==> !sorts_extension(#[trigger] rules[j], e),
    ensures
        sorted_files(names.push(stem + seq!['.'] + e), rules) == sorted_files(names, rules),
{
    law_name_splits_at_last_dot(stem, e);
    law_match_only_from_sorting_rule(rules, e);
    assert(names.push(stem + seq!['.'] + e).drop_last() =~= names);
}

} // verus!
