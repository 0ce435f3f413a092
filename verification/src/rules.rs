//! Sorting rules: a file extension, the folder its files go to, and a category label.

use vstd::prelude::*;

verus! {

/// A rule that sends the files with one extension into one folder.
#[derive(Debug, Clone)]
pub struct SortingRule {
    /// The extension, without the dot; compared without regard to ASCII case.
    pub extension: String,
    /// The folder, relative to the sorted directory, that matching files move to.
    pub target_path: String,
    /// A label for the user.
    pub category_name: String,
    /// Only enabled rules are applied.
    pub enabled: bool,
}

/// The contents of a rule.
pub struct RuleView {
    pub extension: Seq<char>,
    pub target_path: Seq<char>,
    pub category_name: Seq<char>,
    pub enabled: bool,
}

impl View for SortingRule {
    type V = RuleView;

    open spec fn view(&self) -> RuleView {
        RuleView {
            extension: self.extension@,
            target_path: self.target_path@,
            category_name: self.category_name@,
            enabled: self.enabled,
        }
    }
}

/// The contents of a list of rules.
pub open spec fn rules_view(rules: Seq<SortingRule>) -> Seq<RuleView> {
    rules.map_values(|r: SortingRule| r@)
}

impl SortingRule {
    /// A new, enabled rule.
    pub fn new(extension: &str, target_path: &str, category_name: &str) -> (r: Self)
        ensures
            r@ == (RuleView {
                extension: extension@,
                target_path: target_path@,
                category_name: category_name@,
                enabled: true,
            }),
    {
        let mut e = String::new();
        e.append(extension);
        let mut t = String::new();
        t.append(target_path);
        let mut c = String::new();
        c.append(category_name);
        SortingRule { extension: e, target_path: t, category_name: c, enabled: true }
    }

    /// A copy of this rule.
    pub fn duplicate(&self) -> (r: Self)
        ensures
            r == *self,
    {
        SortingRule {
            extension: self.extension.clone(),
            target_path: self.target_path.clone(),
            category_name: self.category_name.clone(),
            enabled: self.enabled,
        }
    }
}

/// The rules used when no saved rules can be loaded: none.
pub fn default_rules() -> (r: Vec<SortingRule>)
    ensures
        r@.len() == 0,
{
    Vec::new()
}

/// A copy of a list of rules.
pub fn duplicate_rules(rules: &[SortingRule]) -> (r: Vec<SortingRule>)
    ensures
        r@ == rules@,
{
    let mut r: Vec<SortingRule> = Vec::new();
    let n = rules.len();
    let mut i: usize = 0;
    while i < n
        invariant
            n == rules@.len(),
            i <= n,
            r@ == rules@.subrange(0, i as int),
        decreases n - i,
    {
        r.push(rules[i].duplicate());
        assert(r@ =~= rules@.subrange(0, (i + 1) as int));
        i = i + 1;
    }
    assert(rules@.subrange(0, n as int) =~= rules@);
    r
}

} // verus!
