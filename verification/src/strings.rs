//! The application's texts, looked up by section and key.

use vstd::prelude::*;

use toml::Value;
use toml::Value::{Array, Boolean, Datetime, Float, Integer, Table};

use crate::text::str_eq;

verus! {

/// One text: its section, its key and the text itself.
#[derive(Debug, Clone)]
pub struct StringEntry {
    pub section: String,
    pub key: String,
    pub value: String,
}

/// The contents of an entry: section, key, text.
pub open spec fn entry_view(e: StringEntry) -> (Seq<char>, Seq<char>, Seq<char>) {
    (e.section@, e.key@, e.value@)
}

/// All application strings, as loaded from the string table.
#[derive(Debug, Clone)]
pub struct Strings {
    entries: Vec<StringEntry>,
}

impl View for Strings {
    type V = Seq<(Seq<char>, Seq<char>, Seq<char>)>;

    closed spec fn view(&self) -> Seq<(Seq<char>, Seq<char>, Seq<char>)> {
        self.entries@.map_values(|e: StringEntry| entry_view(e))
    }
}

/// `i` is the first entry filed under `section` and `key`.
pub open spec fn is_first_entry(
    entries: Seq<(Seq<char>, Seq<char>, Seq<char>)>,
    section: Seq<char>,
    key: Seq<char>,
    i: int,
) -> bool {
    &&& 0 <= i < entries.len()
    &&& entries[i].0 == section
    &&& entries[i].1 == key
    &&& forall|j: int|
        0 <= j < i ==> !(#[trigger] entries[j].0 == section && entries[j].1 == key)
}

/// The text filed under `section` and `key`, or the empty text when there is none.
pub open spec fn lookup(
    entries: Seq<(Seq<char>, Seq<char>, Seq<char>)>,
    section: Seq<char>,
    key: Seq<char>,
) -> Seq<char> {
    if exists|i: int| is_first_entry(entries, section, key, i) {
        entries[choose|i: int| is_first_entry(entries, section, key, i)].2
    } else {
        Seq::empty()
    }
}

/// The kind of a TOML value, with the text when it is a string.
#[derive(Debug, Clone)]
pub enum ValueKind {
    Text(String),
    Integer,
    Float,
    Boolean,
    Datetime,
    Array,
    Table,
}

/// The contents of a value kind.
pub enum ValueKindView {
    Text(Seq<char>),
    Integer,
    Float,
    Boolean,
    Datetime,
    Array,
    Table,
}

impl View for ValueKind {
    type V = ValueKindView;

    open spec fn view(&self) -> ValueKindView {
        match self {
            ValueKind::Text(t) => ValueKindView::Text(t@),
            ValueKind::Integer => ValueKindView::Integer,
            ValueKind::Float => ValueKindView::Float,
            ValueKind::Boolean => ValueKindView::Boolean,
            ValueKind::Datetime => ValueKindView::Datetime,
            ValueKind::Array => ValueKindView::Array,
            ValueKind::Table => ValueKindView::Table,
        }
    }
}

/// An item of a TOML document as the parser gives it. For a top-level value
/// that is a table, there is one entry per key of that table (`key` is the
/// key); a top-level value that is not a table gives one entry with no key.
/// `value` is the kind of the value, with its text when it is a string.
#[derive(Debug, Clone)]
pub struct RawEntry {
    pub section: String,
    pub key: Option<String>,
    pub value: ValueKind,
}

/// The contents of a raw entry.
pub open spec fn raw_view(e: RawEntry) -> (Seq<char>, Option<Seq<char>>, ValueKindView) {
    (
        e.section@,
        match e.key {
            Some(k) => Some(k@),
            None => None,
        },
        e.value@,
    )
}

/// The items of the TOML document `text`, in the order in which the parser's
/// table yields them, as `parse_toml_entries` lists them; `None` when `text`
/// is not valid TOML.
pub uninterp spec fn toml_table_entries(text: Seq<char>) -> Option<
    Seq<(Seq<char>, Option<Seq<char>>, ValueKindView)>,
>;

/// Parses `text` as a TOML document (`toml::from_str` into `toml::Table`) and
/// converts its items one for one: each key of a top-level table, and each
/// top-level value that is not a table, with the kind of its value. What the
/// parser accepts and the order of the keys are left to the name
/// `toml_table_entries`.
#[verifier::external_body]
fn parse_toml_entries(text: &str) -> (r: Option<Vec<RawEntry>>)
    ensures
        r matches Some(v) ==> toml_table_entries(text@) == Some(
            v@.map_values(|e: RawEntry| raw_view(e)),
        ),
        r is None ==> toml_table_entries(text@) is None,
{
    let table: toml::Table = toml::from_str(text).ok()?;
    let kind = |v| match v { Value::String(s) => ValueKind::Text(s), Integer(_) => ValueKind::Integer, Float(_) => ValueKind::Float, Boolean(_) => ValueKind::Boolean, Datetime(_) => ValueKind::Datetime, Array(_) => ValueKind::Array, Table(_) => ValueKind::Table };
    let mut entries = Vec::new();
    for (section, v) in table {
        match v {
            Table(keys) => for (key, x) in keys { entries.push(RawEntry { section: section.clone(), key: Some(key), value: kind(x) }) },
            other => entries.push(RawEntry { section, key: None, value: kind(other) }),
        }
    }
    Some(entries)
}

/// The texts among raw entries: the keys of tables whose value is a string,
/// in order. Values of other kinds, and top-level values that are not
/// tables, hold no texts.
pub open spec fn text_entries(raw: Seq<(Seq<char>, Option<Seq<char>>, ValueKindView)>) -> Seq<
    (Seq<char>, Seq<char>, Seq<char>),
>
    decreases raw.len(),
{
    if raw.len() == 0 {
        Seq::empty()
    } else {
        let before = text_entries(raw.drop_last());
        let last = raw.last();
        match (last.1, last.2) {
            (Some(k), ValueKindView::Text(t)) => before.push((last.0, k, t)),
            _ => before,
        }
    }
}

/// The text filed under a section and key is the one of the first entry
/// filed under them.
pub proof fn law_lookup_gives_first_entry(
    entries: Seq<(Seq<char>, Seq<char>, Seq<char>)>,
    section: Seq<char>,
    key: Seq<char>,
    i: int,
)
    requires
        0 <= i < entries.len(),
        entries[i].0 == section,
        entries[i].1 == key,
        forall|j: int| 0 <= j < i ==> !(#[trigger] entries[j].0 == section && entries[j].1 == key),
    ensures
        lookup(entries, section, key) == entries[i].2,
{
    assert(is_first_entry(entries, section, key, i));
    let c = choose|c: int| is_first_entry(entries, section, key, c);
    if c < i {
        assert(!(entries[c].0 == section && entries[c].1 == key));
    } else if c > i {
        assert(!(entries[i].0 == section && entries[i].1 == key));
    }
}

/// A section and key under which nothing is filed give the empty text.
pub proof fn law_lookup_of_missing_is_empty(
    entries: Seq<(Seq<char>, Seq<char>, Seq<char>)>,
    section: Seq<char>,
    key: Seq<char>,
)
    requires
        forall|j: int|
            0 <= j < entries.len() ==> !(#[trigger] entries[j].0 == section && entries[j].1 == key),
    ensures
        lookup(entries, section, key) == Seq::<char>::empty(),
{
    assert forall|c: int| !is_first_entry(entries, section, key, c) by {
        if 0 <= c < entries.len() {
            assert(!(entries[c].0 == section && entries[c].1 == key));
        }
    }
}

/// A key of a table with a string value adds its text at the end of the
/// table; any other item adds nothing.
pub proof fn law_text_entries_keep_string_keys(
    raw: Seq<(Seq<char>, Option<Seq<char>>, ValueKindView)>,
    section: Seq<char>,
    key: Option<Seq<char>>,
    value: ValueKindView,
)
    ensures
        (key matches Some(k) && value matches ValueKindView::Text(t)) ==> text_entries(
            raw.push((section, key, value)),
        ) == text_entries(raw).push((section, key->0, value->Text_0)),
        !(key is Some && value is Text) ==> text_entries(raw.push((section, key, value)))
            == text_entries(raw),
{
    assert(raw.push((section, key, value)).drop_last() =~= raw);
}

impl Strings {
    /// The string table of the raw entries: the keys of tables with a string
    /// value, in order.
    pub fn from_raw_entries(raw: Vec<RawEntry>) -> (r: Self)
        ensures
            r@ == text_entries(raw@.map_values(|e: RawEntry| raw_view(e))),
    {
        let ghost rv = raw@.map_values(|e: RawEntry| raw_view(e));
        let mut entries: Vec<StringEntry> = Vec::new();
        let n = raw.len();
        let mut i: usize = 0;
        while i < n
            invariant
                n == raw@.len(),
                rv == raw@.map_values(|e: RawEntry| raw_view(e)),
                i <= n,
                entries@.map_values(|e: StringEntry| entry_view(e)) == text_entries(
                    rv.take(i as int),
                ),
            decreases n - i,
        {
            assert(rv.take((i + 1) as int).drop_last() =~= rv.take(i as int));
            assert(rv.take((i + 1) as int).last() == raw_view(raw@[i as int]));
            let e = &raw[i];
            let ghost before = entries@;
            match (&e.key, &e.value) {
                (Some(k), ValueKind::Text(v)) => {
                    entries.push(
                        StringEntry { section: e.section.clone(), key: k.clone(), value: v.clone() },
                    );
                    assert(entries@.map_values(|x: StringEntry| entry_view(x)) =~= before.map_values(
                        |x: StringEntry| entry_view(x),
                    ).push((e.section@, k@, v@)));
                },
                _ => {},
            }
            i = i + 1;
        }
        assert(rv.take(n as int) =~= rv);
        Strings { entries }
    }

    /// The string table written as the TOML document `text`: the string
    /// values of its sections, or `None` when `text` is not valid TOML.
    pub fn from_toml(text: &str) -> (r: Option<Self>)
        ensures
            r matches Some(s) ==> toml_table_entries(text@) matches Some(raw) && s@ == text_entries(
                raw,
            ),
            r is None ==> toml_table_entries(text@) is None,
    {
        match parse_toml_entries(text) {
            Some(raw) => Some(Self::from_raw_entries(raw)),
            None => None,
        }
    }

    /// A string table holding the given entries.
    pub fn from_entries(entries: Vec<StringEntry>) -> (r: Self)
        ensures
            r@ == entries@.map_values(|e: StringEntry| entry_view(e)),
    {
        Strings { entries }
    }

    /// An empty string table.
    pub fn empty() -> (r: Self)
        ensures
            r@.len() == 0,
    {
        Strings { entries: Vec::new() }
    }

    /// The text for `section` and `key`, or `""` when the table has none.
    pub fn get(&self, section: &str, key: &str) -> (r: &str)
        ensures
            r@ == lookup(self@, section@, key@),
    {
        let ghost ev = self@;
        let n = self.entries.len();
        let mut i: usize = 0;
        while i < n
            invariant
                n == self.entries@.len(),
                ev == self@,
                ev == self.entries@.map_values(|e: StringEntry| entry_view(e)),
                i <= n,
                forall|j: int| 0 <= j < i ==> !(#[trigger] ev[j].0 == section@ && ev[j].1 == key@),
            decreases n - i,
        {
            let e = &self.entries[i];
            if str_eq(e.section.as_str(), section) && str_eq(e.key.as_str(), key) {
                proof {
                    assert(is_first_entry(ev, section@, key@, i as int));
                    let c = choose|c: int| is_first_entry(ev, section@, key@, c);
                    if c < i {
                        assert(!(ev[c].0 == section@ && ev[c].1 == key@));
                    } else if c > i {
                        assert(!(ev[i as int].0 == section@ && ev[i as int].1 == key@));
                    }
                }
                return e.value.as_str();
            }
            i = i + 1;
        }
        proof {
            reveal_strlit("");
            assert forall|c: int| !is_first_entry(ev, section@, key@, c) by {
                if 0 <= c < n {
                    assert(!(ev[c].0 == section@ && ev[c].1 == key@));
                }
            }
        }
        ""
    }
}

} // verus!
