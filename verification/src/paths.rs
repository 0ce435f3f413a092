//! Paths as text: joining a directory and a name, and splitting a file name
//! into its stem and extension, with the meaning that `std::path` gives them
//! on Unix (`/` separates components; a part that starts with `/` is absolute).

use vstd::prelude::*;

use crate::text::push_char;

verus! {

/// The path that `PathBuf::push` makes of `base` and `part`: an absolute `part`
/// replaces `base`; otherwise a separator is put between them unless `base` is
/// empty or already ends with one.
pub open spec fn join_spec(base: Seq<char>, part: Seq<char>) -> Seq<char> {
    if part.len() > 0 && part[0] == '/' {
        part
    } else if base.len() == 0 || base.last() == '/' {
        base + part
    } else {
        base.push('/') + part
    }
}

/// Joins `part` onto the directory `base` (`Path::join`).
pub fn join_path(base: &str, part: &str) -> (r: String)
    ensures
        r@ == join_spec(base@, part@),
{
    let mut r = String::new();
    let plen = part.unicode_len();
    if plen > 0 && part.get_char(0) == '/' {
        r.append(part);
        return r;
    }
    let blen = base.unicode_len();
    r.append(base);
    if blen > 0 && base.get_char(blen - 1) != '/' {
        push_char(&mut r, '/');
    }
    r.append(part);
    r
}

/// The index of the last `.` in `s`, or -1 when there is none.
pub open spec fn last_dot(s: Seq<char>) -> int
    decreases s.len(),
{
    if s.len() == 0 {
        -1
    } else if s.last() == '.' {
        s.len() - 1
    } else {
        last_dot(s.drop_last())
    }
}

/// The name `..`, which has neither stem nor extension of its own.
pub open spec fn is_parent_name(name: Seq<char>) -> bool {
    name == seq!['.', '.']
}

/// The stem of a file name (`Path::file_stem`): the part before the last `.`,
/// or the whole name when there is no `.` after its first character.
pub open spec fn file_stem_of(name: Seq<char>) -> Seq<char> {
    if is_parent_name(name) || last_dot(name) <= 0 {
        name
    } else {
        name.subrange(0, last_dot(name))
    }
}

/// The extension of a file name (`Path::extension`): the part after the last
/// `.`, where that `.` is not the first character.
pub open spec fn extension_of(name: Seq<char>) -> Option<Seq<char>> {
    if is_parent_name(name) || last_dot(name) <= 0 {
        None
    } else {
        Some(name.subrange(last_dot(name) + 1, name.len() as int))
    }
}

/// What `last_dot` finds is a `.`, and no `.` comes after it.
pub proof fn lemma_last_dot(s: Seq<char>)
    ensures
        -1 <= last_dot(s) < s.len(),
        last_dot(s) >= 0 ==> s[last_dot(s)] == '.',
        forall|j: int| last_dot(s) < j < s.len() ==> s[j] != '.',
    decreases s.len(),
{
    if s.len() > 0 && s.last() != '.' {
        lemma_last_dot(s.drop_last());
        assert forall|j: int| last_dot(s) < j < s.len() implies s[j] != '.' by {
            if j < s.len() - 1 {
                assert(s.drop_last()[j] == s[j]);
            }
        }
    }
}

fn find_last_dot(name: &str) -> (r: (bool, usize))
    ensures
        r.0 <==> last_dot(name@) >= 0,
        r.0 ==> r.1 == last_dot(name@),
{
    let n = name.unicode_len();
    let mut found = false;
    let mut pos: usize = 0;
    let mut i: usize = 0;
    while i < n
        invariant
            n == name@.len(),
            i <= n,
            found <==> last_dot(name@.subrange(0, i as int)) >= 0,
            found ==> pos == last_dot(name@.subrange(0, i as int)),
        decreases n - i,
    {
        assert(name@.subrange(0, (i + 1) as int).drop_last() =~= name@.subrange(0, i as int));
        if name.get_char(i) == '.' {
            found = true;
            pos = i;
        }
        i = i + 1;
    }
    assert(name@.subrange(0, n as int) =~= name@);
    (found, pos)
}

fn is_parent(name: &str) -> (r: bool)
    ensures
        r == is_parent_name(name@),
{
    let n = name.unicode_len();
    if n == 2 && name.get_char(0) == '.' && name.get_char(1) == '.' {
        assert(name@ =~= seq!['.', '.']);
        true
    } else {
        false
    }
}

/// The stem of the file name `name`.
pub fn file_stem(name: &str) -> (r: String)
    ensures
        r@ == file_stem_of(name@),
{
    proof {
        lemma_last_dot(name@);
    }
    let (found, pos) = find_last_dot(name);
    let mut r = String::new();
    if is_parent(name) || !found || pos == 0 {
        r.append(name);
    } else {
        r.append(name.substring_char(0, pos));
    }
    r
}

/// The extension of the file name `name`, if it has one.
pub fn file_extension(name: &str) -> (r: Option<String>)
    ensures
        r matches Some(e) ==> extension_of(name@) == Some(e@),
        r is None ==> extension_of(name@) is None,
{
    proof {
        lemma_last_dot(name@);
    }
    let (found, pos) = find_last_dot(name);
    if is_parent(name) || !found || pos == 0 {
        None
    } else {
        let n = name.unicode_len();
        let mut r = String::new();
        r.append(name.substring_char(pos + 1, n));
        Some(r)
    }
}

/// A file name with an extension is its stem, a `.` and the extension, and the
/// extension holds no `.`.
pub proof fn law_stem_and_extension_rebuild_name(name: Seq<char>)
    ensures
        extension_of(name) matches Some(e) ==> {
            &&& name == file_stem_of(name) + seq!['.'] + e
            &&& !e.contains('.')
        },
        extension_of(name) is None ==> file_stem_of(name) == name,
{
    lemma_last_dot(name);
    if let Some(e) = extension_of(name) {
        let d = last_dot(name);
        assert(name =~= name.subrange(0, d) + seq!['.'] + name.subrange(d + 1, name.len() as int));
        assert forall|k: int| 0 <= k < e.len() implies e[k] != '.' by {
            assert(e[k] == name[d + 1 + k]);
        }
    }
}

/// The index of the last `/` in `s`, or -1 when there is none.
pub open spec fn last_slash(s: Seq<char>) -> int
    decreases s.len(),
{
    if s.len() == 0 {
        -1
    } else if s.last() == '/' {
        s.len() - 1
    } else {
        last_slash(s.drop_last())
    }
}

/// What `last_slash` finds is a `/`, and no `/` comes after it.
pub proof fn lemma_last_slash(s: Seq<char>)
    ensures
        -1 <= last_slash(s) < s.len(),
        last_slash(s) >= 0 ==> s[last_slash(s)] == '/',
        forall|j: int| last_slash(s) < j < s.len() ==> s[j] != '/',
    decreases s.len(),
{
    if s.len() > 0 && s.last() != '/' {
        lemma_last_slash(s.drop_last());
        assert forall|j: int| last_slash(s) < j < s.len() implies s[j] != '/' by {
            if j < s.len() - 1 {
                assert(s.drop_last()[j] == s[j]);
            }
        }
    }
}

/// The last component of a path when it names a file or directory
/// (`Path::file_name`): separators at the end and `.` components are passed
/// over; a path that ends in `..`, or has no component left, has none.
pub open spec fn file_name_of(path: Seq<char>) -> Option<Seq<char>>
    decreases path.len(),
{
    if path.len() == 0 {
        None
    } else if path.last() == '/' {
        file_name_of(path.drop_last())
    } else {
        let k = last_slash(path);
        proof {
            lemma_last_slash(path);
        }
        let seg = path.subrange(k + 1, path.len() as int);
        if seg == seq!['.'] {
            file_name_of(path.subrange(0, k + 1))
        } else if seg == seq!['.', '.'] {
            None
        } else {
            Some(seg)
        }
    }
}

/// The last `/` of `dir/n`, where `n` holds no `/`, is the one before `n`.
proof fn lemma_last_slash_before_name(dir: Seq<char>, n: Seq<char>)
    requires
        !n.contains('/'),
    ensures
        last_slash(dir + seq!['/'] + n) == dir.len(),
    decreases n.len(),
{
    let p = dir + seq!['/'] + n;
    if n.len() > 0 {
        assert(p.last() == n.last());
        assert(!n.drop_last().contains('/')) by {
            if n.drop_last().contains('/') {
                let k = choose|k: int| 0 <= k < n.drop_last().len() && n.drop_last()[k] == '/';
                assert(n[k] == '/');
            }
        }
        assert(p.drop_last() =~= dir + seq!['/'] + n.drop_last());
        lemma_last_slash_before_name(dir, n.drop_last());
    }
}

/// The file name of `dir/n`, for a name `n` that is not `.` or `..` and holds
/// no `/`, is `n`; so is the file name of `n` alone.
pub proof fn law_file_name_is_last_component(dir: Seq<char>, n: Seq<char>)
    requires
        n.len() > 0,
        !n.contains('/'),
        n != seq!['.'],
        n != seq!['.', '.'],
    ensures
        file_name_of(dir + seq!['/'] + n) == Some(n),
        file_name_of(n) == Some(n),
{
    let p = dir + seq!['/'] + n;
    lemma_last_slash_before_name(dir, n);
    assert(p.last() == n.last());
    assert(n.last() != '/') by {
        assert(n[n.len() - 1] == n.last());
    }
    assert(p.subrange(dir.len() as int + 1, p.len() as int) =~= n);
    lemma_last_slash_none(n);
    assert(n.subrange(0, n.len() as int) =~= n);
}

/// A text without `/` has no last `/`.
proof fn lemma_last_slash_none(s: Seq<char>)
    requires
        !s.contains('/'),
    ensures
        last_slash(s) == -1,
    decreases s.len(),
{
    if s.len() > 0 {
        assert(s.last() != '/') by {
            assert(s[s.len() - 1] == s.last());
        }
        assert(!s.drop_last().contains('/')) by {
            if s.drop_last().contains('/') {
                let k = choose|k: int| 0 <= k < s.drop_last().len() && s.drop_last()[k] == '/';
                assert(s[k] == '/');
            }
        }
        lemma_last_slash_none(s.drop_last());
    }
}

fn find_last_slash(s: &str) -> (r: (bool, usize))
    ensures
        r.0 <==> last_slash(s@) >= 0,
        r.0 ==> r.1 == last_slash(s@),
{
    let n = s.unicode_len();
    let mut found = false;
    let mut pos: usize = 0;
    let mut i: usize = 0;
    while i < n
        invariant
            n == s@.len(),
            i <= n,
            found <==> last_slash(s@.subrange(0, i as int)) >= 0,
            found ==> pos == last_slash(s@.subrange(0, i as int)),
        decreases n - i,
    {
        assert(s@.subrange(0, (i + 1) as int).drop_last() =~= s@.subrange(0, i as int));
        if s.get_char(i) == '/' {
            found = true;
            pos = i;
        }
        i = i + 1;
    }
    assert(s@.subrange(0, n as int) =~= s@);
    (found, pos)
}

/// The file name in `path`, if it has one.
pub fn file_name(path: &str) -> (r: Option<String>)
    ensures
        r matches Some(f) ==> file_name_of(path@) == Some(f@),
        r is None ==> file_name_of(path@) is None,
    decreases path@.len(),
{
    let n = path.unicode_len();
    if n == 0 {
        return None;
    }
    if path.get_char(n - 1) == '/' {
        let rest = path.substring_char(0, n - 1);
        assert(rest@ =~= path@.drop_last());
        return file_name(rest);
    }
    proof {
        lemma_last_slash(path@);
    }
    let (found, pos) = find_last_slash(path);
    let start = if found {
        pos + 1
    } else {
        0
    };
    let seg = path.substring_char(start, n);
    let m = seg.unicode_len();
    if m == 1 && seg.get_char(0) == '.' {
        assert(seg@ =~= seq!['.']);
        let rest = path.substring_char(0, start);
        return file_name(rest);
    }
    if m == 2 && seg.get_char(0) == '.' && seg.get_char(1) == '.' {
        assert(seg@ =~= seq!['.', '.']);
        return None;
    }
    proof {
        if seg@ == seq!['.'] {
            assert(seg@[0] == '.');
        }
        if seg@ == seq!['.', '.'] {
            assert(seg@[0] == '.' && seg@[1] == '.');
        }
    }
    let mut r = String::new();
    r.append(seg);
    Some(r)
}

/// The last `.` of `stem.e`, where `e` holds no `.`, is the one before `e`.
proof fn lemma_last_dot_before_extension(stem: Seq<char>, e: Seq<char>)
    requires
        !e.contains('.'),
    ensures
        last_dot(stem + seq!['.'] + e) == stem.len(),
    decreases e.len(),
{
    let name = stem + seq!['.'] + e;
    if e.len() > 0 {
        assert(name.last() == e.last());
        assert(e.drop_last().len() < e.len());
        assert(!e.drop_last().contains('.')) by {
            if e.drop_last().contains('.') {
                let k = choose|k: int| 0 <= k < e.drop_last().len() && e.drop_last()[k] == '.';
                assert(e[k] == '.');
            }
        }
        assert(name.drop_last() =~= stem + seq!['.'] + e.drop_last());
        lemma_last_dot_before_extension(stem, e.drop_last());
    }
}

/// A name made of a non-empty stem, a `.` and an extension without `.` has
/// exactly that stem and that extension, however many dots the stem holds
/// (the name `..` aside, which has neither).
pub proof fn law_name_splits_at_last_dot(stem: Seq<char>, e: Seq<char>)
    requires
        stem.len() > 0,
        !e.contains('.'),
        !is_parent_name(stem + seq!['.'] + e),
    ensures
        extension_of(stem + seq!['.'] + e) == Some(e),
        file_stem_of(stem + seq!['.'] + e) == stem,
{
    let name = stem + seq!['.'] + e;
    lemma_last_dot_before_extension(stem, e);
    assert(name.subrange(0, stem.len() as int) =~= stem);
    assert(name.subrange(stem.len() as int + 1, name.len() as int) =~= e);
}

/// The user's configuration directory (`dirs::config_dir`), as text.
/// It comes from the environment (`XDG_CONFIG_HOME` or the home directory on
/// Linux), so nothing is stated of it; a path that is not valid Unicode is
/// converted lossily.
#[verifier::external_body]
fn user_config_dir() -> (r: Option<String>) {
    match dirs::config_dir() {
        Some(p) => Some(p.to_string_lossy().into_owned()),
        None => None,
    }
}

/// The user's download directory (`dirs::download_dir`), as text.
/// It comes from the environment (the XDG user directories on Linux), so
/// nothing is stated of it; a path that is not valid Unicode is converted lossily.
#[verifier::external_body]
pub(crate) fn user_download_dir() -> (r: Option<String>) {
    match dirs::download_dir() {
        Some(p) => Some(p.to_string_lossy().into_owned()),
        None => None,
    }
}

/// The application's configuration directory below a given user configuration directory.
pub fn config_dir_under(base: Option<&str>) -> (r: Option<String>)
    ensures
        base is None ==> r is None,
        base matches Some(b) ==> r matches Some(p) && p@ == join_spec(b@, "RusticSort"@),
{
    match base {
        Some(b) => Some(join_path(b, "RusticSort")),
        None => None,
    }
}

/// The configuration file below a given user configuration directory.
pub fn config_file_path_under(base: Option<&str>) -> (r: Option<String>)
    ensures
        base is None ==> r is None,
        base matches Some(b) ==> r matches Some(p) && p@ == join_spec(
            join_spec(b@, "RusticSort"@),
            "config.json"@,
        ),
{
    match config_dir_under(base) {
        Some(d) => Some(join_path(d.as_str(), "config.json")),
        None => None,
    }
}

/// Returns the path to the application configuration directory.
pub fn get_config_dir() -> (r: Option<String>)
    ensures
        r matches Some(p) ==> exists|b: Seq<char>| p@ == join_spec(b, "RusticSort"@),
{
    let base = user_config_dir();
    match base {
        Some(b) => config_dir_under(Some(b.as_str())),
        None => None,
    }
}

/// Returns the full path to the configuration file (`config.json`).
pub fn get_config_file_path() -> (r: Option<String>)
    ensures
        r matches Some(p) ==> exists|b: Seq<char>|
            p@ == join_spec(join_spec(b, "RusticSort"@), "config.json"@),
{
    let base = user_config_dir();
    match base {
        Some(b) => config_file_path_under(Some(b.as_str())),
        None => None,
    }
}

} // verus!
