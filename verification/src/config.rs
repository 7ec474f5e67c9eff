//! The configuration files: finding a key's value in them and writing a key.
//!
//! Configuration lives in `key = "value"` lines in one of a few files in a few
//! directories. The files are read and written outside the library; here they
//! are texts handed in, in the order in which they are searched.

use vstd::prelude::*;
use vstd::utf8::encode_utf8;

use crate::text::{
    chars_of, ends_with, find_char, find_char_from, first_line, is_ws, lemma_find_char,
    line_bounds, lines, owned, strip_lead, strip_trail, trim_end, trim_start,
    push_range, same_chars, starts_with, string_of, trim, trim_bounds, trim_char,
    trim_char_bounds, utf8_len_exceeds,
};

verus! {

broadcast use vstd::string::group_string_axioms;

/// One candidate configuration file.
pub enum ConfigFile {
    /// There is no such file.
    Missing,
    /// The file exists but could not be read as text.
    Unreadable,
    /// The file's text.
    Text(String),
}

// ---------------------------------------------------------------------------
// Reading a key
// ---------------------------------------------------------------------------

/// The value that one line of a configuration file gives `target`.
///
/// The line is trimmed; blank lines and `#` comments give nothing. A line
/// `key = value` gives the value (trimmed, surrounding `"` removed, trimmed
/// again) when the trimmed key is `target` and the value is not empty. A line
/// without `=` that does not start with `[` and is longer than 10 bytes is taken
/// whole as the value of `api_key`.
pub open spec fn line_value(line: Seq<char>, target: Seq<char>) -> Option<Seq<char>> {
    let t = trim(line);
    if t.len() == 0 || starts_with(t, "#"@) {
        None
    } else {
        let p = find_char(t, '=');
        if p < t.len() {
            let v = trim(trim_char(trim(t.skip((p + 1) as int)), '"'));
            if trim(t.take(p as int)) == target && v.len() > 0 {
                Some(v)
            } else {
                None
            }
        } else if target == "api_key"@ && !starts_with(t, "["@) && encode_utf8(t).len() > 10 {
            Some(t)
        } else {
            None
        }
    }
}

/// The value that the first line giving one gives `target`.
pub open spec fn first_line_value(ls: Seq<Seq<char>>, target: Seq<char>) -> Option<Seq<char>>
    decreases ls.len(),
{
    if ls.len() == 0 {
        None
    } else {
        match line_value(ls[0], target) {
            Some(v) => Some(v),
            None => first_line_value(ls.drop_first(), target),
        }
    }
}

/// The value that a configuration text gives `target`.
pub open spec fn config_value(content: Seq<char>, target: Seq<char>) -> Option<Seq<char>> {
    first_line_value(lines(content), target)
}

/// The value of one line, from its bounds `[from, to)` in `v`.
fn line_value_exec(v: &Vec<char>, from: usize, to: usize, target: &Vec<char>) -> (r: Option<
    String,
>)
    requires
        from <= to <= v.len(),
    ensures
        r matches Some(s) ==> line_value(v@.subrange(from as int, to as int), target@) == Some(
            s@,
        ),
        r is None ==> line_value(v@.subrange(from as int, to as int), target@) is None,
{
    let ghost line = v@.subrange(from as int, to as int);
    let (lo, hi) = trim_bounds(v, from, to);
    let ghost t = v@.subrange(lo as int, hi as int);
    assert(t == trim(line));
    if lo == hi {
        return None;
    }
    if v[lo] == '#' {
        proof {
            reveal_strlit("#");
            assert(t.take(1) == "#"@);
        }
        return None;
    }
    proof {
        reveal_strlit("#");
        assert(!starts_with(t, "#"@)) by {
            if starts_with(t, "#"@) {
                assert(t.take(1)[0] == t[0]);
            }
        }
    }
    let p = find_char_from(v, '=', lo);
    proof {
        lemma_find_char(v@.skip(lo as int), '=');
        assert(v@.skip(lo as int).subrange(0, hi - lo) == t);
        lemma_find_char_prefix(v@.skip(lo as int), (hi - lo) as int, '=');
    }
    if p < hi {
        let ghost q: int = p - lo;
        assert(find_char(t, '=') == q);
        let (klo, khi) = trim_bounds(v, lo, p);
        assert(t.take(q) == v@.subrange(lo as int, p as int));
        assert(v@.subrange(klo as int, khi as int) == trim(t.take(q)));
        let (a, b) = trim_bounds(v, p + 1, hi);
        assert(t.skip(q + 1) == v@.subrange(p + 1, hi as int));
        assert(v@.subrange(a as int, b as int) == trim(t.skip(q + 1)));
        let (c, d) = trim_char_bounds(v, a, b, '"');
        assert(v@.subrange(c as int, d as int) == trim_char(trim(t.skip(q + 1)), '"'));
        let (e, f) = trim_bounds(v, c, d);
        assert(v@.subrange(e as int, f as int) == trim(trim_char(trim(t.skip(q + 1)), '"')));
        let key = slice_vec(v, klo, khi);
        proof {
            let pp = find_char(t, '=');
            assert(pp == q);
            assert(t.skip((pp + 1) as int) == t.skip(q + 1));
            assert(t.take(pp as int) == t.take(q));
        }
        if same_chars(&key, target) && e < f {
            Some(string_of(v, e, f))
        } else {
            assert(line_value(line, target@) is None);
            None
        }
    } else {
        assert(find_char(t, '=') == t.len());
        let is_key = api_key_name(target);
        if is_key && v[lo] != '[' && utf8_len_exceeds(v, lo, hi, 10) {
            let trimmed = string_of(v, lo, hi);
            proof {
                reveal_strlit("[");
                assert(!starts_with(t, "["@)) by {
                    if starts_with(t, "["@) {
                        assert(t.take(1)[0] == t[0]);
                    }
                }
            }
            Some(trimmed)
        } else {
            proof {
                reveal_strlit("[");
                if v[lo as int] == '[' {
                    assert(t.take(1) == "["@);
                }
                assert(line_value(line, target@) is None);
            }
            None
        }
    }
}

/// Proof that the first `c` of `s[..n]` is the first `c` of `s` when that lies
/// before `n`, and `n` otherwise.
proof fn lemma_find_char_prefix(s: Seq<char>, n: int, c: char)
    requires
        0 <= n <= s.len(),
    ensures
        find_char(s.take(n), c) == if find_char(s, c) < n {
            find_char(s, c) as int
        } else {
            n
        },
    decreases n,
{
    if n > 0 {
        if s[0] != c {
            assert(s.take(n).drop_first() == s.drop_first().take(n - 1));
            lemma_find_char_prefix(s.drop_first(), n - 1, c);
        }
    }
}

/// A new vector holding `v[from..to]`.
fn slice_vec(v: &Vec<char>, from: usize, to: usize) -> (r: Vec<char>)
    requires
        from <= to <= v.len(),
    ensures
        r@ == v@.subrange(from as int, to as int),
{
    let mut r: Vec<char> = Vec::new();
    let mut i = from;
    while i < to
        invariant
            from <= i <= to <= v.len(),
            r@ == v@.subrange(from as int, i as int),
        decreases to - i,
    {
        r.push(v[i]);
        i = i + 1;
    }
    r
}

/// Whether `target` is `api_key`.
fn api_key_name(target: &Vec<char>) -> (r: bool)
    ensures
        r == (target@ == "api_key"@),
{
    let k = chars_of("api_key");
    same_chars(target, &k)
}

/// The value of `target` in a configuration text: that of the first line that
/// gives one.
pub fn find_key(content: &str, target: &str) -> (r: Option<String>)
    ensures
        r matches Some(s) ==> config_value(content@, target@) == Some(s@),
        r is None ==> config_value(content@, target@) is None,
{
    let v = chars_of(content);
    let t = chars_of(target);
    let bounds = line_bounds(&v);
    let ghost ls = lines(v@);
    let mut k: usize = 0;
    assert(ls.skip(0) == ls);
    while k < bounds.len()
        invariant
            k <= bounds.len(),
            bounds@.len() == ls.len(),
            ls == lines(v@),
            v@ == content@,
            t@ == target@,
            forall|j: int|
                #![trigger bounds@[j]]
                0 <= j < bounds@.len() ==> bounds@[j].0 <= bounds@[j].1 <= v@.len(),
            forall|j: int|
                0 <= j < bounds@.len() ==> v@.subrange(bounds@[j].0 as int, bounds@[j].1 as int)
                    == #[trigger] ls[j],
            first_line_value(ls, t@) == first_line_value(ls.skip(k as int), t@),
        decreases bounds.len() - k,
    {
        let (from, to) = bounds[k];
        assert(bounds@[k as int].0 <= bounds@[k as int].1 <= v@.len());
        assert(v@.subrange(from as int, to as int) == ls[k as int]);
        assert(ls.skip(k as int)[0] == ls[k as int]);
        assert(ls.skip(k as int).drop_first() == ls.skip(k + 1));
        match line_value_exec(&v, from, to, &t) {
            Some(val) => {
                assert(line_value(ls[k as int], t@) == Some(val@));
                assert(first_line_value(ls.skip(k as int), t@) == Some(val@));
                return Some(val);
            },
            None => {},
        }
        k = k + 1;
    }
    assert(ls.skip(k as int).len() == 0);
    None
}

/// The value of `target` in the first file that gives one; files that are
/// missing or unreadable give nothing.
pub open spec fn files_value(files: Seq<ConfigFile>, target: Seq<char>) -> Option<Seq<char>>
    decreases files.len(),
{
    if files.len() == 0 {
        None
    } else {
        let here = match files[0] {
            ConfigFile::Text(c) => config_value(c@, target),
            _ => None,
        };
        match here {
            Some(v) => Some(v),
            None => files_value(files.drop_first(), target),
        }
    }
}

/// The value of `target` in the configuration files, searched in order.
pub fn load_key(files: &Vec<ConfigFile>, target: &str) -> (r: Option<String>)
    ensures
        r matches Some(s) ==> files_value(files@, target@) == Some(s@),
        r is None ==> files_value(files@, target@) is None,
{
    let mut i: usize = 0;
    assert(files@.skip(0) == files@);
    while i < files.len()
        invariant
            i <= files.len(),
            files_value(files@, target@) == files_value(files@.skip(i as int), target@),
        decreases files.len() - i,
    {
        assert(files@.skip(i as int)[0] == files@[i as int]);
        assert(files@.skip(i as int).drop_first() == files@.skip(i + 1));
        match &files[i] {
            ConfigFile::Text(c) => {
                match find_key(c.as_str(), target) {
                    Some(v) => {
                        return Some(v);
                    },
                    None => {},
                }
            },
            _ => {},
        }
        i = i + 1;
    }
    assert(files@.skip(i as int).len() == 0);
    None
}

/// The FACEIT API key written in the configuration files.
pub fn load_api_key(files: &Vec<ConfigFile>) -> (r: Option<String>)
    ensures
        r matches Some(s) ==> files_value(files@, "api_key"@) == Some(s@),
        r is None ==> files_value(files@, "api_key"@) is None,
{
    load_key(files, "api_key")
}

/// A value that is present and not empty.
pub open spec fn non_empty(v: Option<String>) -> Option<Seq<char>> {
    match v {
        Some(s) => if s@.len() > 0 {
            Some(s@)
        } else {
            None
        },
        None => None,
    }
}

/// The first of two values that is present and not empty.
pub fn first_non_empty(a: Option<String>, b: Option<String>) -> (r: Option<String>)
    ensures
        r matches Some(s) ==> Some(s@) == (if non_empty(a) is Some {
            non_empty(a)
        } else {
            non_empty(b)
        }),
        r is None ==> non_empty(a) is None && non_empty(b) is None,
{
    match a {
        Some(s) if !s.as_str().is_empty() => {
            return Some(s);
        },
        _ => {},
    }
    match b {
        Some(s) if !s.as_str().is_empty() => Some(s),
        _ => None,
    }
}

/// The key for the AI service: the environment's value if it is set and not
/// empty, else the value built into the program if that is not empty.
pub fn load_ai_api_key(env_value: Option<String>, built_in: Option<String>) -> (r: Option<String>)
    ensures
        r matches Some(s) ==> Some(s@) == (if non_empty(env_value) is Some {
            non_empty(env_value)
        } else {
            non_empty(built_in)
        }),
        r is None ==> non_empty(env_value) is None && non_empty(built_in) is None,
{
    first_non_empty(env_value, built_in)
}

/// The name of the colour theme: the environment's value if it is set and not
/// empty, else the `theme` key of the configuration files.
pub fn load_theme_name(env_value: Option<String>, files: &Vec<ConfigFile>) -> (r: Option<String>)
    ensures
        non_empty(env_value) is Some ==> (r matches Some(s) && Some(s@) == non_empty(env_value)),
        non_empty(env_value) is None ==> (r matches Some(s) ==> files_value(files@, "theme"@)
            == Some(s@)) && (r is None ==> files_value(files@, "theme"@) is None),
{
    match env_value {
        Some(s) if !s.as_str().is_empty() => Some(s),
        _ => load_key(files, "theme"),
    }
}

/// The FACEIT API key: the environment's value if set and not empty, else the
/// configuration files' `api_key`, else the built-in value if not empty, else
/// an empty key.
pub fn resolve_api_key(env_value: Option<String>, files: &Vec<ConfigFile>, built_in: Option<
    String,
>) -> (key: String)
    ensures
        key@ == (if non_empty(env_value) is Some {
            non_empty(env_value)->0
        } else if files_value(files@, "api_key"@) is Some {
            files_value(files@, "api_key"@)->0
        } else if non_empty(built_in) is Some {
            non_empty(built_in)->0
        } else {
            Seq::empty()
        }),
{
    match env_value {
        Some(s) if !s.as_str().is_empty() => {
            return s;
        },
        _ => {},
    }
    match load_api_key(files) {
        Some(k) => {
            return k;
        },
        None => {},
    }
    match built_in {
        Some(s) if !s.as_str().is_empty() => s,
        _ => String::new(),
    }
}

// ---------------------------------------------------------------------------
// Writing a key
// ---------------------------------------------------------------------------

/// The line `key = "value"` with its line ending.
pub open spec fn assignment(key: Seq<char>, value: Seq<char>) -> Seq<char> {
    key + " = \""@ + value + "\"\n"@
}

/// The line `key = "value"` with its line ending.
pub fn assignment_line(key: &str, value: &str) -> (s: String)
    ensures
        s@ == assignment(key@, value@),
{
    let mut s = owned(key);
    s.append(" = \"");
    s.append(value);
    s.append("\"\n");
    s
}

/// Whether a line assigns `key` (blank lines and `#` comments never do).
pub open spec fn assigns_key(line: Seq<char>, key: Seq<char>) -> bool {
    let t = trim(line);
    &&& t.len() > 0
    &&& !starts_with(t, "#"@)
    &&& find_char(t, '=') < t.len()
    &&& trim(t.take(find_char(t, '=') as int)) == key
}

/// Index of the first line that assigns `key`, or the number of lines.
pub open spec fn key_line(ls: Seq<Seq<char>>, key: Seq<char>) -> int
    decreases ls.len(),
{
    if ls.len() == 0 {
        0
    } else if assigns_key(ls[0], key) {
        0
    } else {
        1 + key_line(ls.drop_first(), key)
    }
}

/// The lines, each followed by `\n`.
pub open spec fn joined(ls: Seq<Seq<char>>) -> Seq<char>
    decreases ls.len(),
{
    if ls.len() == 0 {
        Seq::empty()
    } else {
        joined(ls.drop_last()) + ls.last() + "\n"@
    }
}

/// The configuration text with `key` set to `value`: the first line that
/// assigns `key` is replaced, or, when none does, the assignment is added at the
/// end (after a line break if the text does not end with one). Every line ends
/// with `\n` afterwards.
pub open spec fn updated_config(content: Seq<char>, key: Seq<char>, value: Seq<char>) -> Seq<
    char,
> {
    let ls = lines(content);
    let k = key_line(ls, key);
    if k < ls.len() {
        joined(ls.take(k)) + assignment(key, value) + joined(ls.skip(k + 1))
    } else {
        joined(ls) + (if ends_with(content, "\n"@) {
            Seq::empty()
        } else {
            "\n"@
        }) + assignment(key, value)
    }
}

/// Whether the line `v[from..to]` assigns `key`.
fn assigns_key_exec(v: &Vec<char>, from: usize, to: usize, key: &Vec<char>) -> (r: bool)
    requires
        from <= to <= v.len(),
    ensures
        r == assigns_key(v@.subrange(from as int, to as int), key@),
{
    let ghost line = v@.subrange(from as int, to as int);
    let (lo, hi) = trim_bounds(v, from, to);
    let ghost t = v@.subrange(lo as int, hi as int);
    proof {
        reveal_strlit("#");
    }
    if lo == hi {
        return false;
    }
    if v[lo] == '#' {
        assert(t.take(1) == "#"@);
        return false;
    }
    assert(!starts_with(t, "#"@)) by {
        if starts_with(t, "#"@) {
            assert(t.take(1)[0] == t[0]);
        }
    }
    let p = find_char_from(v, '=', lo);
    proof {
        lemma_find_char(v@.skip(lo as int), '=');
        assert(v@.skip(lo as int).subrange(0, hi - lo) == t);
        lemma_find_char_prefix(v@.skip(lo as int), (hi - lo) as int, '=');
    }
    if p < hi {
        let ghost q: int = p - lo;
        assert(find_char(t, '=') == q);
        let (klo, khi) = trim_bounds(v, lo, p);
        assert(t.take(q) == v@.subrange(lo as int, p as int));
        let k = slice_vec(v, klo, khi);
        same_chars(&k, key)
    } else {
        false
    }
}

/// Proof that joining one more line appends it and its line ending.
proof fn lemma_joined_push(ls: Seq<Seq<char>>, l: Seq<char>)
    ensures
        joined(ls.push(l)) == joined(ls) + l + "\n"@,
{
    assert(ls.push(l).drop_last() == ls);
}

/// Proof that `key_line` is an index of the lines or their number, and names
/// the first line that assigns the key.
proof fn lemma_key_line(ls: Seq<Seq<char>>, key: Seq<char>)
    ensures
        0 <= key_line(ls, key) <= ls.len(),
        key_line(ls, key) < ls.len() ==> assigns_key(ls[key_line(ls, key)], key),
        forall|j: int| 0 <= j < key_line(ls, key) ==> !assigns_key(#[trigger] ls[j], key),
    decreases ls.len(),
{
    if ls.len() > 0 && !assigns_key(ls[0], key) {
        lemma_key_line(ls.drop_first(), key);
        assert forall|j: int| 0 <= j < key_line(ls, key) implies !assigns_key(
            #[trigger] ls[j],
            key,
        ) by {
            if j > 0 {
                assert(ls[j] == ls.drop_first()[j - 1]);
            }
        }
    }
}

/// The configuration text with `key` set to `value`.
pub fn update_or_append_key(content: &str, key: &str, value: &str) -> (s: String)
    ensures
        s@ == updated_config(content@, key@, value@),
{
    let v = chars_of(content);
    let kv = chars_of(key);
    let bounds = line_bounds(&v);
    let ghost ls = lines(v@);
    let ghost k = key_line(ls, key@);
    proof {
        lemma_key_line(ls, key@);
    }
    let line = assignment_line(key, value);
    let mut out = String::new();
    let mut found = false;
    let mut i: usize = 0;
    while i < bounds.len()
        invariant
            i <= bounds.len(),
            bounds@.len() == ls.len(),
            ls == lines(v@),
            v@ == content@,
            kv@ == key@,
            line@ == assignment(key@, value@),
            k == key_line(ls, key@),
            0 <= k <= ls.len(),
            k < ls.len() ==> assigns_key(ls[k], key@),
            forall|j: int| 0 <= j < k ==> !assigns_key(#[trigger] ls[j], key@),
            forall|j: int|
                #![trigger bounds@[j]]
                0 <= j < bounds@.len() ==> bounds@[j].0 <= bounds@[j].1 <= v@.len(),
            forall|j: int|
                0 <= j < bounds@.len() ==> v@.subrange(bounds@[j].0 as int, bounds@[j].1 as int)
                    == #[trigger] ls[j],
            found == (k < i),
            !found ==> out@ == joined(ls.take(i as int)),
            found ==> out@ == joined(ls.take(k)) + assignment(key@, value@) + joined(
                ls.subrange(k + 1, i as int),
            ),
        decreases bounds.len() - i,
    {
        let (from, to) = bounds[i];
        assert(bounds@[i as int].0 <= bounds@[i as int].1 <= v@.len());
        let ghost l = ls[i as int];
        assert(ls.take(i + 1) == ls.take(i as int).push(l));
        assert(v@.subrange(from as int, to as int) == l);
        let is_key = if !found {
            assigns_key_exec(&v, from, to, &kv)
        } else {
            false
        };
        assert(is_key ==> assigns_key(l, key@));
        if is_key {
            assert(k == i) by {
                if k > i {
                    assert(!assigns_key(ls[i as int], key@));
                }
            }
            out.append(line.as_str());
            found = true;
            assert(ls.subrange(k + 1, i + 1) == Seq::<Seq<char>>::empty());
        } else {
            push_range(&mut out, &v, from, to);
            out.append("\n");
            proof {
                lemma_joined_push(ls.take(i as int), l);
                if found {
                    assert(ls.subrange(k + 1, i + 1) == ls.subrange(k + 1, i as int).push(l));
                    lemma_joined_push(ls.subrange(k + 1, i as int), l);
                } else {
                    assert(k != i) by {
                        if k == i {
                            assert(assigns_key(ls[k], key@));
                        }
                    }
                }
            }
        }
        i = i + 1;
    }
    assert(ls.take(i as int) == ls);
    if !found {
        let nl = chars_of("\n");
        if !ends_with_text(&v, &nl) {
            out.append("\n");
        }
        out.append(line.as_str());
    } else {
        assert(ls.subrange(k + 1, i as int) == ls.skip(k + 1));
    }
    out
}

/// Whether `v` ends with `p`.
fn ends_with_text(v: &Vec<char>, p: &Vec<char>) -> (r: bool)
    ensures
        r == ends_with(v@, p@),
{
    crate::text::ends_with_chars(v, p)
}

/// Where the theme name is saved and what the file then holds.
pub struct ThemeWrite {
    /// The index of the existing file to overwrite, or none for a new
    /// `config.toml` in the working directory.
    pub target: Option<usize>,
    pub content: String,
}

/// Index of the first file that exists, or the number of files.
pub open spec fn first_existing(files: Seq<ConfigFile>) -> int
    decreases files.len(),
{
    if files.len() == 0 {
        0
    } else if !(files[0] is Missing) {
        0
    } else {
        1 + first_existing(files.drop_first())
    }
}

/// Saves the theme name: into the first configuration file that exists (its
/// `theme` line replaced or added, or the file rewritten with just that line if
/// it cannot be read), else into a new file.
pub fn save_theme_name(name: &str, files: &Vec<ConfigFile>) -> (w: ThemeWrite)
    ensures
        first_existing(files@) < files@.len() ==> w.target == Some(first_existing(files@) as usize),
        first_existing(files@) == files@.len() ==> w.target is None,
        w.content@ == match w.target {
            Some(i) => match files@[i as int] {
                ConfigFile::Text(c) => updated_config(c@, "theme"@, name@),
                _ => assignment("theme"@, name@),
            },
            None => assignment("theme"@, name@),
        },
{
    let mut i: usize = 0;
    assert(files@.skip(0) == files@);
    while i < files.len()
        invariant
            i <= files.len(),
            first_existing(files@) == i + first_existing(files@.skip(i as int)),
        decreases files.len() - i,
    {
        assert(files@.skip(i as int)[0] == files@[i as int]);
        assert(files@.skip(i as int).drop_first() == files@.skip(i + 1));
        match &files[i] {
            ConfigFile::Missing => {},
            ConfigFile::Unreadable => {
                return ThemeWrite { target: Some(i), content: assignment_line("theme", name) };
            },
            ConfigFile::Text(c) => {
                return ThemeWrite {
                    target: Some(i),
                    content: update_or_append_key(c.as_str(), "theme", name),
                };
            },
        }
        i = i + 1;
    }
    assert(files@.skip(i as int).len() == 0);
    ThemeWrite { target: None, content: assignment_line("theme", name) }
}

// ---------------------------------------------------------------------------
// Reading back what was written
// ---------------------------------------------------------------------------

/// `l` without one `\r` at its end.
pub open spec fn strip_cr(l: Seq<char>) -> Seq<char> {
    if l.len() > 0 && l.last() == '\r' {
        l.drop_last()
    } else {
        l
    }
}

/// Whether `s` holds no `c`.
pub open spec fn lacks(s: Seq<char>, c: char) -> bool {
    forall|i: int| 0 <= i < s.len() ==> s[i] != c
}

/// Proof that the first `c` after a text without `c` is found past that text.
proof fn lemma_find_char_after(a: Seq<char>, b: Seq<char>, c: char)
    requires
        lacks(a, c),
    ensures
        find_char(a + b, c) == a.len() + find_char(b, c),
    decreases a.len(),
{
    if a.len() > 0 {
        assert((a + b).drop_first() == a.drop_first() + b);
        assert((a + b)[0] == a[0]);
        lemma_find_char_after(a.drop_first(), b, c);
    } else {
        assert(a + b == b);
    }
}

/// Proof that a line without `\n`, a `\n` and more text split into that line
/// (less a `\r` at its end) and the lines of the rest.
proof fn lemma_lines_cons(l: Seq<char>, rest: Seq<char>)
    requires
        lacks(l, '\n'),
    ensures
        lines(l + "\n"@ + rest) == seq![strip_cr(l)] + lines(rest),
{
    reveal_strlit("\n");
    let nl = seq!['\n'];
    assert("\n"@ == nl);
    let s = l + nl + rest;
    assert(s == l + (nl + rest));
    lemma_find_char_after(l, nl + rest, '\n');
    assert((nl + rest)[0] == '\n');
    assert(find_char(nl + rest, '\n') == 0);
    let p: int = l.len() as int;
    assert(find_char(s, '\n') == p);
    assert(s.skip(p + 1) =~= rest);
    if p > 0 && s[p - 1] == '\r' {
        assert(s.take(p - 1) =~= l.drop_last());
    } else {
        assert(s.take(p) =~= l);
    }
    assert(first_line(s) == strip_cr(l));
}

/// Proof that joined lines, followed by more text, split back into the lines
/// (each less a `\r` at its end) and the lines of the rest.
proof fn lemma_lines_joined(ls: Seq<Seq<char>>, rest: Seq<char>)
    requires
        forall|j: int| 0 <= j < ls.len() ==> lacks(#[trigger] ls[j], '\n'),
    ensures
        lines(joined(ls) + rest) == ls.map_values(|l: Seq<char>| strip_cr(l)) + lines(rest),
    decreases ls.len(),
{
    if ls.len() == 0 {
        assert(joined(ls) + rest =~= rest);
        assert(ls.map_values(|l: Seq<char>| strip_cr(l)) + lines(rest) =~= lines(rest));
    } else {
        let init = ls.drop_last();
        let last = ls.last();
        assert(lacks(ls[ls.len() - 1], '\n'));
        assert(joined(ls) + rest =~= joined(init) + (last + "\n"@ + rest));
        lemma_lines_joined(init, last + "\n"@ + rest);
        lemma_lines_cons(last, rest);
        assert(ls.map_values(|l: Seq<char>| strip_cr(l)) =~= init.map_values(
            |l: Seq<char>| strip_cr(l),
        ).push(strip_cr(last)));
        assert(lines(joined(ls) + rest) =~= ls.map_values(|l: Seq<char>| strip_cr(l)) + lines(
            rest,
        ));
    }
}

/// Proof that no line of a text holds a `\n`.
proof fn lemma_lines_lack_newline(s: Seq<char>)
    ensures
        forall|j: int| 0 <= j < lines(s).len() ==> lacks(#[trigger] lines(s)[j], '\n'),
    decreases s.len(),
{
    if s.len() > 0 {
        let p = find_char(s, '\n');
        lemma_find_char(s, '\n');
        if p < s.len() {
            lemma_lines_lack_newline(s.skip((p + 1) as int));
            let first = first_line(s);
            assert(lacks(first, '\n'));
            assert forall|j: int| 0 <= j < lines(s).len() implies lacks(
                #[trigger] lines(s)[j],
                '\n',
            ) by {
                if j > 0 {
                    assert(lines(s)[j] == lines(s.skip((p + 1) as int))[j - 1]);
                }
            }
        }
    }
}

/// Proof that white space added at the end of a text does not survive
/// `trim_start` unless something else does.
proof fn lemma_trim_start_push(x: Seq<char>, c: char)
    requires
        is_ws(c),
    ensures
        trim_start(x.push(c)) == if trim_start(x).len() > 0 {
            trim_start(x).push(c)
        } else {
            Seq::<char>::empty()
        },
    decreases x.len(),
{
    if x.len() == 0 {
        assert(x.push(c) =~= seq![c]);
        assert(seq![c].drop_first() =~= Seq::<char>::empty());
        assert(trim_start(Seq::<char>::empty()) == Seq::<char>::empty());
        assert(trim_start(seq![c]) == trim_start(seq![c].drop_first()));
    } else {
        assert(x.push(c)[0] == x[0]);
        if is_ws(x[0]) {
            assert(x.push(c).drop_first() =~= x.drop_first().push(c));
            lemma_trim_start_push(x.drop_first(), c);
        } else {
            assert(trim_start(x) == x);
            assert(trim_start(x.push(c)) == x.push(c));
        }
    }
}

/// Proof that a `\r` at the end of a line does not change the trimmed line.
proof fn lemma_trim_strip_cr(l: Seq<char>)
    ensures
        trim(strip_cr(l)) == trim(l),
{
    if l.len() > 0 && l.last() == '\r' {
        let y = l.drop_last();
        assert(l =~= y.push('\r'));
        lemma_trim_start_push(y, '\r');
        if trim_start(y).len() > 0 {
            assert(trim_start(y).push('\r').drop_last() =~= trim_start(y));
        }
    }
}

/// Proof that earlier lines that give `key` no value are passed over, also
/// when their `\r` line endings are gone.
proof fn lemma_first_line_value_skip(p: Seq<Seq<char>>, x: Seq<Seq<char>>, key: Seq<char>)
    requires
        first_line_value(p, key) is None,
    ensures
        first_line_value(p.map_values(|l: Seq<char>| strip_cr(l)) + x, key)
            == first_line_value(x, key),
    decreases p.len(),
{
    let m = p.map_values(|l: Seq<char>| strip_cr(l));
    if p.len() == 0 {
        assert(m + x =~= x);
    } else {
        lemma_trim_strip_cr(p[0]);
        assert((m + x)[0] == strip_cr(p[0]));
        assert(line_value(strip_cr(p[0]), key) == line_value(p[0], key));
        assert((m + x).drop_first() =~= p.drop_first().map_values(|l: Seq<char>| strip_cr(l))
            + x);
        lemma_first_line_value_skip(p.drop_first(), x, key);
    }
}

/// Proof that, for any key but `api_key`, lines that do not assign the key
/// give it no value.
proof fn lemma_no_value_without_assignment(p: Seq<Seq<char>>, key: Seq<char>)
    requires
        key != "api_key"@,
        forall|j: int| 0 <= j < p.len() ==> !assigns_key(#[trigger] p[j], key),
    ensures
        first_line_value(p, key) is None,
    decreases p.len(),
{
    if p.len() > 0 {
        assert(!assigns_key(p[0], key));
        assert forall|j: int| 0 <= j < p.drop_first().len() implies !assigns_key(
            #[trigger] p.drop_first()[j],
            key,
        ) by {
            assert(p.drop_first()[j] == p[j + 1]);
        }
        lemma_no_value_without_assignment(p.drop_first(), key);
    }
}

/// Whether a key can be written as `key = "value"` and read back: it holds no
/// `=` and no line break, has no white space around it and does not start with
/// `#`.
pub open spec fn writable_key(key: Seq<char>) -> bool {
    &&& lacks(key, '=')
    &&& lacks(key, '\n')
    &&& trim(key) == key
    &&& !starts_with(key, "#"@)
}

/// Whether a value can be written between quotes and read back: it is not
/// empty, holds no line break and has neither white space nor `"` around it.
pub open spec fn writable_value(value: Seq<char>) -> bool {
    &&& value.len() > 0
    &&& lacks(value, '\n')
    &&& trim(value) == value
    &&& value[0] != '"'
    &&& value.last() != '"'
}

/// Proof that trimming never lengthens a text.
proof fn lemma_trim_len(s: Seq<char>)
    ensures
        trim_start(s).len() <= s.len(),
        trim_end(s).len() <= s.len(),
    decreases s.len(),
{
    if s.len() > 0 {
        lemma_trim_len(s.drop_first());
        lemma_trim_len(s.drop_last());
    }
}

/// Proof that a text equal to its trimmed form neither starts nor ends with
/// white space, and that `trim_start` and `trim_end` leave it alone.
proof fn lemma_trimmed(s: Seq<char>)
    requires
        trim(s) == s,
        s.len() > 0,
    ensures
        !is_ws(s[0]),
        !is_ws(s.last()),
        trim_start(s) == s,
        trim_end(s) == s,
{
    lemma_trim_len(s);
    lemma_trim_len(trim_start(s));
    if is_ws(s[0]) {
        lemma_trim_len(s.drop_first());
        assert(trim_start(s) == trim_start(s.drop_first()));
        assert(false);
    }
    assert(trim_start(s) == s);
    if is_ws(s.last()) {
        lemma_trim_len(s.drop_last());
        assert(trim_end(s) == trim_end(s.drop_last()));
        assert(false);
    }
}

/// Proof that the line `key = "value"` gives `key` the value `value`.
proof fn lemma_assignment_value(key: Seq<char>, value: Seq<char>)
    requires
        writable_key(key),
        writable_value(value),
    ensures
        line_value(key + " = \""@ + value + "\""@, key) == Some(value),
        forall|t: Seq<char>|
            t != key ==> (#[trigger] line_value(key + " = \""@ + value + "\""@, t)) is None,
{
    reveal_strlit(" = \"");
    reveal_strlit("\"");
    reveal_strlit("#");
    let eq = seq![' ', '=', ' ', '"'];
    let qt = seq!['"'];
    assert(" = \""@ == eq);
    assert("\""@ == qt);
    let a = key + eq + value + qt;
    lemma_trimmed(value);
    // The part after `=`: ` "value"`.
    let w = seq![' ', '"'] + value + qt;
    let q = seq!['"'] + value + qt;
    assert(w.drop_first() =~= q);
    assert(q.last() == '"');
    assert(trim_start(q) == q);
    assert(trim_start(w) == trim_start(w.drop_first()));
    assert(trim_end(q) == q);
    assert(trim(w) == q);
    assert(q.drop_first() =~= value + qt);
    assert((value + qt)[0] == value[0]);
    assert(strip_lead(value + qt, '"') == value + qt);
    assert(strip_lead(q, '"') == strip_lead(q.drop_first(), '"'));
    assert((value + qt).drop_last() =~= value);
    assert(strip_trail(value, '"') == value);
    assert(strip_trail(value + qt, '"') == strip_trail((value + qt).drop_last(), '"'));
    assert(trim_char(q, '"') == value);
    if key.len() > 0 {
        lemma_trimmed(key);
        assert(a[0] == key[0]);
        assert(a.last() == '"');
        assert(trim_start(a) == a);
        assert(trim_end(a) == a);
        assert(trim(a) == a);
        assert(key.take(1) != "#"@ ==> key[0] != '#') by {
            if key[0] == '#' {
                assert(key.take(1) =~= "#"@);
            }
        }
        assert(!starts_with(a, "#"@)) by {
            if starts_with(a, "#"@) {
                assert(a.take(1)[0] == a[0]);
            }
        }
        let rest = eq + value + qt;
        assert(a =~= key + rest);
        lemma_find_char_after(key, rest, '=');
        assert(rest[0] == ' ');
        assert(rest.drop_first()[0] == '=');
        assert(find_char(rest, '=') == 1 + find_char(rest.drop_first(), '='));
        let p: int = key.len() as int + 1;
        assert(find_char(a, '=') == p);
        assert(a.take(p) =~= key.push(' '));
        lemma_trim_start_push(key, ' ');
        assert(key.push(' ').drop_last() =~= key);
        assert(trim_end(key.push(' ')) == trim_end(key));
        assert(trim(a.take(p)) == key);
        assert(a.skip(p + 1) =~= w);
        assert forall|t: Seq<char>| t != key implies (#[trigger] line_value(a, t)) is None by {}
    } else {
        assert(a =~= eq + value + qt);
        assert(a[0] == ' ');
        let t = a.drop_first();
        assert(t[0] == '=');
        assert(trim_start(a) == trim_start(t));
        assert(trim_start(t) == t);
        assert(t.last() == '"');
        assert(trim_end(t) == t);
        assert(trim(a) == t);
        assert(!starts_with(t, "#"@)) by {
            if starts_with(t, "#"@) {
                assert(t.take(1)[0] == t[0]);
            }
        }
        assert(find_char(t, '=') == 0);
        assert(t.take(0) =~= Seq::<char>::empty());
        assert(key =~= Seq::<char>::empty());
        assert(trim(Seq::<char>::empty()) == Seq::<char>::empty());
        assert(t.skip(1) =~= w);
        assert forall|u: Seq<char>| u != key implies (#[trigger] line_value(a, u)) is None by {}
    }
}

/// The line `key = "value"` without its line ending.
pub open spec fn assignment_text(key: Seq<char>, value: Seq<char>) -> Seq<char> {
    key + " = \""@ + value + "\""@
}

/// Proof of what the written line is made of: the assignment and a line
/// ending, with no other line break and no `\r` at its end, giving `key` the
/// value `value`.
proof fn lemma_assignment_line(key: Seq<char>, value: Seq<char>)
    requires
        writable_key(key),
        writable_value(value),
    ensures
        assignment(key, value) == assignment_text(key, value) + "\n"@,
        lacks(assignment_text(key, value), '\n'),
        strip_cr(assignment_text(key, value)) == assignment_text(key, value),
        line_value(assignment_text(key, value), key) == Some(value),
        forall|t: Seq<char>|
            t != key ==> (#[trigger] line_value(assignment_text(key, value), t)) is None,
{
    reveal_strlit(" = \"");
    reveal_strlit("\"");
    reveal_strlit("\n");
    reveal_strlit("\"\n");
    let a = assignment_text(key, value);
    lemma_assignment_value(key, value);
    assert(a =~= key + seq![' ', '=', ' ', '"'] + value + seq!['"']);
    assert(lacks(a, '\n')) by {
        assert forall|i: int| 0 <= i < a.len() implies a[i] != '\n' by {
            if i < key.len() {
                assert(a[i] == key[i]);
            } else if i < key.len() + 4 {
            } else if i < key.len() + 4 + value.len() {
                assert(a[i] == value[i - key.len() - 4]);
            }
        }
    }
    assert(a.last() == '"');
    assert(assignment(key, value) =~= a + "\n"@);
}

/// Setting a key and reading it back: once `key = "value"` has been written
/// into a configuration text (see `updated_config`), the text gives `key` the
/// value `value`. It holds for keys and values that survive being written
/// between quotes (see `writable_key` and `writable_value`). For `api_key` a
/// line without `=` is read as the key itself, so there it holds when no such
/// line comes before the one written.
pub proof fn lemma_read_after_write(content: Seq<char>, key: Seq<char>, value: Seq<char>)
    requires
        writable_key(key),
        writable_value(value),
        key != "api_key"@ || first_line_value(
            lines(content).take(key_line(lines(content), key)),
            key,
        ) is None,
    ensures
        config_value(updated_config(content, key, value), key) == Some(value),
{
    let ls = lines(content);
    let k = key_line(ls, key);
    lemma_key_line(ls, key);
    lemma_lines_lack_newline(content);
    let prefix = ls.take(k);
    assert forall|j: int| 0 <= j < prefix.len() implies lacks(#[trigger] prefix[j], '\n') by {
        assert(prefix[j] == ls[j]);
    }
    if key != "api_key"@ {
        assert forall|j: int| 0 <= j < prefix.len() implies !assigns_key(#[trigger] prefix[j], key) by {
            assert(prefix[j] == ls[j]);
        }
        lemma_no_value_without_assignment(prefix, key);
    }
    lemma_assignment_line(key, value);
    if k < ls.len() {
        lemma_written_over(content, key, value);
    } else {
        lemma_written_after(content, key, value);
    }
}

/// The case of `lemma_read_after_write` where a line assigning the key is
/// replaced.
proof fn lemma_written_over(content: Seq<char>, key: Seq<char>, value: Seq<char>)
    requires
        key_line(lines(content), key) < lines(content).len(),
        first_line_value(lines(content).take(key_line(lines(content), key)), key) is None,
        forall|j: int|
            0 <= j < lines(content).take(key_line(lines(content), key)).len() ==> lacks(
                #[trigger] lines(content).take(key_line(lines(content), key))[j],
                '\n',
            ),
        assignment(key, value) == assignment_text(key, value) + "\n"@,
        lacks(assignment_text(key, value), '\n'),
        strip_cr(assignment_text(key, value)) == assignment_text(key, value),
        line_value(assignment_text(key, value), key) == Some(value),
    ensures
        config_value(updated_config(content, key, value), key) == Some(value),
{
    let ls = lines(content);
    let k = key_line(ls, key);
    let prefix = ls.take(k);
    let a = assignment_text(key, value);
    let line = assignment(key, value);
    let rest = joined(ls.skip(k + 1));
    assert(updated_config(content, key, value) =~= joined(prefix) + (line + rest));
    assert(line + rest =~= a + "\n"@ + rest);
    lemma_lines_joined(prefix, line + rest);
    lemma_lines_cons(a, rest);
    lemma_first_line_value_skip(prefix, lines(line + rest), key);
    assert((seq![a] + lines(rest))[0] == a);
}

/// The case of `lemma_read_after_write` where the assignment is added at the
/// end.
proof fn lemma_written_after(content: Seq<char>, key: Seq<char>, value: Seq<char>)
    requires
        key_line(lines(content), key) == lines(content).len(),
        first_line_value(lines(content).take(key_line(lines(content), key)), key) is None,
        forall|j: int|
            0 <= j < lines(content).take(key_line(lines(content), key)).len() ==> lacks(
                #[trigger] lines(content).take(key_line(lines(content), key))[j],
                '\n',
            ),
        assignment(key, value) == assignment_text(key, value) + "\n"@,
        lacks(assignment_text(key, value), '\n'),
        strip_cr(assignment_text(key, value)) == assignment_text(key, value),
        line_value(assignment_text(key, value), key) == Some(value),
    ensures
        config_value(updated_config(content, key, value), key) == Some(value),
{
    reveal_strlit("\n");
    let ls = lines(content);
    assert(ls.take(ls.len() as int) =~= ls);
    let a = assignment_text(key, value);
    let line = assignment(key, value);
    let nl: Seq<char> = if ends_with(content, "\n"@) {
        Seq::empty()
    } else {
        "\n"@
    };
    assert(updated_config(content, key, value) =~= joined(ls) + (nl + line));
    lemma_lines_joined(ls, nl + line);
    lemma_first_line_value_skip(ls, lines(nl + line), key);
    let none = Seq::<char>::empty();
    assert(line =~= a + "\n"@ + none);
    lemma_lines_cons(a, none);
    assert(lines(line) =~= seq![a]);
    assert(seq![a][0] == a);
    assert(first_line_value(seq![a], key) == Some(value));
    if nl.len() == 0 {
        assert(nl + line =~= line);
    } else {
        assert(nl + line =~= none + "\n"@ + line);
        lemma_lines_cons(none, line);
        assert(lines(nl + line) =~= seq![none, a]);
        assert(line_value(none, key) is None);
        assert(seq![none, a][0] == none);
        assert(seq![none, a].drop_first() =~= seq![a]);
        assert(first_line_value(seq![none, a], key) == first_line_value(seq![a], key));
    }
}

/// Proof that lines less their `\r` endings give every key what the lines
/// give it.
proof fn lemma_first_line_value_strip(p: Seq<Seq<char>>, t: Seq<char>)
    ensures
        first_line_value(p.map_values(|l: Seq<char>| strip_cr(l)), t) == first_line_value(p, t),
    decreases p.len(),
{
    if p.len() > 0 {
        let m = p.map_values(|l: Seq<char>| strip_cr(l));
        lemma_trim_strip_cr(p[0]);
        assert(m[0] == strip_cr(p[0]));
        assert(m.drop_first() =~= p.drop_first().map_values(|l: Seq<char>| strip_cr(l)));
        lemma_first_line_value_strip(p.drop_first(), t);
    }
}

/// Proof that lines followed by more lines give a key what the first lines
/// give it, or else what the others give it.
proof fn lemma_first_line_value_concat(p: Seq<Seq<char>>, x: Seq<Seq<char>>, t: Seq<char>)
    ensures
        first_line_value(p + x, t) == match first_line_value(p, t) {
            Some(v) => Some(v),
            None => first_line_value(x, t),
        },
    decreases p.len(),
{
    if p.len() == 0 {
        assert(p + x =~= x);
    } else {
        assert((p + x)[0] == p[0]);
        assert((p + x).drop_first() =~= p.drop_first() + x);
        lemma_first_line_value_concat(p.drop_first(), x, t);
    }
}

/// Setting a key leaves every other key as it was: once `key = "value"` has
/// been written into a configuration text (see `updated_config`), any other key
/// reads as it read before. It holds for keys and values that survive being
/// written between quotes (see `writable_key` and `writable_value`).
pub proof fn lemma_write_keeps_other_keys(
    content: Seq<char>,
    key: Seq<char>,
    value: Seq<char>,
    other: Seq<char>,
)
    requires
        writable_key(key),
        writable_value(value),
        other != key,
    ensures
        config_value(updated_config(content, key, value), other) == config_value(content, other),
{
    reveal_strlit("\n");
    let ls = lines(content);
    let k = key_line(ls, key);
    lemma_key_line(ls, key);
    lemma_lines_lack_newline(content);
    lemma_assignment_line(key, value);
    let a = assignment_text(key, value);
    let line = assignment(key, value);
    let none = Seq::<char>::empty();
    assert(line_value(a, other) is None);
    assert(lines(none) =~= Seq::<Seq<char>>::empty());
    if k < ls.len() {
        let prefix = ls.take(k);
        let suffix = ls.skip(k + 1);
        assert forall|j: int| 0 <= j < prefix.len() implies lacks(#[trigger] prefix[j], '\n') by {
            assert(prefix[j] == ls[j]);
        }
        assert forall|j: int| 0 <= j < suffix.len() implies lacks(#[trigger] suffix[j], '\n') by {
            assert(suffix[j] == ls[j + k + 1]);
        }
        let rest = joined(suffix);
        assert(updated_config(content, key, value) =~= joined(prefix) + (line + rest));
        assert(line + rest =~= a + "\n"@ + rest);
        lemma_lines_joined(prefix, line + rest);
        lemma_lines_cons(a, rest);
        assert(rest =~= joined(suffix) + none);
        lemma_lines_joined(suffix, none);
        let pm = prefix.map_values(|l: Seq<char>| strip_cr(l));
        let sm = suffix.map_values(|l: Seq<char>| strip_cr(l));
        assert(lines(rest) =~= sm);
        assert(lines(updated_config(content, key, value)) == pm + (seq![a] + sm));
        lemma_first_line_value_concat(pm, seq![a] + sm, other);
        lemma_first_line_value_concat(seq![a], sm, other);
        assert(seq![a].drop_first() =~= Seq::<Seq<char>>::empty());
        assert(seq![a][0] == a);
        assert(first_line_value(seq![a].drop_first(), other) is None);
        assert(first_line_value(seq![a], other) is None);
        lemma_first_line_value_strip(prefix, other);
        lemma_first_line_value_strip(suffix, other);
        let mid = seq![ls[k]];
        assert(ls =~= prefix + (mid + suffix));
        lemma_first_line_value_concat(prefix, mid + suffix, other);
        lemma_first_line_value_concat(mid, suffix, other);
        assert(mid.drop_first() =~= Seq::<Seq<char>>::empty());
        assert(line_value(ls[k], other) is None);
        assert(first_line_value(mid, other) is None);
    } else {
        let nl: Seq<char> = if ends_with(content, "\n"@) {
            Seq::empty()
        } else {
            "\n"@
        };
        assert(updated_config(content, key, value) =~= joined(ls) + (nl + line));
        lemma_lines_joined(ls, nl + line);
        let lm = ls.map_values(|l: Seq<char>| strip_cr(l));
        assert(line =~= a + "\n"@ + none);
        lemma_lines_cons(a, none);
        assert(lines(line) =~= seq![a]);
        assert(seq![a].drop_first() =~= Seq::<Seq<char>>::empty());
        assert(seq![a][0] == a);
        assert(first_line_value(seq![a].drop_first(), other) is None);
        assert(first_line_value(seq![a], other) is None);
        if nl.len() == 0 {
            assert(nl + line =~= line);
        } else {
            assert(nl + line =~= none + "\n"@ + line);
            lemma_lines_cons(none, line);
            assert(lines(nl + line) =~= seq![none, a]);
            assert(line_value(none, other) is None);
            assert(seq![none, a][0] == none);
            assert(seq![none, a].drop_first() =~= seq![a]);
        }
        assert(first_line_value(lines(nl + line), other) is None);
        lemma_first_line_value_concat(lm, lines(nl + line), other);
        lemma_first_line_value_strip(ls, other);
    }
}

/// The file a theme name is saved in: the first that exists, or else the
/// first candidate, where a new file is made.
pub open spec fn theme_file(files: Seq<ConfigFile>) -> int {
    if first_existing(files) < files.len() {
        first_existing(files)
    } else {
        0
    }
}

/// Proof that `theme` can be written and read back as a key.
proof fn lemma_theme_key_writable()
    ensures
        writable_key("theme"@),
        "theme"@ != "api_key"@,
{
    reveal_strlit("theme");
    reveal_strlit("api_key");
    reveal_strlit("#");
    let k = "theme"@;
    assert(!is_ws(k[0]) && !is_ws(k.last()));
    assert(trim_start(k) == k);
    assert(trim_end(k) == k);
    assert(k.take(1) != "#"@) by {
        assert(k.take(1)[0] == 't');
    }
    assert(k.len() != "api_key"@.len());
}

/// Proof that `first_existing` is an index of the files or their number, with
/// only missing files before it.
proof fn lemma_first_existing(files: Seq<ConfigFile>)
    ensures
        0 <= first_existing(files) <= files.len(),
        forall|j: int| 0 <= j < first_existing(files) ==> #[trigger] files[j] is Missing,
    decreases files.len(),
{
    if files.len() > 0 && files[0] is Missing {
        lemma_first_existing(files.drop_first());
        assert forall|j: int| 0 <= j < first_existing(files) implies #[trigger] files[j] is Missing by {
            if j > 0 {
                assert(files[j] == files.drop_first()[j - 1]);
            }
        }
    }
}

/// Proof that missing files before the one at `i` give no value.
proof fn lemma_missing_files_skip(files: Seq<ConfigFile>, i: int, f: ConfigFile, t: Seq<char>)
    requires
        0 <= i < files.len(),
        forall|j: int| 0 <= j < i ==> #[trigger] files[j] is Missing,
    ensures
        files_value(files.update(i, f), t) == files_value(files.update(i, f).skip(i), t),
    decreases i,
{
    if i > 0 {
        let u = files.update(i, f);
        assert(files[0] is Missing);
        assert(u[0] is Missing);
        assert(u.drop_first() =~= files.drop_first().update(i - 1, f));
        assert forall|j: int| 0 <= j < i - 1 implies #[trigger] files.drop_first()[j] is Missing by {
            assert(files.drop_first()[j] == files[j + 1]);
        }
        lemma_missing_files_skip(files.drop_first(), i - 1, f, t);
        assert(u.drop_first().skip(i - 1) =~= u.skip(i));
    } else {
        assert(files.update(i, f).skip(0) =~= files.update(i, f));
    }
}

/// Saving a theme and loading it back: once the theme name has been written
/// where `save_theme_name` puts it (the first configuration file that exists,
/// or a new file in the first place searched), the files give `theme` that
/// name. It holds for names that survive being written between quotes (see
/// `writable_value`).
pub proof fn lemma_theme_saved_then_loaded(files: Seq<ConfigFile>, name: Seq<char>, written: String)
    requires
        writable_value(name),
        files.len() > 0,
        written@ == (if first_existing(files) < files.len() {
            match files[first_existing(files)] {
                ConfigFile::Text(c) => updated_config(c@, "theme"@, name),
                _ => assignment("theme"@, name),
            }
        } else {
            assignment("theme"@, name)
        }),
    ensures
        files_value(files.update(theme_file(files), ConfigFile::Text(written)), "theme"@) == Some(
            name,
        ),
{
    reveal_strlit("\n");
    let key = "theme"@;
    lemma_theme_key_writable();
    lemma_first_existing(files);
    let i = theme_file(files);
    let f = ConfigFile::Text(written);
    let u = files.update(i, f);
    lemma_missing_files_skip(files, i, f, key);
    let tail = u.skip(i);
    assert(tail[0] == f);
    lemma_assignment_line(key, name);
    let a = assignment_text(key, name);
    let none = Seq::<char>::empty();
    assert(assignment(key, name) =~= a + "\n"@ + none);
    lemma_lines_cons(a, none);
    assert(lines(none) =~= Seq::<Seq<char>>::empty());
    assert(lines(assignment(key, name)) =~= seq![a]);
    assert(seq![a][0] == a);
    assert(config_value(assignment(key, name), key) == Some(name));
    if first_existing(files) < files.len() {
        match files[first_existing(files)] {
            ConfigFile::Text(c) => {
                lemma_read_after_write(c@, key, name);
            },
            _ => {},
        }
    }
    assert(config_value(written@, key) == Some(name));
}

} // verus!
