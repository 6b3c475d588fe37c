//! Names of the files an export reads and writes.
use vstd::prelude::*;
use vstd::string::{StrSliceExecFns, StringExecFns};

verus! {

/// The character separates the components of a path, on some platforms at least.
pub open spec fn separator(c: char) -> bool {
    c == '/' || c == '\\'
}

/// No character of the text separates the components of a path on any platform.
pub open spec fn separator_free(s: Seq<char>) -> bool {
    forall|i: int| 0 <= i < s.len() ==> !separator(#[trigger] s[i])
}

pub open spec fn dot_free(s: Seq<char>) -> bool {
    forall|i: int| 0 <= i < s.len() ==> (#[trigger] s[i]) != '.'
}

/// One of the two names of directories relative to others.
pub open spec fn dots(s: Seq<char>) -> bool {
    s == seq!['.'] || s == seq!['.', '.']
}

pub open spec fn letter(c: char) -> bool {
    'a' <= c <= 'z' || 'A' <= c <= 'Z'
}

/// The text begins with what is a drive on some platforms: a letter and a colon.
pub open spec fn drive(s: Seq<char>) -> bool {
    s.len() > 1 && letter(s[0]) && s[1] == ':'
}

/// The text begins with what makes a path verbatim on some platforms.
pub open spec fn verbatim(s: Seq<char>) -> bool {
    s.len() > 3 && s[0] == '\\' && s[1] == '\\' && s[2] == '?' && s[3] == '\\'
}

/// A single path component on every platform.
pub open spec fn plain_name(s: Seq<char>) -> bool {
    s.len() > 0 && separator_free(s) && !dots(s) && !drive(s)
}

/// A path without what stands behind its last component: slashes, and single dots behind them.
pub open spec fn trimmed(path: Seq<char>) -> Seq<char>
    decreases path.len(),
{
    let n = path.len();
    if n > 0 && path.last() == '/' {
        trimmed(path.drop_last())
    } else if n > 1 && path.last() == '.' && path[n - 2] == '/' {
        trimmed(path.drop_last())
    } else {
        path
    }
}

/// Where `name` begins in a path that ends with it, slashes behind it left aside.
pub open spec fn start_of(path: Seq<char>, name: Seq<char>) -> int {
    trimmed(path).len() - name.len()
}

/// Position `at` is not part of the name of a network share: a path that begins with two
/// separators has two more before it, and is no verbatim one.
pub open spec fn beyond_share(path: Seq<char>, at: int) -> bool {
    path.len() > 1 && separator(path[0]) && separator(path[1]) ==> {
        &&& path.len() > 2
        &&& path[2] != '?'
        &&& exists|i: int, j: int|
            2 <= i < j < at && separator(#[trigger] path[i]) && separator(#[trigger] path[j])
    }
}

/// `name` is what the path ends with behind its last separator of any kind, or behind the drive:
/// the last component where backslashes and drives count, and the end of it where they do not.
pub open spec fn component(path: Seq<char>, name: Seq<char>) -> bool {
    let p = trimmed(path);
    let at = start_of(path, name);
    &&& name.len() > 0
    &&& separator_free(name)
    &&& name != seq!['.']
    &&& at >= 0
    &&& p.skip(at) == name
    &&& {
        ||| at == 0 && !drive(p)
        ||| at > 0 && separator(p[at - 1])
        ||| at == 2 && drive(p)
    }
    &&& beyond_share(p, at)
}

/// `name` is the last component of the path where only slashes count: what follows the last of
/// them, or the whole path.
pub open spec fn slash_part(path: Seq<char>, name: Seq<char>) -> bool {
    let p = trimmed(path);
    let at = start_of(path, name);
    &&& name.len() > 0
    &&& forall|i: int| 0 <= i < name.len() ==> (#[trigger] name[i]) != '/'
    &&& name != seq!['.']
    &&& at >= 0
    &&& p.skip(at) == name
    &&& at > 0 ==> p[at - 1] == '/'
}

/// `name` is the last component of the path on every platform, be it the name of a file or the
/// two dots of a directory above: a slash stands before it, or nothing.
pub open spec fn last_part(path: Seq<char>, name: Seq<char>) -> bool {
    let at = start_of(path, name);
    component(path, name) && (at > 0 ==> path[at - 1] == '/')
}

/// `name` is the file name of the path on every platform.
pub open spec fn names(path: Seq<char>, name: Seq<char>) -> bool {
    last_part(path, name) && !dots(name)
}

/// `name` tells on every platform where the stem of the file name ends: it is the file name, or
/// has an extension, or there is no dot that could begin one.
pub open spec fn tells_stem(path: Seq<char>, name: Seq<char>) -> bool {
    ||| names(path, name)
    ||| component(path, name) && !dots(name) && (last_dot(name) > 0 || dot_free(path))
}

/// The file name that a last component gives: two dots are none.
pub open spec fn file_of(part: Seq<char>) -> Option<Seq<char>> {
    if dots(part) {
        None
    } else {
        Some(part)
    }
}

/// Position of the last dot of a text, or -1.
pub open spec fn last_dot(s: Seq<char>) -> int
    decreases s.len(),
{
    if s.len() == 0 {
        -1
    } else if s.last() == '.' {
        s.len() - 1
    } else {
        last_dot(s.drop_last())
    }
}

/// A file name up to its extension: up to the last dot, unless that is the first character.
pub open spec fn stem_of(name: Seq<char>) -> Seq<char> {
    if last_dot(name) > 0 {
        name.take(last_dot(name))
    } else {
        name
    }
}

/// The extension of a file name: what follows the last dot, unless that is the first character.
pub open spec fn extension_of(name: Seq<char>) -> Option<Seq<char>> {
    if last_dot(name) > 0 {
        Some(name.skip(last_dot(name) + 1))
    } else {
        None
    }
}

/// `s` ends with `end`.
pub open spec fn ends_with(s: Seq<char>, end: Seq<char>) -> bool {
    s.len() >= end.len() && s.skip(s.len() - end.len()) == end
}

/// `part` occurs in `s` and is not empty.
pub open spec fn is_part(part: Seq<char>, s: Seq<char>) -> bool {
    part.len() > 0 && exists|k: int|
        0 <= k <= s.len() - part.len() && #[trigger] s.subrange(k, k + part.len()) == part
}

/// `between` is what stands between a directory and a name in it: a separator, unless the
/// directory is empty, ends with one or is a drive.
pub open spec fn separates(dir: Seq<char>, between: Seq<char>) -> bool {
    &&& between == Seq::<char>::empty() || between == seq!['/'] || between == seq!['\\']
    &&& dir.len() == 0 || dir.last() == '/' ==> between.len() == 0
    &&& dir.len() > 0 && !separator(dir.last()) && !(dir.len() == 2 && drive(dir))
        ==> between.len() == 1
}

/// `path` is `name` in the directory `dir`.
pub open spec fn placed(path: Seq<char>, dir: Seq<char>, name: Seq<char>) -> bool {
    exists|between: Seq<char>|
        separates(dir, between) && path == #[trigger] (dir + between) + name
}

/// `path` is `name` in the directory `dir`, as far as all platforms agree on it: in a verbatim
/// directory only that it ends with the name.
pub open spec fn in_dir(path: Seq<char>, dir: Seq<char>, name: Seq<char>) -> bool {
    ends_with(path, name) && (!verbatim(dir) ==> placed(path, dir, name))
}

/// The character separates components where backslashes do or, with `slashes`, where only slashes
/// do.
pub open spec fn splits(c: char, slashes: bool) -> bool {
    c == '/' || (c == '\\' && !slashes)
}

/// `dir` is the directory of the last component `name` of the path: between the two there is
/// nothing but separators and single dots as components of their own.
pub open spec fn beside(
    dir: Seq<char>,
    path: Seq<char>,
    name: Seq<char>,
    slashes: bool,
) -> bool {
    let at = start_of(path, name);
    &&& dir.len() <= at
    &&& path.take(dir.len() as int) == dir
    &&& at > 0 ==> dir.len() > 0
    &&& forall|i: int|
        dir.len() <= i < at ==> {
            ||| splits(#[trigger] path[i], slashes)
            ||| path[i] == '.' && i > 0 && splits(path[i - 1], slashes) && splits(
                path[i + 1],
                slashes,
            )
        }
}

/// `name` is the file name of a path where only slashes count.
pub open spec fn file_by_slashes(name: Option<Seq<char>>, path: Seq<char>) -> bool {
    exists|part: Seq<char>| #[trigger] slash_part(path, part) && name == file_of(part)
}

/// `dir` is the parent of a path where only slashes count.
pub open spec fn parent_by_slashes(dir: Seq<char>, path: Seq<char>) -> bool {
    exists|part: Seq<char>| #[trigger] slash_part(path, part) && beside(dir, path, part, true)
}

/// `name` is the file name of a path as far as all platforms agree on it: some part of the path;
/// that of its last component where it has the same on all of them, and otherwise that of its last
/// component where backslashes and drives count or where they do not; none for a path without
/// components.
pub open spec fn is_file_name(name: Option<Seq<char>>, path: Seq<char>) -> bool {
    &&& name is Some ==> is_part(name.unwrap(), path)
    &&& trimmed(path).len() == 0 ==> name is None
    &&& forall|n: Seq<char>| #[trigger] last_part(path, n) ==> name == file_of(n)
    &&& forall|n: Seq<char>| #[trigger]
        component(path, n) ==> name == file_of(n) || file_by_slashes(name, path)
}

/// `dir` is the parent of a path as far as all platforms agree on it: a shorter beginning of the
/// path; the directory of its last component where it has the same on all of them, and otherwise
/// that of its last component where backslashes and drives count or where they do not; none for a
/// path without components.
pub open spec fn is_parent(dir: Option<Seq<char>>, path: Seq<char>) -> bool {
    &&& dir is Some ==> begins(dir.unwrap(), path)
    &&& trimmed(path).len() == 0 ==> dir is None
    &&& forall|n: Seq<char>| #[trigger]
        last_part(path, n) ==> dir is Some && beside(dir.unwrap(), path, n, false)
    &&& forall|n: Seq<char>| #[trigger]
        component(path, n) ==> dir is Some && {
            ||| beside(dir.unwrap(), path, n, false)
            ||| parent_by_slashes(dir.unwrap(), path)
        }
}

/// A text that no platform takes for an absolute path or for one on another drive.
pub open spec fn relative(s: Seq<char>) -> bool {
    s.len() > 0 && !separator(s[0]) && !drive(s)
}

/// `r` is `name` joined to the path `dir`, as far as all platforms agree on it. A relative name is
/// placed in the directory, and one joined to nothing is all there is; any other is at least the
/// end of the result, unless a verbatim directory makes the platform look into it.
pub open spec fn is_joined(r: Seq<char>, dir: Seq<char>, name: Seq<char>) -> bool {
    &&& !verbatim(dir) || (separator_free(name) && !dots(name)) ==> ends_with(r, name)
    &&& !verbatim(dir) && relative(name) ==> placed(r, dir, name)
    &&& dir.len() == 0 ==> r == name
}

/// `s` begins with `start` and is longer.
pub open spec fn begins(start: Seq<char>, s: Seq<char>) -> bool {
    start.len() < s.len() && s.take(start.len() as int) == start
}

/// The text of an optional name.
pub open spec fn text_of(name: Option<String>) -> Option<Seq<char>> {
    match name {
        Some(n) => Some(n@),
        None => None,
    }
}

/// The value of the two decimal digits at position `i`.
pub open spec fn two_digits(s: Seq<char>, i: int) -> int {
    (s[i] as int - '0' as int) * 10 + (s[i + 1] as int - '0' as int)
}

/// A date and a time of day as `YYYYMMDD_hhmmss`; a year that does not have four digits is
/// longer and has a sign.
pub open spec fn is_timestamp(s: Seq<char>) -> bool {
    let n = s.len() as int;
    &&& n >= 15
    &&& s[n - 7] == '_'
    &&& forall|i: int|
        0 <= i < n && i != n - 7 ==> {
            ||| '0' <= #[trigger] s[i] <= '9'
            ||| i == 0 && n > 15 && (s[i] == '+' || s[i] == '-')
        }
    &&& 1 <= two_digits(s, n - 11) <= 12
    &&& 1 <= two_digits(s, n - 9) <= 31
    &&& 0 <= two_digits(s, n - 6) <= 23
    &&& 0 <= two_digits(s, n - 4) <= 59
    &&& 0 <= two_digits(s, n - 2) <= 60
}

/// The format of the time stamp in generated names.
pub open spec fn timestamp_format() -> Seq<char> {
    "%Y%m%d_%H%M%S"@
}

/// Calls `chrono::Local::now` and formats the result with `DateTime::format`. Of the result,
/// which depends on the clock and the time zone, it is claimed that this format gives the year,
/// two digits each for month and day, an underscore, and two digits each for hour, minute and
/// second, all within their ranges. A clock that stands before 1970, or a time zone that the system
/// describes with an offset that is none, makes `now` panic.
#[verifier::external_body]
fn local_timestamp(format: &str) -> (r: String)
    requires
        format@ == timestamp_format(),
    ensures
        is_timestamp(r@),
{
    chrono::Local::now().format(format).to_string()
}

/// Calls `std::path::Path::file_name`. What separates the components of a path depends on the
/// platform. On each of them the name is a part of the path that is not empty: the last component
/// where all find the same one, and otherwise that of either reading, with or without backslashes
/// and drives; two dots and slashes alone give none. Which reading applies is left open.
#[verifier::external_body]
pub(crate) fn file_name(path: &str) -> (r: Option<String>)
    ensures
        is_file_name(text_of(r), path@),
{
    std::path::Path::new(path).file_name().and_then(|n| n.to_str()).map(|n| n.to_string())
}

/// Calls `std::path::Path::parent`. On every platform the parent is a shorter beginning of the
/// path, and slashes alone give none: it is what stands before the last component, without the
/// separators and single dots between the two as far as they are not the root. Where backslashes
/// or a drive make the last component differ, it is that of either reading; which one applies is
/// left open.
#[verifier::external_body]
fn parent(path: &str) -> (r: Option<String>)
    ensures
        is_parent(text_of(r), path@),
{
    std::path::Path::new(path).parent().map(|p| p.to_string_lossy().to_string())
}

/// Calls `std::path::Path::join`. On every platform a relative name is joined to a directory that
/// is not verbatim with a separator, of the platform's kind, unless the directory is empty, ends
/// with one or is a drive; joined to an empty path, any name is the result; and what is joined ends
/// with the name.
#[verifier::external_body]
pub(crate) fn join(dir: &str, name: &str) -> (r: String)
    ensures
        is_joined(r@, dir@, name@),
{
    std::path::Path::new(dir).join(name).to_string_lossy().to_string()
}

/// `r` is the path with the extension `extension` if `name` is its last component: two dots stay
/// as they are, and a file name loses what follows its stem for a dot and the extension.
pub open spec fn extended_at(
    r: Seq<char>,
    path: Seq<char>,
    name: Seq<char>,
    extension: Seq<char>,
) -> bool {
    if dots(name) {
        r == path
    } else {
        r == path.take(start_of(path, name) + stem_of(name).len()) + "."@ + extension
    }
}

/// `r` is the path `path` with the extension `extension`, as far as all platforms agree on it: a
/// path without a file name stays as it is, and any other loses what follows the stem of its name
/// for a dot and the extension. Where the end of the stem is told, so is the result; otherwise it
/// goes by the last component where backslashes and drives count or where they do not.
pub open spec fn extended(r: Seq<char>, path: Seq<char>, extension: Seq<char>) -> bool {
    &&& {
        ||| r == path
        ||| exists|k: int| 0 < k <= path.len() && r == #[trigger] path.take(k) + "."@ + extension
    }
    &&& forall|name: Seq<char>| #[trigger]
        tells_stem(path, name) ==> extended_at(r, path, name, extension)
    &&& forall|name: Seq<char>| #[trigger]
        component(path, name) ==> {
            ||| extended_at(r, path, name, extension)
            ||| exists|part: Seq<char>| #[trigger]
                slash_part(path, part) && extended_at(r, path, part, extension)
        }
}

/// Calls `std::path::PathBuf::set_extension`, which panics on an extension with a separator. On
/// every platform the result is the path up to the stem of its file name, a dot and the extension,
/// or the path itself where it has no file name. Where the readings with and without backslashes
/// and drives see different stems, it goes by one of them; which one applies is left open.
#[verifier::external_body]
pub(crate) fn with_extension(path: &str, extension: &str) -> (r: String)
    requires
        plain_name(extension@),
    ensures
        extended(r@, path@, extension@),
{
    let mut p = std::path::PathBuf::from(path);
    p.set_extension(extension);
    p.to_string_lossy().to_string()
}

/// Splits a file name into stem and extension.
pub fn split_file_name(name: &str) -> (r: (String, Option<String>))
    ensures
        r.0@ == stem_of(name@),
        match r.1 {
            Some(e) => extension_of(name@) == Some(e@),
            None => extension_of(name@) is None,
        },
{
    let len: usize = name.unicode_len();
    let mut i: usize = len;
    assert(name@.take(len as int) =~= name@);
    while i > 0
        invariant
            i <= len,
            len == name@.len(),
            last_dot(name@) == last_dot(name@.take(i as int)),
        decreases i,
    {
        i = i - 1;
        assert(name@.take(i + 1).last() == name@[i as int]);
        assert(name@.take(i + 1).drop_last() =~= name@.take(i as int));
        if name.get_char(i) == '.' {
            if i == 0 {
                return (name.to_owned(), None);
            }
            return (
                name.substring_char(0, i).to_owned(),
                Some(name.substring_char(i + 1, len).to_owned()),
            );
        }
    }
    (name.to_owned(), None)
}

/// Name of the cut version of a file: its stem, the time stamp, and its extension; a missing
/// stem becomes `output`, a missing extension `mp4`.
pub open spec fn cut_name(file_name: Option<Seq<char>>, timestamp: Seq<char>) -> Seq<char> {
    let stem = match file_name {
        Some(name) => stem_of(name),
        None => "output"@,
    };
    let extension = match file_name {
        Some(name) => match extension_of(name) {
            Some(e) => e,
            None => "mp4"@,
        },
        None => "mp4"@,
    };
    stem + "_"@ + timestamp + "_cut."@ + extension
}

/// Name of the cut version of a file at a given time.
pub fn output_file_name(file_name: Option<String>, timestamp: &str) -> (r: String)
    ensures
        r@ == cut_name(text_of(file_name), timestamp@),
{
    let (stem, extension): (String, Option<String>) = match file_name {
        Some(name) => split_file_name(name.as_str()),
        None => ("output".to_owned(), None),
    };
    let mut out: String = stem;
    out.append("_");
    out.append(timestamp);
    out.append("_cut.");
    match extension {
        Some(e) => out.append(e.as_str()),
        None => out.append("mp4"),
    }
    out
}

/// The last dot is within the text.
pub proof fn lemma_last_dot(name: Seq<char>)
    ensures
        -1 <= last_dot(name) < name.len(),
        last_dot(name) >= 0 ==> name[last_dot(name)] == '.',
    decreases name.len(),
{
    if name.len() > 0 && name.last() != '.' {
        lemma_last_dot(name.drop_last());
    }
}

/// The cut version of a file has a separator or a drive in its name only if the file has, and a
/// longer name.
proof fn lemma_cut_name(name: Option<Seq<char>>, stamp: Seq<char>)
    requires
        is_timestamp(stamp),
        name is Some ==> name.unwrap().len() > 0,
    ensures
        name is None || separator_free(name.unwrap()) ==> separator_free(cut_name(name, stamp)),
        name is None || !drive(name.unwrap()) ==> !drive(cut_name(name, stamp)),
        cut_name(name, stamp).len() > 2,
        name is Some ==> cut_name(name, stamp).len() > name.unwrap().len(),
{
    reveal_strlit("_");
    reveal_strlit("_cut.");
    reveal_strlit("mp4");
    reveal_strlit("output");
    let full = match name {
        Some(n) => n,
        None => "output"@,
    };
    lemma_last_dot(full);
    let stem = match name {
        Some(n) => stem_of(n),
        None => "output"@,
    };
    let dotted = name is Some && extension_of(full) is Some;
    let ext = if dotted {
        extension_of(full).unwrap()
    } else {
        "mp4"@
    };
    let out = stem + "_"@ + stamp + "_cut."@ + ext;
    assert(out == cut_name(name, stamp));
    assert forall|i: int| 0 <= i < out.len() implies {
        ||| exists|k: int| 0 <= k < full.len() && out[i] == #[trigger] full[k]
        ||| !separator(#[trigger] out[i])
    } by {
        let a = stem.len() as int;
        let b = a + 1;
        let c = b + stamp.len();
        let d = c + 5;
        if i < a {
            assert(out[i] == full[i]);
        } else if i < b {
            assert(out[i] == "_"@[0]);
        } else if i < c {
            assert(out[i] == stamp[i - b]);
        } else if i < d {
            assert(out[i] == "_cut."@[i - c]);
        } else if dotted {
            assert(out[i] == full[i - d + last_dot(full) + 1]);
        } else {
            assert(out[i] == "mp4"@[i - d]);
        }
    }
    assert(out[0] == full[0]);
    if stem.len() > 1 {
        assert(out[1] == full[1]);
    } else {
        assert(out[1] == "_"@[0]);
    }
}

/// Two names with the same end that has an extension have cut versions with the same end.
proof fn lemma_cut_name_end(long: Seq<char>, short: Seq<char>, stamp: Seq<char>)
    requires
        ends_with(long, short),
        last_dot(short) > 0,
    ensures
        ends_with(cut_name(Some(long), stamp), cut_name(Some(short), stamp)),
{
    lemma_last_dot(short);
    lemma_last_dot_of_end(long, short);
    let by = long.len() - short.len();
    let k = last_dot(short);
    assert(long.skip(by + k + 1) =~= long.skip(by).skip(k + 1));
    assert(long.take(by + k).skip(by) =~= long.skip(by).take(k));
    let rest = "_"@ + stamp + "_cut."@ + short.skip(k + 1);
    let a = cut_name(Some(long), stamp);
    let b = cut_name(Some(short), stamp);
    assert(a =~= long.take(by + k) + rest);
    assert(b =~= short.take(k) + rest);
    assert(a.skip(by) =~= long.take(by + k).skip(by) + rest);
}

/// A text that ends with one that has a dot has its last dot there.
proof fn lemma_last_dot_of_end(long: Seq<char>, short: Seq<char>)
    requires
        ends_with(long, short),
        last_dot(short) >= 0,
    ensures
        last_dot(long) == long.len() - short.len() + last_dot(short),
    decreases short.len(),
{
    let by = long.len() - short.len();
    assert(long.last() == long.skip(by).last());
    if short.last() != '.' {
        assert(long.drop_last().skip(by) =~= short.drop_last());
        lemma_last_dot_of_end(long.drop_last(), short.drop_last());
    }
}

/// Trimming leaves a beginning of the path that does not end with a slash.
pub proof fn lemma_trimmed(path: Seq<char>)
    ensures
        trimmed(path).len() <= path.len(),
        path.take(trimmed(path).len() as int) == trimmed(path),
        trimmed(path).len() > 0 ==> trimmed(path).last() != '/',
        trimmed(path).len() < path.len() ==> path.last() == '/' || (path.len() > 1 && path.last()
            == '.' && path[path.len() - 2] == '/'),
    decreases path.len(),
{
    let n = path.len();
    if n > 0 && (path.last() == '/' || (n > 1 && path.last() == '.' && path[n - 2] == '/')) {
        lemma_trimmed(path.drop_last());
        assert(path.drop_last().take(trimmed(path).len() as int) =~= path.take(
            trimmed(path).len() as int,
        ));
    } else {
        assert(path.take(path.len() as int) =~= path);
    }
}

/// `path` is made of what the platform takes for the parent and the name of the input and of a
/// time stamp: the name of the cut version, joined to the parent, or to the working directory
/// where there is no parent.
pub open spec fn generated_from(
    path: Seq<char>,
    input_path: Seq<char>,
    dir: Option<Seq<char>>,
    name: Option<Seq<char>>,
    stamp: Seq<char>,
) -> bool {
    &&& is_parent(dir, input_path)
    &&& is_file_name(name, input_path)
    &&& is_timestamp(stamp)
    &&& is_joined(
        path,
        match dir {
            Some(d) => d,
            None => "."@,
        },
        cut_name(name, stamp),
    )
}

/// `path` is the cut version of the file `name` at some time, in the directory of that file.
pub open spec fn lies_beside(path: Seq<char>, input_path: Seq<char>, name: Seq<char>) -> bool {
    exists|dir: Seq<char>, stamp: Seq<char>|
        {
            &&& is_timestamp(stamp)
            &&& beside(dir, input_path, name, false)
            &&& #[trigger] placed(path, dir, cut_name(Some(name), stamp))
        }
}

/// `path` ends with the name of the cut version of the file `name` at some time.
pub open spec fn ends_cut(path: Seq<char>, name: Seq<char>) -> bool {
    exists|stamp: Seq<char>|
        is_timestamp(stamp) && ends_with(path, #[trigger] cut_name(Some(name), stamp))
}

/// `path` is a path for the cut version of the file at `input_path`. Where every platform finds
/// the same file name, it lies beside the input; where they agree on the end of the name only, it
/// has that end; and where there are no directories, it is the new name alone.
pub open spec fn is_generated(path: Seq<char>, input_path: Seq<char>) -> bool {
    &&& exists|dir: Option<Seq<char>>, name: Option<Seq<char>>, stamp: Seq<char>| #[trigger]
        generated_from(path, input_path, dir, name, stamp)
    &&& forall|n: Seq<char>| #[trigger]
        names(input_path, n) && !drive(n) ==> lies_beside(path, input_path, n)
    &&& forall|n: Seq<char>| #[trigger]
        component(input_path, n) && !dots(n) && last_dot(n) > 0 ==> ends_cut(path, n)
    &&& plain_name(input_path) ==> exists|stamp: Seq<char>|
        is_timestamp(stamp) && path == #[trigger] cut_name(Some(input_path), stamp)
}

/// What follows the last slash of a path ends with what follows its last separator.
proof fn lemma_slash_part_end(path: Seq<char>, part: Seq<char>, name: Seq<char>)
    requires
        slash_part(path, part),
        component(path, name),
    ensures
        ends_with(part, name),
        !dots(name) && last_dot(name) > 0 ==> !dots(part),
{
    let p = trimmed(path);
    let a = start_of(path, part);
    let b = start_of(path, name);
    if a > b {
        assert(p.skip(b)[a - 1 - b] == p[a - 1]);
        assert(separator(name[a - 1 - b]));
    }
    assert(part.skip(b - a) =~= name) by {
        assert(p.skip(a).skip(b - a) =~= p.skip(b));
    }
    if dots(part) && last_dot(name) > 0 {
        lemma_last_dot(name);
        assert(name =~= part);
    }
}

/// Neither a parent nor anything else that begins like a path without a verbatim prefix has one.
proof fn lemma_not_verbatim(path: Seq<char>, name: Seq<char>, dir: Seq<char>)
    requires
        component(path, name),
        begins(dir, path),
    ensures
        !verbatim(dir),
{
    if verbatim(dir) {
        assert(dir[0] == path[0] && dir[1] == path[1] && dir[2] == path[2] && dir[3] == path[3]);
        lemma_trimmed_keeps(path, 3);
        lemma_trimmed(path);
        let p = trimmed(path);
        let kept = path.take(p.len() as int);
        assert(kept[0] == '\\' && kept[1] == '\\' && kept[2] == '?');
        assert(!beyond_share(p, start_of(path, name)));
    }
}

proof fn lemma_generated_beside(
    path: Seq<char>,
    input_path: Seq<char>,
    dir: Option<Seq<char>>,
    name: Option<Seq<char>>,
    stamp: Seq<char>,
    n: Seq<char>,
)
    requires
        generated_from(path, input_path, dir, name, stamp),
        names(input_path, n),
        !drive(n),
    ensures
        lies_beside(path, input_path, n),
{
    assert(name == Some(n));
    lemma_cut_name(name, stamp);
    lemma_not_verbatim(input_path, n, dir.unwrap());
    assert(beside(dir.unwrap(), input_path, n, false));
    assert(!separator(cut_name(name, stamp)[0]));
    assert(placed(path, dir.unwrap(), cut_name(Some(n), stamp)));
}

proof fn lemma_generated_end(
    path: Seq<char>,
    input_path: Seq<char>,
    dir: Option<Seq<char>>,
    name: Option<Seq<char>>,
    stamp: Seq<char>,
    n: Seq<char>,
)
    requires
        generated_from(path, input_path, dir, name, stamp),
        component(input_path, n),
        !dots(n),
        last_dot(n) > 0,
    ensures
        ends_cut(path, n),
{
    lemma_not_verbatim(input_path, n, dir.unwrap());
    if name == Some(n) {
        assert(n.skip(0) =~= n);
    } else {
        let part = choose|part: Seq<char>| #[trigger]
            slash_part(input_path, part) && name == file_of(part);
        lemma_slash_part_end(input_path, part, n);
    }
    lemma_cut_name_end(name.unwrap(), n, stamp);
    let a = cut_name(name, stamp);
    let b = cut_name(Some(n), stamp);
    assert(path.skip(path.len() - b.len()) =~= path.skip(path.len() - a.len()).skip(
        a.len() - b.len(),
    ));
}

/// A plain name is a path with that file name.
proof fn lemma_plain_names(name: Seq<char>)
    requires
        plain_name(name),
    ensures
        names(name, name),
        start_of(name, name) == 0,
{
    assert(!separator(name[0]));
    assert(!separator(name.last()));
    if name.len() > 1 {
        assert(!separator(name[name.len() - 2]));
    }
    assert(trimmed(name) == name);
    assert(name.skip(0) =~= name);
}

proof fn lemma_generated_plain(path: Seq<char>, input_path: Seq<char>)
    requires
        plain_name(input_path),
        lies_beside(path, input_path, input_path),
    ensures
        exists|stamp: Seq<char>|
            is_timestamp(stamp) && path == #[trigger] cut_name(Some(input_path), stamp),
{
    lemma_plain_names(input_path);
    let (dir, stamp) = choose|dir: Seq<char>, stamp: Seq<char>|
        {
            &&& is_timestamp(stamp)
            &&& beside(dir, input_path, input_path, false)
            &&& #[trigger] placed(path, dir, cut_name(Some(input_path), stamp))
        };
    let cut = cut_name(Some(input_path), stamp);
    let between = choose|between: Seq<char>|
        separates(dir, between) && path == #[trigger] (dir + between) + cut;
    assert(path =~= cut);
}

/// What is made of the parent and the name of a path is the generated path.
proof fn lemma_generated(
    path: Seq<char>,
    input_path: Seq<char>,
    dir: Option<Seq<char>>,
    name: Option<Seq<char>>,
    stamp: Seq<char>,
)
    requires
        generated_from(path, input_path, dir, name, stamp),
    ensures
        is_generated(path, input_path),
{
    assert forall|n: Seq<char>| #[trigger] names(input_path, n) && !drive(n) implies lies_beside(
        path,
        input_path,
        n,
    ) by {
        lemma_generated_beside(path, input_path, dir, name, stamp, n);
    }
    assert forall|n: Seq<char>| #[trigger]
        component(input_path, n) && !dots(n) && last_dot(n) > 0 implies ends_cut(path, n) by {
        lemma_generated_end(path, input_path, dir, name, stamp, n);
    }
    if plain_name(input_path) {
        lemma_plain_names(input_path);
        lemma_generated_beside(path, input_path, dir, name, stamp, input_path);
        lemma_generated_plain(path, input_path);
    }
}

/// Trimming keeps everything up to a character that is neither a slash nor a dot.
proof fn lemma_trimmed_keeps(path: Seq<char>, i: int)
    requires
        0 <= i < path.len(),
        path[i] != '/',
        path[i] != '.',
    ensures
        trimmed(path).len() > i,
        trimmed(path) == path.take(trimmed(path).len() as int),
    decreases path.len(),
{
    lemma_trimmed(path);
    if trimmed(path) != path {
        lemma_trimmed_keeps(path.drop_last(), i);
    }
}

/// The path of the cut version of a file with a given parent and name at a given time; without a
/// parent, it is in the working directory.
pub fn output_path_in(dir: Option<String>, name: Option<String>, timestamp: &str) -> (r: String)
    ensures
        is_joined(
            r@,
            match text_of(dir) {
                Some(d) => d,
                None => "."@,
            },
            cut_name(text_of(name), timestamp@),
        ),
{
    let dir: String = match dir {
        Some(dir) => dir,
        None => ".".to_owned(),
    };
    let output: String = output_file_name(name, timestamp);
    join(dir.as_str(), output.as_str())
}

/// The path for the cut version of a file, beside it and with the time in its name. Which part of
/// a path with backslashes is its name, and which its parent, depends on the platform.
pub fn generate_output_path(input_path: &str) -> (r: String)
    ensures
        is_generated(r@, input_path@),
{
    let dir: Option<String> = parent(input_path);
    let name: Option<String> = file_name(input_path);
    let timestamp: String = local_timestamp("%Y%m%d_%H%M%S");
    let ghost up = text_of(dir);
    let ghost shown = text_of(name);
    let path: String = output_path_in(dir, name, timestamp.as_str());
    proof {
        lemma_generated(path@, input_path@, up, shown, timestamp@);
    }
    path
}

/// The cut version of a file never has the name of the file itself.
pub proof fn law_cut_name_is_new(name: Seq<char>, stamp: Seq<char>)
    ensures
        cut_name(Some(name), stamp) != name,
        cut_name(Some(name), stamp).len() > name.len(),
{
    reveal_strlit("_");
    reveal_strlit("_cut.");
    reveal_strlit("mp4");
    lemma_last_dot(name);
}

/// A path does not end with a longer name without separators than its own.
proof fn lemma_no_longer_end(path: Seq<char>, name: Seq<char>, longer: Seq<char>)
    requires
        last_part(path, name),
        separator_free(longer),
        longer.len() > name.len(),
        longer.len() > 2,
    ensures
        !ends_with(path, longer),
{
    lemma_trimmed(path);
    let p = trimmed(path);
    if ends_with(path, longer) {
        let from = path.len() - longer.len();
        // where a slash stands among the last characters of the path
        let slash = if p.len() == path.len() {
            start_of(path, name) - 1
        } else if path.last() == '/' {
            path.len() - 1
        } else {
            path.len() - 2
        };
        assert(path[slash] == '/');
        assert(longer[slash - from] == path.skip(from)[slash - from]);
    }
}

/// The generated path is never that of the input.
pub proof fn law_generated_path_is_new(path: Seq<char>, input_path: Seq<char>, name: Seq<char>)
    requires
        is_generated(path, input_path),
        names(input_path, name),
    ensures
        path != input_path,
{
    let (dir, found, stamp) = choose|
        dir: Option<Seq<char>>,
        found: Option<Seq<char>>,
        stamp: Seq<char>,
    | #[trigger]
        generated_from(path, input_path, dir, found, stamp);
    assert(found == Some(name));
    lemma_cut_name(found, stamp);
    lemma_no_longer_end(input_path, name, cut_name(found, stamp));
}

} // verus!
