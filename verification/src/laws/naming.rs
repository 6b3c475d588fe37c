//! Laws on the names and paths of files.
use vstd::prelude::*;
use crate::paths::{
    beside, component, cut_name, dots, drive, extended, extended_at, extension_of,
    generate_output_path, in_dir, is_generated, is_timestamp, last_dot, lemma_last_dot, lies_beside,
    names, output_file_name, output_path_in, placed, separates, separator, separator_free,
    split_file_name, splits, start_of, stem_of, tells_stem, trimmed, verbatim,
};

verus! {

/// No dot in the text.
pub open spec fn undotted(s: Seq<char>) -> bool {
    forall|i: int| 0 <= i < s.len() ==> (#[trigger] s[i]) != '.'
}

/// A file name of a stem and an extension.
pub open spec fn file(stem: Seq<char>, extension: Seq<char>) -> Seq<char> {
    stem + seq!['.'] + extension
}

proof fn lemma_no_dot(s: Seq<char>, tail: Seq<char>)
    requires
        undotted(tail),
    ensures
        last_dot(s + tail) == last_dot(s),
    decreases tail.len(),
{
    if tail.len() == 0 {
        assert(s + tail =~= s);
    } else {
        assert(tail.last() != '.');
        assert((s + tail).last() == tail.last());
        assert((s + tail).drop_last() =~= s + tail.drop_last());
        lemma_no_dot(s, tail.drop_last());
    }
}

proof fn lemma_file(stem: Seq<char>, extension: Seq<char>)
    requires
        stem.len() > 0,
        undotted(extension),
    ensures
        last_dot(file(stem, extension)) == stem.len(),
        stem_of(file(stem, extension)) == stem,
        extension_of(file(stem, extension)) == Some(extension),
{
    let name = file(stem, extension);
    lemma_no_dot(stem + seq!['.'], extension);
    assert((stem + seq!['.']).last() == '.');
    assert(last_dot(name) == stem.len());
    assert(name.take(stem.len() as int) =~= stem);
    assert(name.skip(stem.len() as int + 1) =~= extension);
}

/// Only the first character may be a dot.
pub open spec fn no_extension(name: Seq<char>) -> bool {
    forall|i: int| 1 <= i < name.len() ==> (#[trigger] name[i]) != '.'
}

proof fn lemma_no_extension(name: Seq<char>)
    requires
        no_extension(name),
    ensures
        last_dot(name) <= 0,
        stem_of(name) == name,
        extension_of(name) is None,
{
    lemma_last_dot(name);
}

/// A name is split at the dot before its extension.
pub proof fn law_name_is_split_at_its_extension(
    name: &str,
    stem: Seq<char>,
    extension: Seq<char>,
    r: (String, Option<String>),
)
    requires
        call_ensures(split_file_name, (name,), r),
        name@ == file(stem, extension),
        stem.len() > 0,
        undotted(extension),
    ensures
        r.0@ == stem,
        r.1 is Some && r.1->0@ == extension,
{
    lemma_file(stem, extension);
}

/// A name without a dot behind its first character is all stem.
pub proof fn law_name_without_extension_is_all_stem(name: &str, r: (String, Option<String>))
    requires
        call_ensures(split_file_name, (name,), r),
        no_extension(name@),
    ensures
        r.0@ == name@,
        r.1 is None,
{
    lemma_no_extension(name@);
}

/// The cut version of a file keeps the stem and the extension, whatever they are, with the time
/// between them.
pub proof fn law_cut_name_keeps_the_extension(
    name: String,
    stem: Seq<char>,
    extension: Seq<char>,
    timestamp: &str,
    r: String,
)
    requires
        call_ensures(output_file_name, (Some(name), timestamp), r),
        name@ == file(stem, extension),
        stem.len() > 0,
        undotted(extension),
    ensures
        r@ == stem + "_"@ + timestamp@ + "_cut."@ + extension,
        extension_of(r@) == Some(extension),
{
    lemma_file(stem, extension);
    reveal_strlit("_");
    reveal_strlit("_cut.");
    let first = stem + "_"@ + timestamp@ + seq!['_', 'c', 'u', 't'];
    assert(r@ =~= file(first, extension));
    lemma_file(first, extension);
}

/// The cut version of a file without an extension is an `mp4`, and that of none is an `output.mp4`
/// of its time.
pub proof fn law_cut_name_defaults(name: Option<String>, timestamp: &str, r: String)
    requires
        call_ensures(output_file_name, (name, timestamp), r),
        name is Some ==> no_extension(name->0@),
    ensures
        name is Some ==> r@ == name->0@ + "_"@ + timestamp@ + "_cut."@ + "mp4"@,
        name is None ==> r@ == "output"@ + "_"@ + timestamp@ + "_cut."@ + "mp4"@,
{
    if name is Some {
        lemma_no_extension(name->0@);
    }
}

/// A directory to which names are joined with a separator on every platform.
pub open spec fn plain_dir(dir: Seq<char>) -> bool {
    &&& dir.len() > 0
    &&& !separator(dir.last())
    &&& !(dir.len() == 2 && drive(dir))
    &&& !verbatim(dir)
}

/// `path` is `dir`, a separator, and `name`.
pub open spec fn child(path: Seq<char>, dir: Seq<char>, name: Seq<char>) -> bool {
    path == dir + seq!['/'] + name || path == dir + seq!['\\'] + name
}

proof fn lemma_child(path: Seq<char>, dir: Seq<char>, name: Seq<char>)
    requires
        placed(path, dir, name),
        plain_dir(dir),
    ensures
        child(path, dir, name),
{
    let between = choose|between: Seq<char>|
        separates(dir, between) && path == #[trigger] (dir + between) + name;
    assert(between == seq!['/'] || between == seq!['\\']);
}

/// What is in a plain directory is the directory, a separator, and the name.
pub proof fn lemma_in_dir_is_child(path: Seq<char>, dir: Seq<char>, name: Seq<char>)
    requires
        in_dir(path, dir, name),
        plain_dir(dir),
    ensures
        child(path, dir, name),
{
    lemma_child(path, dir, name);
}

/// The name of a file that has a stem and an extension and is one component on every platform.
pub open spec fn plain_file(stem: Seq<char>, extension: Seq<char>) -> bool {
    &&& stem.len() > 0
    &&& undotted(extension)
    &&& separator_free(file(stem, extension))
    &&& !dots(file(stem, extension))
}

/// Given a parent and a name, the cut version is written into the parent; without a parent, into
/// the working directory; in an empty parent, it is the new name alone.
pub proof fn law_output_path_is_in_the_parent(
    dir: Option<String>,
    name: Option<String>,
    timestamp: &str,
    r: String,
    output: String,
)
    requires
        call_ensures(output_path_in, (dir, name, timestamp), r),
        call_ensures(output_file_name, (name, timestamp), output),
        output@.len() > 0,
        !separator(output@[0]),
        !drive(output@),
    ensures
        dir is Some && plain_dir(dir->0@) ==> child(r@, dir->0@, output@),
        dir is Some && dir->0@.len() == 0 ==> r@ == output@,
        dir is Some && dir->0@.len() > 0 && dir->0@.last() == '/' && !verbatim(dir->0@) ==> r@
            == dir->0@ + output@,
        dir is None ==> child(r@, "."@, output@),
{
    reveal_strlit(".");
    if dir is Some {
        if plain_dir(dir->0@) {
            lemma_child(r@, dir->0@, output@);
        } else if placed(r@, dir->0@, output@) {
            let between = choose|between: Seq<char>|
                separates(dir->0@, between) && r@ == #[trigger] (dir->0@ + between) + output@;
            assert(dir->0@ + between =~= dir->0@ || between.len() > 0);
        }
    } else {
        lemma_child(r@, "."@, output@);
    }
}

/// A path of a directory, a slash, and a name in it has that name on every platform.
proof fn lemma_slash_path(dir: Seq<char>, name: Seq<char>)
    requires
        name.len() > 0,
        separator_free(name),
        !dots(name),
        dir.len() > 0,
        !separator(dir.last()),
        !(dir.len() > 1 && separator(dir[0]) && separator(dir[1])),
    ensures
        names(dir + seq!['/'] + name, name),
        start_of(dir + seq!['/'] + name, name) == dir.len() + 1,
{
    let path = dir + seq!['/'] + name;
    assert(!separator(name.last()));
    assert(path.last() == name.last());
    if name.len() > 1 {
        assert(!separator(name[name.len() - 2]));
        assert(path[path.len() - 2] == name[name.len() - 2]);
    } else if name.last() == '.' {
        assert(name =~= seq!['.']);
    }
    assert(trimmed(path) == path);
    assert(path.skip(dir.len() as int + 1) =~= name);
    assert(path[dir.len() as int] == '/');
    assert(path[0] == dir[0]);
    if dir.len() > 1 {
        assert(path[1] == dir[1]);
    } else {
        assert(dir[0] == dir.last());
    }
}

/// The directory of a name behind a slash is what stands before the slash, with or without it.
proof fn lemma_directory(path: Seq<char>, up: Seq<char>, dir: Seq<char>, name: Seq<char>)
    requires
        path == dir + seq!['/'] + name,
        beside(up, path, name, false),
        start_of(path, name) == dir.len() + 1,
        dir.len() > 0,
        !separator(dir.last()),
        dir.last() != '.',
    ensures
        up == dir || up == dir + seq!['/'],
{
    let i = dir.len() - 1;
    assert(path[i] == dir.last());
    assert(!splits(path[i], false));
    if up.len() == dir.len() {
        assert(up =~= dir);
    } else {
        assert(up.len() == dir.len() + 1);
        assert(up =~= dir + seq!['/']);
    }
}

proof fn lemma_placed_beside(r: Seq<char>, up: Seq<char>, dir: Seq<char>, cut: Seq<char>)
    requires
        placed(r, up, cut),
        plain_dir(dir),
        up == dir || up == dir + seq!['/'],
    ensures
        child(r, dir, cut),
{
    if up == dir {
        lemma_child(r, dir, cut);
    } else {
        let between = choose|between: Seq<char>|
            separates(up, between) && r == #[trigger] (up + between) + cut;
        assert(up.last() == '/');
        assert(r =~= dir + seq!['/'] + cut);
    }
}

proof fn lemma_generated_beside(r: Seq<char>, path: Seq<char>, name: Seq<char>)
    requires
        is_generated(r, path),
        names(path, name),
        !drive(name),
    ensures
        lies_beside(r, path, name),
{
}

proof fn lemma_beside_is_child(
    r: Seq<char>,
    path: Seq<char>,
    dir: Seq<char>,
    name: Seq<char>,
) -> (stamp: Seq<char>)
    requires
        lies_beside(r, path, name),
        path == dir + seq!['/'] + name,
        start_of(path, name) == dir.len() + 1,
        plain_dir(dir),
        dir.last() != '.',
    ensures
        is_timestamp(stamp),
        child(r, dir, cut_name(Some(name), stamp)),
{
    let (up, stamp) = choose|up: Seq<char>, stamp: Seq<char>|
        {
            &&& is_timestamp(stamp)
            &&& beside(up, path, name, false)
            &&& #[trigger] placed(r, up, cut_name(Some(name), stamp))
        };
    lemma_directory(path, up, dir, name);
    lemma_placed_beside(r, up, dir, cut_name(Some(name), stamp));
    stamp
}

proof fn lemma_beside_file(
    r: Seq<char>,
    path: Seq<char>,
    dir: Seq<char>,
    stem: Seq<char>,
    extension: Seq<char>,
)
    requires
        lies_beside(r, path, file(stem, extension)),
        path == dir + seq!['/'] + file(stem, extension),
        start_of(path, file(stem, extension)) == dir.len() + 1,
        plain_dir(dir),
        dir.last() != '.',
        stem.len() > 0,
        undotted(extension),
    ensures
        exists|stamp: Seq<char>|
            is_timestamp(stamp) && child(
                r,
                dir,
                stem + "_"@ + #[trigger] (stamp + "_cut."@) + extension,
            ),
{
    let name = file(stem, extension);
    let stamp = lemma_beside_is_child(r, path, dir, name);
    lemma_file(stem, extension);
    assert(cut_name(Some(name), stamp) =~= stem + "_"@ + (stamp + "_cut."@) + extension);
}

proof fn lemma_beside_bare(r: Seq<char>, path: Seq<char>, dir: Seq<char>, name: Seq<char>)
    requires
        lies_beside(r, path, name),
        path == dir + seq!['/'] + name,
        start_of(path, name) == dir.len() + 1,
        plain_dir(dir),
        dir.last() != '.',
        no_extension(name),
    ensures
        exists|stamp: Seq<char>|
            is_timestamp(stamp) && child(
                r,
                dir,
                name + "_"@ + #[trigger] (stamp + "_cut."@) + "mp4"@,
            ),
{
    let stamp = lemma_beside_is_child(r, path, dir, name);
    lemma_no_extension(name);
    assert(cut_name(Some(name), stamp) =~= name + "_"@ + (stamp + "_cut."@) + "mp4"@);
}

/// A directory that a path names before a slash: none of a network share, nor one that ends with a
/// dot.
pub open spec fn named_dir(dir: Seq<char>) -> bool {
    &&& plain_dir(dir)
    &&& dir.last() != '.'
    &&& !(dir.len() > 1 && separator(dir[0]) && separator(dir[1]))
}

/// What is generated for a file in a directory lies in that directory, with the stem and the
/// extension of the file.
pub proof fn lemma_generated_file(
    r: Seq<char>,
    path: Seq<char>,
    dir: Seq<char>,
    stem: Seq<char>,
    extension: Seq<char>,
)
    requires
        is_generated(r, path),
        path == dir + seq!['/'] + file(stem, extension),
        plain_file(stem, extension),
        !drive(file(stem, extension)),
        named_dir(dir),
    ensures
        exists|stamp: Seq<char>|
            is_timestamp(stamp) && child(
                r,
                dir,
                stem + "_"@ + #[trigger] (stamp + "_cut."@) + extension,
            ),
{
    let name = file(stem, extension);
    lemma_slash_path(dir, name);
    lemma_generated_beside(r, path, name);
    lemma_beside_file(r, path, dir, stem, extension);
}

/// The cut version of a file is written beside it: into the directory that the path names, with the
/// stem and the extension of the file.
pub proof fn law_generated_path_is_beside_the_input(
    input: &str,
    dir: Seq<char>,
    stem: Seq<char>,
    extension: Seq<char>,
    r: String,
)
    requires
        call_ensures(generate_output_path, (input,), r),
        input@ == dir + seq!['/'] + file(stem, extension),
        plain_file(stem, extension),
        !drive(file(stem, extension)),
        named_dir(dir),
    ensures
        exists|stamp: Seq<char>|
            is_timestamp(stamp) && child(
                r@,
                dir,
                stem + "_"@ + #[trigger] (stamp + "_cut."@) + extension,
            ),
{
    lemma_generated_file(r@, input@, dir, stem, extension);
}

/// What is generated for a file without an extension lies in its directory too, as an `mp4`.
pub proof fn lemma_generated_bare(r: Seq<char>, path: Seq<char>, dir: Seq<char>, name: Seq<char>)
    requires
        is_generated(r, path),
        path == dir + seq!['/'] + name,
        name.len() > 0,
        no_extension(name),
        separator_free(name),
        name != seq!['.'],
        !drive(name),
        named_dir(dir),
    ensures
        exists|stamp: Seq<char>|
            is_timestamp(stamp) && child(
                r,
                dir,
                name + "_"@ + #[trigger] (stamp + "_cut."@) + "mp4"@,
            ),
{
    assert(!dots(name)) by {
        if name == seq!['.', '.'] {
            assert(name[1] == '.');
        }
    }
    lemma_slash_path(dir, name);
    lemma_generated_beside(r, path, name);
    lemma_beside_bare(r, path, dir, name);
}

/// The cut version of a file without an extension is written beside it too, as an `mp4`.
pub proof fn law_generated_path_without_extension(
    input: &str,
    dir: Seq<char>,
    name: Seq<char>,
    r: String,
)
    requires
        call_ensures(generate_output_path, (input,), r),
        input@ == dir + seq!['/'] + name,
        name.len() > 0,
        no_extension(name),
        separator_free(name),
        name != seq!['.'],
        !drive(name),
        named_dir(dir),
    ensures
        exists|stamp: Seq<char>|
            is_timestamp(stamp) && child(
                r@,
                dir,
                name + "_"@ + #[trigger] (stamp + "_cut."@) + "mp4"@,
            ),
{
    lemma_generated_bare(r@, input@, dir, name);
}

/// What is generated for a name alone, or for a file in the root, is a name alone, or in the root.
pub proof fn lemma_generated_front(
    r: Seq<char>,
    front: Seq<char>,
    stem: Seq<char>,
    extension: Seq<char>,
)
    requires
        is_generated(r, front + file(stem, extension)),
        plain_file(stem, extension),
        !drive(file(stem, extension)),
        front.len() == 0 || front == seq!['/'],
    ensures
        exists|stamp: Seq<char>|
            is_timestamp(stamp) && r == front + stem + "_"@ + #[trigger] (stamp + "_cut."@)
                + extension,
{
    let name = file(stem, extension);
    lemma_short_front(front, name);
    lemma_generated_beside(r, front + name, name);
    lemma_front_keeps(r, front, stem, extension);
}

/// A name alone and one in the root are named on every platform.
proof fn lemma_short_front(front: Seq<char>, name: Seq<char>)
    requires
        name.len() > 1,
        separator_free(name),
        !dots(name),
        !drive(name),
        front.len() == 0 || front == seq!['/'],
    ensures
        names(front + name, name),
        start_of(front + name, name) == front.len(),
{
    let path = front + name;
    assert(path[front.len() as int] == name[0]);
    assert(!separator(name[0]));
    lemma_front(front, name);
}

proof fn lemma_front_keeps(
    r: Seq<char>,
    front: Seq<char>,
    stem: Seq<char>,
    extension: Seq<char>,
)
    requires
        lies_beside(r, front + file(stem, extension), file(stem, extension)),
        start_of(front + file(stem, extension), file(stem, extension)) == front.len(),
        stem.len() > 0,
        undotted(extension),
        front.len() == 0 || front == seq!['/'],
    ensures
        exists|stamp: Seq<char>|
            is_timestamp(stamp) && r == front + stem + "_"@ + #[trigger] (stamp + "_cut."@)
                + extension,
{
    let name = file(stem, extension);
    let path = front + name;
    lemma_file(stem, extension);
    let (dir, stamp) = choose|dir: Seq<char>, stamp: Seq<char>|
        {
            &&& is_timestamp(stamp)
            &&& beside(dir, path, name, false)
            &&& #[trigger] placed(r, dir, cut_name(Some(name), stamp))
        };
    assert(path.take(front.len() as int) =~= front);
    assert(dir == front);
    let between = choose|between: Seq<char>|
        separates(dir, between) && r == #[trigger] (dir + between) + cut_name(Some(name), stamp);
    assert(r =~= front + stem + "_"@ + (stamp + "_cut."@) + extension);
}

/// The cut version of a file given by its name alone is a name alone, and that of a file in the root
/// is in the root.
pub proof fn law_generated_name_alone(
    input: &str,
    front: Seq<char>,
    stem: Seq<char>,
    extension: Seq<char>,
    r: String,
)
    requires
        call_ensures(generate_output_path, (input,), r),
        input@ == front + file(stem, extension),
        plain_file(stem, extension),
        !drive(file(stem, extension)),
        front.len() == 0 || front == seq!['/'],
    ensures
        exists|stamp: Seq<char>|
            is_timestamp(stamp) && r@ == front + stem + "_"@ + #[trigger] (stamp + "_cut."@)
                + extension,
{
    lemma_generated_front(r@, front, stem, extension);
}

/// What stands before the name of a file in a path: nothing, or what ends with a slash. Two
/// separators in front are left aside.
pub open spec fn plain_front(front: Seq<char>, name: Seq<char>) -> bool {
    let path = front + name;
    &&& !(path.len() > 1 && separator(path[0]) && separator(path[1]))
    &&& front.len() == 0 && !drive(name) || front.len() > 0 && front.last() == '/'
}

/// What stands behind a plain front is the file name of the path.
pub proof fn lemma_front(front: Seq<char>, name: Seq<char>)
    requires
        plain_front(front, name),
        name.len() > 0,
        separator_free(name),
        !dots(name),
    ensures
        names(front + name, name),
        start_of(front + name, name) == front.len(),
{
    let path = front + name;
    assert(!separator(name.last()));
    assert(path.last() == name.last());
    if name.len() > 1 {
        assert(!separator(name[name.len() - 2]));
        assert(path[path.len() - 2] == name[name.len() - 2]);
    } else if name.last() == '.' {
        assert(name =~= seq!['.']);
    }
    assert(trimmed(path) == path);
    assert(path.skip(front.len() as int) =~= name);
    if front.len() == 0 {
        assert(path =~= name);
    } else {
        assert(path[front.len() as int - 1] == '/');
    }
}

/// A path with another extension keeps all that stands before the old one.
pub proof fn lemma_extended_file(
    r: Seq<char>,
    front: Seq<char>,
    stem: Seq<char>,
    old_extension: Seq<char>,
    extension: Seq<char>,
)
    requires
        extended(r, front + file(stem, old_extension), extension),
        plain_file(stem, old_extension),
        plain_front(front, file(stem, old_extension)),
    ensures
        r == front + stem + "."@ + extension,
{
    let name = file(stem, old_extension);
    let path = front + name;
    assert(name.len() > 1);
    lemma_front(front, name);
    lemma_file(stem, old_extension);
    assert(tells_stem(path, name));
    assert(extended_at(r, path, name, extension));
    assert(path.take(front.len() as int + stem.len()) =~= front + stem);
}

/// A path without an extension gets one behind it.
pub proof fn lemma_extended_bare(
    r: Seq<char>,
    front: Seq<char>,
    name: Seq<char>,
    extension: Seq<char>,
)
    requires
        extended(r, front + name, extension),
        name.len() > 0,
        separator_free(name),
        no_extension(name),
        name != seq!['.'],
        plain_front(front, name),
    ensures
        r == front + name + "."@ + extension,
{
    let path = front + name;
    assert(!dots(name)) by {
        if name == seq!['.', '.'] {
            assert(name[1] == '.');
        }
    }
    lemma_front(front, name);
    lemma_no_extension(name);
    assert(tells_stem(path, name));
    assert(extended_at(r, path, name, extension));
    assert(path.take(front.len() as int + name.len()) =~= front + name);
}

} // verus!
