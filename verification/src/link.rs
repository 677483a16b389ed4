//! The syntax of links and paths, as far as the crawler reads it itself:
//! where the path of a relative link ends, what the file name of a path is,
//! and whether a file name carries an extension. The path of an absolute
//! URL is not read here: it is the URL parser's to say.

use vstd::prelude::*;

verus! {

/// Whether `c` ends the path of a link: a query starts at `?`, a fragment at `#`.
pub open spec fn ends_path(c: char) -> bool {
    c == '?' || c == '#'
}

/// The index of the first `?` or `#` of `link` at or after `from`, or the
/// length of `link` when there is none.
pub open spec fn path_end_from(link: Seq<char>, from: int) -> int
    decreases link.len() - from,
{
    if from >= link.len() {
        link.len() as int
    } else if ends_path(link[from]) {
        from
    } else {
        path_end_from(link, from + 1)
    }
}

/// The index after the last `/` among the first `until` characters of
/// `path`, or 0 when there is none.
pub open spec fn after_last_slash(path: Seq<char>, until: int) -> int
    decreases until,
{
    if until <= 0 {
        0
    } else if path[until - 1] == '/' {
        until
    } else {
        after_last_slash(path, until - 1)
    }
}

/// The path of a link that is no absolute URL: the link without its
/// query and fragment.
pub open spec fn relative_path(link: Seq<char>) -> Seq<char> {
    link.take(path_end_from(link, 0))
}

/// The file name of a path: what follows its last `/`.
pub open spec fn file_name(path: Seq<char>) -> Seq<char> {
    path.skip(after_last_slash(path, path.len() as int))
}

/// Whether a file name carries an extension: it holds a `.` that is not its
/// first character, and it is not the parent directory `..`.
pub open spec fn has_extension(name: Seq<char>) -> bool {
    &&& name != seq!['.', '.']
    &&& exists|i: int| 0 < i < name.len() && name[i] == '.'
}

/// Whether a path names a file with an extension.
pub open spec fn names_file(path: Seq<char>) -> bool {
    has_extension(file_name(path))
}

/// Whether a link is root-relative: it starts with `/`.
pub open spec fn is_root_relative(link: Seq<char>) -> bool {
    link.len() > 0 && link[0] == '/'
}

/// The characters of `text`, in order.
pub fn chars_of(text: &str) -> (chars: Vec<char>)
    ensures
        chars@ == text@,
{
    let mut chars: Vec<char> = Vec::new();
    for c in it: text.chars()
        invariant
            it.seq() == text@,
            chars@ == it.seq().take(it.index()),
    {
        chars.push(c);
    }
    chars
}

/// The index at which the path of `link` ends.
fn path_end(link: &Vec<char>) -> (end: usize)
    ensures
        end == path_end_from(link@, 0),
        end <= link.len(),
{
    let mut i: usize = 0;
    while i < link.len() && !(link[i] == '?' || link[i] == '#')
        invariant
            i <= link.len(),
            path_end_from(link@, 0) == path_end_from(link@, i as int),
        decreases link.len() - i,
    {
        i = i + 1;
    }
    i
}

/// The characters of `text` from `from` up to `until`.
fn slice_of(text: &Vec<char>, from: usize, until: usize) -> (part: Vec<char>)
    requires
        from <= until <= text.len(),
    ensures
        part@ == text@.subrange(from as int, until as int),
{
    let mut part: Vec<char> = Vec::new();
    let mut i: usize = from;
    while i < until
        invariant
            from <= i <= until <= text.len(),
            part@ == text@.subrange(from as int, i as int),
        decreases until - i,
    {
        part.push(text[i]);
        i = i + 1;
    }
    part
}

/// The path of a link that is no absolute URL, given by its characters.
pub fn relative_path_of(link: &Vec<char>) -> (path: Vec<char>)
    ensures
        path@ == relative_path(link@),
{
    let end = path_end(link);
    slice_of(link, 0, end)
}

/// The file name of a path given by its characters.
pub fn file_name_of(path: &Vec<char>) -> (name: Vec<char>)
    ensures
        name@ == file_name(path@),
{
    let mut i: usize = path.len();
    while i > 0 && path[i - 1] != '/'
        invariant
            i <= path.len(),
            after_last_slash(path@, path.len() as int) == after_last_slash(path@, i as int),
        decreases i,
    {
        i = i - 1;
    }
    slice_of(path, i, path.len())
}

/// Whether a file name given by its characters carries an extension.
pub fn name_has_extension(name: &Vec<char>) -> (found: bool)
    ensures
        found == has_extension(name@),
{
    if name.len() == 2 && name[0] == '.' && name[1] == '.' {
        assert(name@ =~= seq!['.', '.']);
        return false;
    }
    let mut i: usize = 1;
    while i < name.len()
        invariant
            1 <= i,
            name@ != seq!['.', '.'],
            forall|j: int| 0 < j < i && j < name.len() ==> name[j] != '.',
        decreases name.len() - i,
    {
        if name[i] == '.' {
            return true;
        }
        i = i + 1;
    }
    false
}

/// Whether the path `path` names a file with an extension.
pub fn path_names_file(path: &Vec<char>) -> (found: bool)
    ensures
        found == names_file(path@),
{
    let name = file_name_of(path);
    name_has_extension(&name)
}

/// Whether `link` starts with `/`.
pub fn starts_at_root(link: &str) -> (rooted: bool)
    ensures
        rooted == is_root_relative(link@),
{
    let chars = chars_of(link);
    chars.len() > 0 && chars[0] == '/'
}

} // verus!
