//! File paths as text, with `/` between the components on every machine. Paths of a machine that puts
//! another character there are turned into this form, and back, where they enter and leave.
use crate::text::{chars_of, text_of};
use vstd::prelude::*;
use vstd::slice::slice_subrange;

verus! {

/// `path` without the slashes, and the `.` components after them, that it ends with.
pub open spec fn without_tail(path: Seq<char>) -> Seq<char>
    decreases path.len(),
{
    if path.len() > 0 && path.last() == '/' {
        without_tail(path.drop_last())
    } else if path.len() > 1 && path.last() == '.' && path[path.len() - 2] == '/' {
        without_tail(path.drop_last())
    } else {
        path
    }
}

/// Where the text after the last slash begins.
pub open spec fn name_start(path: Seq<char>) -> int
    decreases path.len(),
{
    if path.len() == 0 || path.last() == '/' {
        path.len() as int
    } else {
        name_start(path.drop_last())
    }
}

/// What stands before the last component.
pub open spec fn before_name(path: Seq<char>) -> Seq<char> {
    let body = without_tail(path);
    body.take(name_start(body))
}

/// The last component, be it a name or not.
pub open spec fn last_component(path: Seq<char>) -> Seq<char> {
    let body = without_tail(path);
    body.skip(name_start(body))
}

/// Whether a component names a file: the empty one, `.` and `..` do not.
pub open spec fn is_name(component: Seq<char>) -> bool {
    component.len() > 0 && component != seq!['.'] && component != seq!['.', '.']
}

/// The name of the file that the path leads to.
pub open spec fn file_name(path: Seq<char>) -> Option<Seq<char>> {
    if is_name(last_component(path)) {
        Some(last_component(path))
    } else {
        None
    }
}

/// The directory that the file of the path stands in.
pub open spec fn parent(path: Seq<char>) -> Seq<char> {
    let dir = without_tail(before_name(path));
    if before_name(path).len() > 0 && dir.len() == 0 {
        seq!['/']
    } else {
        dir
    }
}

/// `name` below `dir`; a `name` that begins with a slash stands for itself.
pub open spec fn join_path(dir: Seq<char>, name: Seq<char>) -> Seq<char> {
    if name.len() > 0 && name[0] == '/' {
        name
    } else if dir.len() == 0 || dir.last() == '/' {
        dir + name
    } else {
        dir.push('/') + name
    }
}

/// `path` with `name` in the place of its file name.
pub open spec fn with_file_name(path: Seq<char>, name: Seq<char>) -> Seq<char> {
    if file_name(path) is Some {
        join_path(parent(path), name)
    } else {
        join_path(path, name)
    }
}

/// Where the last dot stands in `name`, or -1.
pub open spec fn last_dot(name: Seq<char>) -> int
    decreases name.len(),
{
    if name.len() == 0 {
        -1
    } else if name.last() == '.' {
        name.len() - 1
    } else {
        last_dot(name.drop_last())
    }
}

/// What follows the last dot of a file name, unless that dot begins it.
pub open spec fn name_extension(name: Seq<char>) -> Option<Seq<char>> {
    if last_dot(name) > 0 {
        Some(name.skip(last_dot(name) + 1))
    } else {
        None
    }
}

/// A file name without its extension and the dot before it.
pub open spec fn name_stem(name: Seq<char>) -> Seq<char> {
    if last_dot(name) > 0 {
        name.take(last_dot(name))
    } else {
        name
    }
}

/// The extension of the path's file name.
pub open spec fn extension(path: Seq<char>) -> Option<Seq<char>> {
    match file_name(path) {
        Some(name) => name_extension(name),
        None => None,
    }
}

/// Whether `i` is the place of the first dot of `name`, one that begins it aside, or its end.
pub open spec fn ends_prefix(name: Seq<char>, i: int) -> bool {
    &&& 1 <= i <= name.len()
    &&& i < name.len() ==> name[i] == '.'
    &&& forall|k: int| 1 <= k < i ==> name[k] != '.'
}

/// What stands before the first dot of a file name, one that begins it aside.
pub open spec fn name_prefix(name: Seq<char>) -> Seq<char> {
    name.take(choose|i: int| ends_prefix(name, i))
}

/// The prefix of the path's file name.
pub open spec fn file_prefix(path: Seq<char>) -> Option<Seq<char>> {
    match file_name(path) {
        Some(name) => Some(name_prefix(name)),
        None => None,
    }
}

/// `path` up to the stem of its file name, then `ext`; an empty `ext` is left out.
pub open spec fn set_extension(path: Seq<char>, ext: Seq<char>) -> Seq<char> {
    match file_name(path) {
        Some(name) => {
            let bare = before_name(path) + name_stem(name);
            if ext.len() == 0 {
                bare
            } else {
                bare.push('.') + ext
            }
        },
        None => path,
    }
}

/// `path` without as many characters at its end as its extension has.
pub open spec fn extension_cut(path: Seq<char>) -> Seq<char> {
    match extension(path) {
        Some(ext) => path.take(path.len() - ext.len()),
        None => path,
    }
}

/// `path` with `ext` in the place of its file name's extension; an empty `ext` takes it away. Where
/// cutting the extension off leaves `..`, which is not a name, nothing takes its place.
pub open spec fn with_extension(path: Seq<char>, ext: Seq<char>) -> Seq<char> {
    set_extension(extension_cut(path), ext)
}

/// Whether the text holds no slash.
pub open spec fn no_slash(s: Seq<char>) -> bool {
    forall|i: int| 0 <= i < s.len() ==> #[trigger] s[i] != '/'
}

/// The length of the path without its tail.
fn tail_start(path: &[char]) -> (end: usize)
    ensures
        end <= path@.len(),
        without_tail(path@) == path@.take(end as int),
{
    let mut end: usize = path.len();
    assert(path@.take(end as int) =~= path@);
    while end > 0 && (path[end - 1] == '/' || (end > 1 && path[end - 1] == '.' && path[end - 2]
        == '/'))
        invariant
            end <= path.len(),
            without_tail(path@) == without_tail(path@.take(end as int)),
        decreases end,
    {
        assert(path@.take(end as int).drop_last() =~= path@.take(end - 1));
        end -= 1;
    }
    end
}

/// Where the text after the last slash begins.
fn name_place(path: &[char]) -> (start: usize)
    ensures
        start <= path@.len(),
        start == name_start(path@),
{
    let mut start: usize = path.len();
    assert(path@.take(start as int) =~= path@);
    while start > 0 && path[start - 1] != '/'
        invariant
            start <= path.len(),
            name_start(path@) == name_start(path@.take(start as int)),
        decreases start,
    {
        assert(path@.take(start as int).drop_last() =~= path@.take(start - 1));
        start -= 1;
    }
    start
}

/// The text before the last component, and the last component.
fn split_name(path: &[char]) -> (res: (&[char], &[char]))
    ensures
        res.0@ == before_name(path@),
        res.1@ == last_component(path@),
        res.1@.len() <= path@.len(),
{
    let body = slice_subrange(path, 0, tail_start(path));
    assert(body@ =~= without_tail(path@));
    let start = name_place(body);
    let before = slice_subrange(body, 0, start);
    let name = slice_subrange(body, start, body.len());
    assert(before@ =~= body@.take(start as int));
    assert(name@ =~= body@.skip(start as int));
    (before, name)
}

/// Whether a component names a file.
fn names_file(component: &[char]) -> (res: bool)
    ensures
        res == is_name(component@),
{
    if component.len() == 0 {
        false
    } else if component.len() == 1 {
        assert(component@ =~= seq!['.'] <==> component@[0] == '.');
        component[0] != '.'
    } else if component.len() == 2 {
        assert(component@ =~= seq!['.', '.'] <==> component@[0] == '.' && component@[1] == '.');
        component[0] != '.' || component[1] != '.'
    } else {
        true
    }
}

/// Where the last dot stands, if there is one.
fn dot_place(name: &[char]) -> (res: Option<usize>)
    ensures
        match res {
            Some(i) => i < name@.len() && i == last_dot(name@),
            None => last_dot(name@) == -1,
        },
{
    let mut end: usize = name.len();
    assert(name@.take(end as int) =~= name@);
    while end > 0
        invariant
            end <= name.len(),
            last_dot(name@) == last_dot(name@.take(end as int)),
        decreases end,
    {
        assert(name@.take(end as int).drop_last() =~= name@.take(end - 1));
        if name[end - 1] == '.' {
            return Some(end - 1);
        }
        end -= 1;
    }
    None
}

/// `name` below `dir`.
fn join_chars(dir: &[char], name: &[char]) -> (res: String)
    ensures
        res@ == join_path(dir@, name@),
{
    if name.len() > 0 && name[0] == '/' {
        return text_of(name);
    }
    let mut res = text_of(dir);
    if dir.len() > 0 && dir[dir.len() - 1] != '/' {
        res.push('/');
    }
    let tail = text_of(name);
    res.append(tail.as_str());
    res
}

/// `name` below `dir`.
pub fn joined(dir: &str, name: &str) -> (res: String)
    ensures
        res@ == join_path(dir@, name@),
{
    let dir = chars_of(dir);
    let name = chars_of(name);
    join_chars(dir.as_slice(), name.as_slice())
}

/// `path` with `name` in the place of its file name.
pub fn renamed(path: &str, name: &str) -> (res: String)
    ensures
        res@ == with_file_name(path@, name@),
{
    let path = chars_of(path);
    let name = chars_of(name);
    let (before, component) = split_name(path.as_slice());
    if names_file(component) {
        let dir = slice_subrange(before, 0, tail_start(before));
        assert(dir@ =~= without_tail(before@));
        if before.len() > 0 && dir.len() == 0 {
            let mut root: Vec<char> = Vec::new();
            root.push('/');
            assert(root@ =~= seq!['/']);
            join_chars(root.as_slice(), name.as_slice())
        } else {
            join_chars(dir, name.as_slice())
        }
    } else {
        join_chars(path.as_slice(), name.as_slice())
    }
}

/// `path` up to the stem of its file name, then `ext`.
fn extended(path: &[char], ext: &str) -> (res: String)
    ensures
        res@ == set_extension(path@, ext@),
{
    let (before, component) = split_name(path);
    if !names_file(component) {
        return text_of(path);
    }
    let stem = match dot_place(component) {
        Some(i) if i > 0 => slice_subrange(component, 0, i),
        _ => component,
    };
    assert(stem@ =~= name_stem(component@));
    let mut res = text_of(before);
    let tail = text_of(stem);
    res.append(tail.as_str());
    if !ext.is_empty() {
        res.push('.');
        res.append(ext);
    }
    assert(res@ =~= set_extension(path@, ext@));
    res
}

/// `path` with `ext` in the place of its file name's extension.
pub fn with_new_extension(path: &str, ext: &str) -> (res: String)
    requires
        no_slash(ext@),
    ensures
        res@ == with_extension(path@, ext@),
{
    let chars = chars_of(path);
    let (before, component) = split_name(chars.as_slice());
    let len: usize = component.len();
    let cut: usize = if names_file(component) {
        match dot_place(component) {
            Some(i) if i > 0 => len - i - 1,
            _ => 0,
        }
    } else {
        0
    };
    let rest = slice_subrange(chars.as_slice(), 0, chars.len() - cut);
    assert(rest@ =~= extension_cut(path@));
    extended(rest, ext)
}

/// The extension of the path's file name.
pub fn extension_of(path: &str) -> (res: Option<String>)
    ensures
        crate::text::opt_view(res) == extension(path@),
{
    let chars = chars_of(path);
    let (before, component) = split_name(chars.as_slice());
    if !names_file(component) {
        return None;
    }
    let len: usize = component.len();
    match dot_place(component) {
        Some(i) if i > 0 => {
            let ext = slice_subrange(component, i + 1, len);
            assert(ext@ =~= component@.skip(i + 1));
            Some(text_of(ext))
        },
        _ => None,
    }
}

/// A file name has one prefix.
pub proof fn lemma_prefix(name: Seq<char>, i: int)
    requires
        ends_prefix(name, i),
    ensures
        name_prefix(name) == name.take(i),
{
    let j = choose|j: int| ends_prefix(name, j);
    assert(i == j);
}

/// The prefix of the path's file name.
pub fn file_prefix_of(path: &str) -> (res: Option<String>)
    ensures
        crate::text::opt_view(res) == file_prefix(path@),
{
    let chars = chars_of(path);
    let (before, component) = split_name(chars.as_slice());
    if !names_file(component) {
        return None;
    }
    let mut i: usize = 1;
    while i < component.len() && component[i] != '.'
        invariant
            1 <= i <= component.len(),
            forall|k: int| 1 <= k < i ==> component@[k] != '.',
        decreases component.len() - i,
    {
        i += 1;
    }
    proof {
        lemma_prefix(component@, i as int);
    }
    let prefix = slice_subrange(component, 0, i);
    assert(prefix@ =~= component@.take(i as int));
    Some(text_of(prefix))
}

/// `dir` made ready for a name to follow it.
pub open spec fn with_slash(dir: Seq<char>) -> Seq<char> {
    if dir.len() == 0 || dir.last() == '/' {
        dir
    } else {
        dir.push('/')
    }
}

/// A path whose last component is a name has no tail.
proof fn lemma_no_tail(dir: Seq<char>, name: Seq<char>)
    requires
        is_name(name),
        no_slash(name),
        dir.len() > 0 ==> dir.last() == '/',
    ensures
        without_tail(dir + name) == dir + name,
        name_start(dir + name) == dir.len(),
    decreases name.len(),
{
    let path = dir + name;
    assert(path.last() == name.last());
    if name.len() == 1 {
        assert(name =~= seq![name[0]]);
    } else {
        assert(path[path.len() - 2] == name[name.len() - 2]);
    }
    lemma_name_start(dir, name);
}

/// The text after the last slash begins where a text without slashes was added.
proof fn lemma_name_start(dir: Seq<char>, name: Seq<char>)
    requires
        no_slash(name),
        dir.len() > 0 ==> dir.last() == '/',
    ensures
        name_start(dir + name) == dir.len(),
    decreases name.len(),
{
    if name.len() == 0 {
        assert(dir + name =~= dir);
    } else {
        assert((dir + name).drop_last() =~= dir + name.drop_last());
        assert((dir + name).last() == name.last());
        lemma_name_start(dir, name.drop_last());
    }
}

/// A name put below a directory is the file name of the path that results.
pub proof fn law_joined_file_name(dir: Seq<char>, name: Seq<char>)
    requires
        is_name(name),
        no_slash(name),
    ensures
        join_path(dir, name) == with_slash(dir) + name,
        before_name(join_path(dir, name)) == with_slash(dir),
        file_name(join_path(dir, name)) == Some(name),
{
    lemma_no_tail(with_slash(dir), name);
    let path = join_path(dir, name);
    assert(path =~= with_slash(dir) + name);
    assert(path.take(with_slash(dir).len() as int) =~= with_slash(dir));
    assert(path.skip(with_slash(dir).len() as int) =~= name);
}

/// Nothing of the tail is left when it was taken off.
proof fn lemma_tail_once(path: Seq<char>)
    ensures
        without_tail(without_tail(path)) == without_tail(path),
        without_tail(path).len() > 0 ==> without_tail(path).last() != '/',
    decreases path.len(),
{
    if path.len() > 0 && path.last() == '/' {
        lemma_tail_once(path.drop_last());
    } else if path.len() > 1 && path.last() == '.' && path[path.len() - 2] == '/' {
        lemma_tail_once(path.drop_last());
    }
}

/// A path whose file name was replaced leads to a file of the new name in the same directory.
pub proof fn law_renamed_in_place(path: Seq<char>, name: Seq<char>)
    requires
        file_name(path) is Some,
        is_name(name),
        no_slash(name),
    ensures
        with_file_name(path, name) == with_slash(parent(path)) + name,
        file_name(with_file_name(path, name)) == Some(name),
        parent(with_file_name(path, name)) == parent(path),
{
    let dir = parent(path);
    law_joined_file_name(dir, name);
    lemma_tail_once(before_name(path));
    let before = with_slash(dir);
    if dir.len() > 0 && dir.last() != '/' {
        assert(before.drop_last() =~= dir);
    } else if dir.len() > 0 {
        assert(dir =~= seq!['/']);
        assert(before.drop_last() =~= Seq::empty());
        assert(without_tail(before.drop_last()) =~= Seq::empty());
    }
}

/// `s` with `to` in the place of each `from`.
pub open spec fn exchanged(s: Seq<char>, from: char, to: char) -> Seq<char> {
    s.map_values(
        |c: char|
            if c == from {
                to
            } else {
                c
            },
    )
}

/// `s` with `to` in the place of each `from`.
fn exchange(s: &str, from: char, to: char) -> (res: String)
    ensures
        res@ == exchanged(s@, from, to),
{
    let chars = chars_of(s);
    let mut res = String::new();
    let mut i: usize = 0;
    while i < chars.len()
        invariant
            i <= chars.len(),
            chars@ == s@,
            res@ == exchanged(s@.take(i as int), from, to),
        decreases chars.len() - i,
    {
        let c = if chars[i] == from {
            to
        } else {
            chars[i]
        };
        res.push(c);
        i += 1;
        assert(res@ =~= exchanged(s@.take(i as int), from, to));
    }
    assert(s@.take(s@.len() as int) =~= s@);
    res
}

/// A path of a machine that puts `separator` between the components, with `/` between them.
pub fn portable(path: &str, separator: char) -> (res: String)
    ensures
        res@ == exchanged(path@, separator, '/'),
{
    exchange(path, separator, '/')
}

/// A path as a machine has it that puts `separator` between the components.
pub fn native(path: &str, separator: char) -> (res: String)
    ensures
        res@ == exchanged(path@, '/', separator),
{
    exchange(path, '/', separator)
}

/// A path of a machine comes back as it was, if its components stand apart by `separator` alone.
pub proof fn law_native_of_portable(path: Seq<char>, separator: char)
    requires
        separator == '/' || no_slash(path),
    ensures
        exchanged(exchanged(path, separator, '/'), '/', separator) == path,
{
    assert(exchanged(exchanged(path, separator, '/'), '/', separator) =~= path);
}

/// A name put below a directory of a machine stands there behind the separator of that machine.
pub proof fn law_native_joined(dir: Seq<char>, name: Seq<char>, separator: char)
    requires
        separator == '/' || no_slash(dir),
        no_slash(name),
    ensures
        exchanged(join_path(exchanged(dir, separator, '/'), name), '/', separator) == (if dir.len()
            == 0 || dir.last() == separator {
            dir + name
        } else {
            dir.push(separator) + name
        }),
{
    let inner = exchanged(dir, separator, '/');
    let path = join_path(inner, name);
    if dir.len() > 0 {
        assert(inner.last() == '/' <==> dir.last() == separator);
    }
    assert(exchanged(path, '/', separator) =~= (if dir.len() == 0 || dir.last() == separator {
        dir + name
    } else {
        dir.push(separator) + name
    }));
}

/// The last dot of a name to whose end a text without dots was added.
pub proof fn lemma_last_dot(name: Seq<char>, more: Seq<char>)
    requires
        forall|i: int| 0 <= i < more.len() ==> #[trigger] more[i] != '.',
    ensures
        last_dot(name + more) == last_dot(name),
    decreases more.len(),
{
    if more.len() == 0 {
        assert(name + more =~= name);
    } else {
        assert((name + more).drop_last() =~= name + more.drop_last());
        assert((name + more).last() == more.last());
        lemma_last_dot(name, more.drop_last());
    }
}

/// What follows the last slash holds none.
proof fn lemma_after_last_slash(path: Seq<char>)
    ensures
        0 <= name_start(path) <= path.len(),
        no_slash(path.skip(name_start(path))),
    decreases path.len(),
{
    if path.len() > 0 && path.last() != '/' {
        let rest = path.drop_last();
        lemma_after_last_slash(rest);
        let start = name_start(rest);
        assert forall|i: int| 0 <= i < path.len() - start implies #[trigger] path.skip(start)[i]
            != '/' by {
            if i < rest.len() - start {
                assert(path.skip(start)[i] == rest.skip(start)[i]);
            }
        }
    }
}

/// The last component of a path holds no slash.
pub proof fn lemma_component_no_slash(path: Seq<char>)
    ensures
        no_slash(last_component(path)),
{
    lemma_after_last_slash(without_tail(path));
}

/// The last dot of a name stands in it, and is a dot; none follows it.
pub proof fn lemma_last_dot_place(name: Seq<char>)
    ensures
        -1 <= last_dot(name) < name.len(),
        last_dot(name) >= 0 ==> name[last_dot(name)] == '.',
        forall|i: int| last_dot(name) < i < name.len() ==> #[trigger] name[i] != '.',
    decreases name.len(),
{
    if name.len() > 0 && name.last() != '.' {
        lemma_last_dot_place(name.drop_last());
        assert forall|i: int| last_dot(name) < i < name.len() implies #[trigger] name[i] != '.' by {
            if i < name.len() - 1 {
                assert(name.drop_last()[i] == name[i]);
            }
        }
    }
}

/// The extension of a path holds no slash.
pub proof fn lemma_extension_no_slash(path: Seq<char>)
    ensures
        extension(path) matches Some(ext) ==> no_slash(ext),
{
    let name = last_component(path);
    lemma_component_no_slash(path);
    lemma_last_dot_place(name);
    if extension(path) is Some {
        let ext = name.skip(last_dot(name) + 1);
        assert forall|i: int| 0 <= i < ext.len() implies #[trigger] ext[i] != '/' by {
            assert(ext[i] == name[i + last_dot(name) + 1]);
        }
    }
}

/// A name below a directory is the directory, a slash unless one is there, and the name; below nothing
/// it is itself, and so it is if it begins with a slash.
pub proof fn law_join(dir: Seq<char>, name: Seq<char>)
    ensures
        name.len() > 0 && name[0] == '/' ==> join_path(dir, name) == name,
        name.len() == 0 || name[0] != '/' ==> join_path(dir, name) == (if dir.len() == 0 {
            name
        } else if dir.last() == '/' {
            dir + name
        } else {
            dir + seq!['/'] + name
        }),
{
    assert(Seq::<char>::empty() + name =~= name);
    assert(dir.push('/') + name =~= dir + seq!['/'] + name);
    if dir.len() == 0 {
        assert(dir + name =~= name);
    }
}

/// Slashes at the end of a path, and a `.` behind one, do not change the file that it leads to.
pub proof fn law_file_name_tail(path: Seq<char>)
    ensures
        file_name(path.push('/')) == file_name(path),
        file_name(path + seq!['/', '.']) == file_name(path),
        extension(path.push('/')) == extension(path),
        extension(path + seq!['/', '.']) == extension(path),
        file_prefix(path.push('/')) == file_prefix(path),
        file_prefix(path + seq!['/', '.']) == file_prefix(path),
        parent(path.push('/')) == parent(path),
        parent(path + seq!['/', '.']) == parent(path),
{
    assert(path.push('/').drop_last() =~= path);
    let dotted = path + seq!['/', '.'];
    assert(dotted.drop_last() =~= path.push('/'));
    assert(without_tail(path.push('/')) == without_tail(path));
    assert(without_tail(dotted) == without_tail(path.push('/')));
}

/// A path that ends with `..`, or is nothing or `.`, leads to no file.
pub proof fn law_no_file_name(dir: Seq<char>)
    ensures
        file_name(Seq::empty()) is None,
        file_name(seq!['.']) is None,
        file_name(join_path(dir, seq!['.', '.'])) is None,
{
    let up = seq!['.', '.'];
    let path = with_slash(dir) + up;
    assert(join_path(dir, up) =~= path);
    assert(path.last() == '.');
    assert(path[path.len() - 2] == '.');
    lemma_name_start(with_slash(dir), up);
    assert(path.skip(with_slash(dir).len() as int) =~= up);
    let dot = seq!['.'];
    lemma_name_start(Seq::empty(), dot);
    assert(Seq::empty() + dot =~= dot);
    assert(dot.skip(0) =~= dot);
    assert(Seq::<char>::empty().skip(0) =~= Seq::<char>::empty());
}

/// A file that was put below a directory stands in it.
pub proof fn law_parent(dir: Seq<char>, name: Seq<char>)
    requires
        is_name(name),
        no_slash(name),
        dir.len() == 0 || dir == seq!['/'] || (dir.last() != '/' && !(dir.len() > 1 && dir.last()
            == '.' && dir[dir.len() - 2] == '/')),
    ensures
        parent(join_path(dir, name)) == dir,
{
    law_joined_file_name(dir, name);
    if dir.len() > 0 {
        if dir.last() == '/' {
            assert(dir == seq!['/']);
            assert(dir.drop_last() =~= Seq::empty());
            assert(without_tail(dir.drop_last()) =~= Seq::empty());
        } else {
            assert(dir.push('/').drop_last() =~= dir);
            assert(without_tail(dir) == dir);
        }
    }
}

/// The extension of a file is what follows the last dot of its name; a name has none that has no dot but
/// one that begins it.
pub proof fn law_extension(dir: Seq<char>, stem: Seq<char>, ext: Seq<char>)
    requires
        stem.len() > 0,
        no_slash(stem),
        no_slash(ext),
        forall|i: int| 0 <= i < ext.len() ==> #[trigger] ext[i] != '.',
    ensures
        is_name(stem.push('.') + ext) ==> extension(join_path(dir, stem.push('.') + ext)) == Some(ext),
        is_name(stem) && (forall|i: int| 1 <= i < stem.len() ==> #[trigger] stem[i] != '.')
            ==> extension(join_path(dir, stem)) is None,
{
    let name = stem.push('.') + ext;
    assert(no_slash(name));
    if is_name(name) {
        law_joined_file_name(dir, name);
        lemma_last_dot(stem.push('.'), ext);
        assert(name.skip(stem.len() as int + 1) =~= ext);
    }
    if is_name(stem) && (forall|i: int| 1 <= i < stem.len() ==> #[trigger] stem[i] != '.') {
        law_joined_file_name(dir, stem);
        lemma_last_dot_place(stem);
    }
}

/// The prefix of a file is what stands before the first dot of its name, one that begins it aside.
pub proof fn law_file_prefix(dir: Seq<char>, prefix: Seq<char>, rest: Seq<char>)
    requires
        prefix.len() > 0,
        forall|i: int| 1 <= i < prefix.len() ==> #[trigger] prefix[i] != '.',
        rest.len() == 0 || rest[0] == '.',
        is_name(prefix + rest),
        no_slash(prefix + rest),
    ensures
        file_prefix(join_path(dir, prefix + rest)) == Some(prefix),
{
    let name = prefix + rest;
    law_joined_file_name(dir, name);
    assert forall|k: int| 1 <= k < prefix.len() implies name[k] != '.' by {
        assert(name[k] == prefix[k]);
    }
    lemma_prefix(name, prefix.len() as int);
    assert(name.take(prefix.len() as int) =~= prefix);
}

/// A new extension takes the place of the old one, or is added where there is none; an empty one takes
/// the old one away, with the dot before it.
pub proof fn law_with_extension(dir: Seq<char>, stem: Seq<char>, old_ext: Seq<char>, ext: Seq<char>)
    requires
        is_name(stem),
        no_slash(stem),
        no_slash(old_ext),
        forall|i: int| 0 <= i < old_ext.len() ==> #[trigger] old_ext[i] != '.',
    ensures
        ({
            let bare = join_path(dir, stem);
            let new = if ext.len() == 0 {
                bare
            } else {
                bare + seq!['.'] + ext
            };
            &&& with_extension(join_path(dir, stem.push('.') + old_ext), ext) == new
            &&& (forall|i: int| 1 <= i < stem.len() ==> #[trigger] stem[i] != '.')
                ==> with_extension(bare, ext) == new
        }),
{
    let before = with_slash(dir);
    let bare = join_path(dir, stem);
    let dotted = stem.push('.');
    let name = dotted + old_ext;
    let path = join_path(dir, name);
    let new = if ext.len() == 0 {
        bare
    } else {
        bare + seq!['.'] + ext
    };
    law_joined_file_name(dir, stem);
    assert(dotted.len() >= 2);
    if dotted.len() == 2 {
        assert(stem =~= seq![stem[0]]);
        assert(dotted[0] == stem[0]);
    }
    assert(is_name(dotted));
    assert(name.len() == 2 ==> name =~= dotted);
    assert(is_name(name));
    assert(no_slash(name));
    law_joined_file_name(dir, name);
    law_joined_file_name(dir, dotted);
    law_extension(dir, stem, old_ext);
    assert(path.take(path.len() - old_ext.len()) =~= join_path(dir, dotted));
    assert(dotted.take(stem.len() as int) =~= stem);
    assert(before + stem =~= bare);
    assert(bare.push('.') + ext =~= bare + seq!['.'] + ext);
    if forall|i: int| 1 <= i < stem.len() ==> #[trigger] stem[i] != '.' {
        lemma_last_dot_place(stem);
        assert(extension(bare) is None);
    }
}

/// A path in the form of another machine is as long, and differs only where separators stand.
pub proof fn law_exchanged(path: Seq<char>, from: char, to: char)
    ensures
        exchanged(path, from, to).len() == path.len(),
        forall|i: int|
            0 <= i < path.len() ==> {
                let c = #[trigger] exchanged(path, from, to)[i];
                (path[i] == from ==> c == to) && (path[i] != from ==> c == path[i])
            },
{
}

/// Slashes at the end of a directory, and a `.` behind one, do not change the directory that a file below
/// it stands in.
pub proof fn law_parent_tail(dir: Seq<char>, name: Seq<char>)
    requires
        is_name(name),
        no_slash(name),
        dir.len() > 0,
    ensures
        parent(join_path(dir.push('/'), name)) == parent(join_path(dir, name)),
        parent(join_path(dir + seq!['/', '.'], name)) == parent(join_path(dir, name)),
{
    let dotted = dir + seq!['/', '.'];
    law_joined_file_name(dir, name);
    law_joined_file_name(dir.push('/'), name);
    law_joined_file_name(dotted, name);
    assert(dir.push('/').drop_last() =~= dir);
    assert(dotted.push('/').drop_last() =~= dotted);
    assert(dotted.drop_last() =~= dir.push('/'));
    assert(without_tail(dir.push('/')) == without_tail(dir));
    assert(without_tail(dotted) == without_tail(dir.push('/')));
    assert(without_tail(dotted.push('/')) == without_tail(dotted));
}

/// A new file name is put below the directory of the file, or below the path where that leads to no file.
pub proof fn law_with_file_name(path: Seq<char>, name: Seq<char>)
    ensures
        file_name(path) is Some ==> with_file_name(path, name) == join_path(parent(path), name),
        file_name(path) is None ==> with_file_name(path, name) == join_path(path, name),
{
}

} // verus!
