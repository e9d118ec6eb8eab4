//! How a path is made of a directory, a name and an extension, and that it is
//! taken apart the same way.

use crate::paths;
use vstd::prelude::*;

verus! {

/// Whether a text can stand in front of a file name: it is empty or ends in a
/// slash.
pub open spec fn directory(dir: Seq<char>) -> bool {
    dir.len() == 0 || dir.last() == '/'
}

/// Whether a text is the name of a file.
pub open spec fn file_name(name: Seq<char>) -> bool {
    name.len() > 0 && !name.contains('/') && name != seq!['.'] && name != seq!['.', '.']
}

proof fn lemma_start(s: Seq<char>, a: int, end: int)
    requires
        0 <= a <= end <= s.len(),
        a == 0 || s[a - 1] == '/',
        forall|i: int| a <= i < end ==> #[trigger] s[i] != '/',
    ensures
        paths::component_start(s, end) == a,
    decreases end,
{
    if end > a {
        assert(s[end - 1] != '/');
        lemma_start(s, a, end - 1);
    }
}

/// The name of the file at a path is found.
proof fn lemma_name(dir: Seq<char>, name: Seq<char>)
    requires
        directory(dir),
        file_name(name),
    ensures
        paths::name_bounds(dir + name, (dir + name).len() as int) == Some(
            (dir.len() as int, (dir + name).len() as int),
        ),
{
    let s = dir + name;
    let a = dir.len() as int;
    let end = s.len() as int;
    assert forall|i: int| a <= i < end implies #[trigger] s[i] != '/' by {
        assert(s[i] == name[i - a]);
        assert(name.contains(name[i - a]));
    }
    if a > 0 {
        assert(s[a - 1] == dir.last());
    }
    lemma_start(s, a, end);
    assert(s[end - 1] != '/');
    assert(s.subrange(a, end) =~= name);
}

proof fn lemma_dot(s: Seq<char>, a: int, b: int, d: int)
    requires
        0 <= a <= d < b <= s.len(),
        s[d] == '.',
        forall|i: int| d < i < b ==> #[trigger] s[i] != '.',
    ensures
        paths::last_dot(s, a, b) == Some(d),
    decreases b,
{
    if b - 1 != d {
        assert(s[b - 1] != '.');
        lemma_dot(s, a, b - 1, d);
    }
}

proof fn lemma_no_dot(s: Seq<char>, a: int, b: int)
    requires
        0 <= a <= b <= s.len(),
        forall|i: int| a <= i < b ==> #[trigger] s[i] != '.',
    ensures
        paths::last_dot(s, a, b) is None,
    decreases b,
{
    if b > a {
        assert(s[b - 1] != '.');
        lemma_no_dot(s, a, b - 1);
    }
}

proof fn lemma_extended(dir: Seq<char>, stem: Seq<char>, ext: Seq<char>)
    requires
        directory(dir),
        stem.len() > 0,
        !ext.contains('.'),
        file_name(stem + seq!['.'] + ext),
    ensures
        paths::name_bounds(
            dir + (stem + seq!['.'] + ext),
            (dir + (stem + seq!['.'] + ext)).len() as int,
        ) == Some((dir.len() as int, (dir + (stem + seq!['.'] + ext)).len() as int)),
        paths::extension_start(
            dir + (stem + seq!['.'] + ext),
            dir.len() as int,
            (dir + (stem + seq!['.'] + ext)).len() as int,
        ) == Some((dir.len() + stem.len() + 1) as int),
{
    let name = stem + seq!['.'] + ext;
    let s = dir + name;
    let d = (dir.len() + stem.len()) as int;
    lemma_name(dir, name);
    assert(s[d] == name[stem.len() as int]);
    assert forall|i: int| d < i < s.len() implies #[trigger] s[i] != '.' by {
        assert(s[i] == ext[i - d - 1]);
        assert(ext.contains(ext[i - d - 1]));
    }
    lemma_dot(s, dir.len() as int, s.len() as int, d);
}

/// The extension of a file is what stands behind the last dot of its name; a
/// directory in front does not matter.
pub proof fn law_extension_behind_the_last_dot(dir: Seq<char>, stem: Seq<char>, ext: Seq<char>)
    requires
        directory(dir),
        stem.len() > 0,
        !ext.contains('.'),
        file_name(stem + seq!['.'] + ext),
    ensures
        paths::extension_of(dir + (stem + seq!['.'] + ext)) == Some(ext),
{
    let s = dir + (stem + seq!['.'] + ext);
    lemma_extended(dir, stem, ext);
    assert(s.subrange((dir.len() + stem.len() + 1) as int, s.len() as int) =~= ext);
}

/// A name without a dot, or with none but at its beginning, has no extension.
pub proof fn law_no_extension_without_a_dot(dir: Seq<char>, name: Seq<char>)
    requires
        directory(dir),
        file_name(name),
        !name.skip(1).contains('.'),
    ensures
        paths::extension_of(dir + name) is None,
{
    let s = dir + name;
    let a = dir.len() as int;
    lemma_name(dir, name);
    assert forall|i: int| a < i < s.len() implies #[trigger] s[i] != '.' by {
        assert(s[i] == name.skip(1)[i - a - 1]);
        assert(name.skip(1).contains(name.skip(1)[i - a - 1]));
    }
    if s[a] == '.' {
        lemma_dot(s, a, s.len() as int, a);
    } else {
        lemma_no_dot(s, a, s.len() as int);
    }
}

/// Another extension takes the place of the one that is there, and stands behind
/// a name that has none.
pub proof fn law_another_extension(dir: Seq<char>, stem: Seq<char>, ext: Seq<char>, new: Seq<char>)
    requires
        directory(dir),
        stem.len() > 0,
    ensures
        !ext.contains('.') && file_name(stem + seq!['.'] + ext) ==> paths::with_extension(
            dir + (stem + seq!['.'] + ext),
            new,
        ) == dir + (stem + seq!['.'] + new),
        file_name(stem) && !stem.contains('.') ==> paths::with_extension(dir + stem, new) == dir + (
        stem + seq!['.'] + new),
{
    if !ext.contains('.') && file_name(stem + seq!['.'] + ext) {
        let s = dir + (stem + seq!['.'] + ext);
        lemma_extended(dir, stem, ext);
        assert(paths::with_extension(s, new) =~= dir + (stem + seq!['.'] + new));
    }
    if file_name(stem) && !stem.contains('.') {
        let s = dir + stem;
        lemma_name(dir, stem);
        assert forall|i: int| dir.len() <= i < s.len() implies #[trigger] s[i] != '.' by {
            assert(s[i] == stem[i - dir.len()]);
            assert(stem.contains(stem[i - dir.len()]));
        }
        lemma_no_dot(s, dir.len() as int, s.len() as int);
        assert(paths::with_extension(s, new) =~= dir + (stem + seq!['.'] + new));
    }
}

/// A file inside a directory has the directory in front of it, with one slash
/// between them, and keeps its name and extension.
pub proof fn law_files_keep_their_names(dir: Seq<char>, stem: Seq<char>, ext: Seq<char>)
    requires
        stem.len() > 0,
        !ext.contains('.'),
        file_name(stem + seq!['.'] + ext),
    ensures
        ({
            let file = stem + seq!['.'] + ext;
            let path = paths::joined(dir, file);
            &&& paths::extension_of(path) == Some(ext)
            &&& directory(dir) ==> path == dir + file
            &&& !directory(dir) ==> path == dir.push('/') + file
        }),
{
    let file = stem + seq!['.'] + ext;
    assert(file[0] == stem[0]);
    assert(file.contains(file[0]));
    let front = if directory(dir) {
        dir
    } else {
        dir.push('/')
    };
    assert(paths::joined(dir, file) =~= front + file);
    law_extension_behind_the_last_dot(front, stem, ext);
}

proof fn lemma_same_start(s: Seq<char>, t: Seq<char>, end: int)
    requires
        0 <= end <= s.len(),
        end <= t.len(),
        s.take(end) == t.take(end),
    ensures
        paths::component_start(s, end) == paths::component_start(t, end),
    decreases end,
{
    if end > 0 {
        assert(s[end - 1] == s.take(end)[end - 1]);
        assert(t[end - 1] == t.take(end)[end - 1]);
        assert(s.take(end - 1) =~= s.take(end).take(end - 1));
        assert(t.take(end - 1) =~= t.take(end).take(end - 1));
        lemma_same_start(s, t, end - 1);
    }
}

proof fn lemma_same_bounds(s: Seq<char>, t: Seq<char>, end: int)
    requires
        0 <= end <= s.len(),
        end <= t.len(),
        s.take(end) == t.take(end),
    ensures
        paths::name_bounds(s, end) == paths::name_bounds(t, end),
        paths::name_bounds(s, end) matches Some((a, b)) ==> 0 <= a <= b <= end,
    decreases end,
{
    if end > 0 {
        lemma_same_start(s, t, end);
        paths::lemma_component_start(s, end);
        let a = paths::component_start(s, end);
        assert(s[end - 1] == s.take(end)[end - 1]);
        assert(t[end - 1] == t.take(end)[end - 1]);
        assert(s.take(end - 1) =~= s.take(end).take(end - 1));
        assert(t.take(end - 1) =~= t.take(end).take(end - 1));
        assert(s.subrange(a, end) =~= s.take(end).subrange(a, end));
        assert(t.subrange(a, end) =~= t.take(end).subrange(a, end));
        assert(s.take(a) =~= s.take(end).take(a));
        assert(t.take(a) =~= t.take(end).take(a));
        lemma_same_bounds(s, t, end - 1);
        if a < end {
            lemma_same_bounds(s, t, a);
        }
    }
}

proof fn lemma_same_dot(s: Seq<char>, t: Seq<char>, a: int, b: int)
    requires
        0 <= a <= b <= s.len(),
        b <= t.len(),
        forall|i: int| a <= i < b ==> #[trigger] s[i] == t[i],
    ensures
        paths::last_dot(s, a, b) == paths::last_dot(t, a, b),
        paths::last_dot(s, a, b) matches Some(d) ==> a <= d < b,
    decreases b,
{
    if b > a {
        assert(s[b - 1] == t[b - 1]);
        lemma_same_dot(s, t, a, b - 1);
    }
}

/// A slash at the end of a path does not matter.
pub proof fn law_slash_at_the_end(path: Seq<char>)
    ensures
        paths::extension_of(path.push('/')) == paths::extension_of(path),
{
    let t = path.push('/');
    let end = path.len() as int;
    assert(t.take(end) =~= path.take(end));
    lemma_same_bounds(t, path, end);
    assert(t[end] == '/');
    if let Some((a, b)) = paths::name_bounds(path, end) {
        lemma_same_dot(t, path, a, b);
        if let Some(e) = paths::extension_start(path, a, b) {
            assert(t.subrange(e, b) =~= path.subrange(e, b));
        }
    }
}

} // verus!
