//! Paths as text, with `/` between their components.

use crate::text::{chars_of, string_of};
use vstd::prelude::*;
use vstd::string::*;

verus! {

/// Where the component that ends at `end` begins.
pub open spec fn component_start(s: Seq<char>, end: int) -> int
    decreases end,
{
    if end <= 0 || s[end - 1] == '/' {
        end
    } else {
        component_start(s, end - 1)
    }
}

/// The bounds of the last component of `s[..end]`, if it names a file: slashes
/// and `.` at the end are passed over, and `..` names none.
pub open spec fn name_bounds(s: Seq<char>, end: int) -> Option<(int, int)>
    decreases end,
    when 0 <= end <= s.len() via name_bounds_decreases
{
    let a = component_start(s, end);
    if end == 0 {
        None
    } else if s[end - 1] == '/' {
        name_bounds(s, end - 1)
    } else if s.subrange(a, end) == seq!['.'] {
        if a == 0 {
            None
        } else {
            name_bounds(s, a)
        }
    } else if s.subrange(a, end) == seq!['.', '.'] {
        None
    } else {
        Some((a, end))
    }
}

#[via_fn]
proof fn name_bounds_decreases(s: Seq<char>, end: int) {
    if end > 0 {
        lemma_component_start(s, end);
    }
}

pub proof fn lemma_component_start(s: Seq<char>, end: int)
    requires
        0 <= end <= s.len(),
    ensures
        0 <= component_start(s, end) <= end,
        end > 0 && s[end - 1] != '/' ==> component_start(s, end) < end,
    decreases end,
{
    if end > 0 && s[end - 1] != '/' {
        lemma_component_start(s, end - 1);
    }
}

/// Where the last dot of `s[a..b]` stands.
pub open spec fn last_dot(s: Seq<char>, a: int, b: int) -> Option<int>
    decreases b - a,
{
    if b <= a {
        None
    } else if s[b - 1] == '.' {
        Some(b - 1)
    } else {
        last_dot(s, a, b - 1)
    }
}

/// Where the extension of a file name begins: behind its last dot, unless that
/// is its first character.
pub open spec fn extension_start(s: Seq<char>, a: int, b: int) -> Option<int> {
    match last_dot(s, a, b) {
        None => None,
        Some(d) => if d == a {
            None
        } else {
            Some(d + 1)
        },
    }
}

/// The extension of a path, without its dot.
pub open spec fn extension_of(path: Seq<char>) -> Option<Seq<char>> {
    match name_bounds(path, path.len() as int) {
        None => None,
        Some((a, b)) => match extension_start(path, a, b) {
            None => None,
            Some(e) => Some(path.subrange(e, b)),
        },
    }
}

/// A path with another extension; one that names no file stays as it is.
pub open spec fn with_extension(path: Seq<char>, ext: Seq<char>) -> Seq<char> {
    match name_bounds(path, path.len() as int) {
        None => path,
        Some((a, b)) => {
            let stem = match extension_start(path, a, b) {
                None => b,
                Some(e) => e - 1,
            };
            path.take(stem) + seq!['.'] + ext
        },
    }
}

/// A file inside a directory; a file that begins with a slash stands alone.
pub open spec fn joined(dir: Seq<char>, file: Seq<char>) -> Seq<char> {
    if file.len() > 0 && file[0] == '/' {
        file
    } else if dir.len() == 0 || dir.last() == '/' {
        dir + file
    } else {
        dir + seq!['/'] + file
    }
}

fn find_name(s: &Vec<char>) -> (r: Option<(usize, usize)>)
    ensures
        match r {
            Some((a, b)) => a < b <= s@.len() && name_bounds(s@, s@.len() as int) == Some(
                (a as int, b as int),
            ),
            None => name_bounds(s@, s@.len() as int) is None,
        },
{
    let mut end: usize = s.len();
    while end > 0
        invariant
            end <= s@.len(),
            name_bounds(s@, s@.len() as int) == name_bounds(s@, end as int),
        decreases end,
    {
        if s[end - 1] == '/' {
            end = end - 1;
        } else {
            let mut a: usize = end;
            proof {
                lemma_component_start(s@, end as int);
            }
            while a > 0 && s[a - 1] != '/'
                invariant
                    a <= end <= s@.len(),
                    component_start(s@, end as int) == component_start(s@, a as int),
                decreases a,
            {
                a = a - 1;
            }
            let ghost c = s@.subrange(a as int, end as int);
            let dot: bool = end - a == 1 && s[a] == '.';
            let dots: bool = end - a == 2 && s[a] == '.' && s[a + 1] == '.';
            proof {
                assert(a == component_start(s@, end as int));
                assert(dot == (c == seq!['.'])) by {
                    assert(seq!['.'].len() == 1 && seq!['.'][0] == '.');
                    if dot {
                        assert(c =~= seq!['.']);
                    }
                }
                assert(dots == (c == seq!['.', '.'])) by {
                    let d = seq!['.', '.'];
                    assert(d.len() == 2 && d[0] == '.' && d[1] == '.');
                    if dots {
                        assert(c =~= d);
                    }
                }
            }
            if dot {
                if a == 0 {
                    return None;
                }
                end = a;
            } else if dots {
                return None;
            } else {
                return Some((a, end));
            }
        }
    }
    None
}

fn find_extension(s: &Vec<char>, a: usize, b: usize) -> (r: Option<usize>)
    requires
        a <= b <= s@.len(),
    ensures
        match r {
            Some(e) => a < e <= b && extension_start(s@, a as int, b as int) == Some(e as int),
            None => extension_start(s@, a as int, b as int) is None,
        },
{
    let mut i: usize = b;
    while i > a
        invariant
            a <= i <= b <= s@.len(),
            last_dot(s@, a as int, b as int) == last_dot(s@, a as int, i as int),
        decreases i,
    {
        if s[i - 1] == '.' {
            return if i - 1 == a {
                None
            } else {
                Some(i)
            };
        }
        i = i - 1;
    }
    None
}

/// The extension of a path, without its dot.
pub fn extension(path: &str) -> (r: Option<String>)
    ensures
        match r {
            Some(e) => extension_of(path@) == Some(e@),
            None => extension_of(path@) is None,
        },
{
    let s = chars_of(path);
    match find_name(&s) {
        None => None,
        Some((a, b)) => match find_extension(&s, a, b) {
            None => None,
            Some(e) => Some(string_of(&s, e, b)),
        },
    }
}

/// The path with another extension.
pub fn set_extension(path: &str, ext: &str) -> (r: String)
    ensures
        r@ == with_extension(path@, ext@),
{
    let s = chars_of(path);
    match find_name(&s) {
        None => path.to_owned(),
        Some((a, b)) => {
            let stem: usize = match find_extension(&s, a, b) {
                None => b,
                Some(e) => e - 1,
            };
            let mut r: String = string_of(&s, 0, stem);
            r.push('.');
            r.append(ext);
            proof {
                assert(r@ =~= with_extension(path@, ext@));
            }
            r
        },
    }
}

/// A file inside a directory.
pub fn join(dir: &str, file: &str) -> (r: String)
    ensures
        r@ == joined(dir@, file@),
{
    let d = chars_of(dir);
    let f = chars_of(file);
    if f.len() > 0 && f[0] == '/' {
        return file.to_owned();
    }
    let mut r: String = dir.to_owned();
    if d.len() > 0 && d[d.len() - 1] != '/' {
        r.push('/');
    }
    r.append(file);
    proof {
        assert(r@ =~= joined(dir@, file@));
    }
    r
}

} // verus!
