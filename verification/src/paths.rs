//! File names and paths, as `std::path::Path` splits them on Unix.
use vstd::prelude::*;

use crate::text::{chars_eq_str, chars_of, push_str, split_all, split_seq, string_from_chars, sub_vec};

verus! {

/// Index of the last `.` in a file name, if any.
pub open spec fn last_dot(name: Seq<char>) -> Option<int>
    decreases name.len(),
{
    if name.len() == 0 {
        None
    } else if name.last() == '.' {
        Some(name.len() - 1)
    } else {
        last_dot(name.drop_last())
    }
}

/// A file name split into stem and extension, as `Path::file_stem` and
/// `Path::extension` split it: at the last `.`, unless that `.` starts the
/// name or the name is `..`.
pub open spec fn stem_and_extension(name: Seq<char>) -> (Seq<char>, Option<Seq<char>>) {
    match last_dot(name) {
        Some(d) => if d == 0 || name == ".."@ {
            (name, None)
        } else {
            (name.take(d), Some(name.skip(d + 1)))
        },
        None => (name, None),
    }
}

/// The last component of a path that names something (`Path::file_name`),
/// or the empty text when the path has none or ends in `..`.
pub open spec fn last_named(pieces: Seq<Seq<char>>) -> Seq<char>
    decreases pieces.len(),
{
    if pieces.len() == 0 {
        Seq::empty()
    } else {
        let p = pieces.last();
        if p.len() == 0 || p == "."@ {
            last_named(pieces.drop_last())
        } else if p == ".."@ {
            Seq::empty()
        } else {
            p
        }
    }
}

/// The file name of a `/`-separated path, or the empty text.
pub open spec fn path_file_name(path: Seq<char>) -> Seq<char> {
    last_named(split_seq(path, '/'))
}

/// A relative file name joined to a directory, with one `/` between them.
pub open spec fn join_path(dir: Seq<char>, name: Seq<char>) -> Seq<char> {
    if dir.len() == 0 {
        name
    } else if dir.last() == '/' {
        dir + name
    } else {
        dir + "/"@ + name
    }
}

/// Finds the last `.` in `name`.
pub fn find_last_dot(name: &Vec<char>) -> (r: Option<usize>)
    ensures
        match last_dot(name@) {
            Some(d) => r == Some(d as usize) && 0 <= d < name@.len() && name@[d] == '.',
            None => r is None,
        },
{
    let mut i: usize = name.len();
    assert(name@.take(name@.len() as int) =~= name@);
    while i > 0
        invariant
            i <= name@.len(),
            last_dot(name@) == last_dot(name@.take(i as int)),
            forall|j: int| i <= j < name@.len() ==> name@[j] != '.',
        decreases i,
    {
        let ghost t = name@.take(i as int);
        assert(t.drop_last() =~= name@.take(i - 1));
        if name[i - 1] == '.' {
            assert(t.last() == '.');
            return Some(i - 1);
        }
        i = i - 1;
    }
    assert(name@.take(0) =~= Seq::<char>::empty());
    None
}

/// Whether the characters are exactly `..`.
pub fn is_dot_dot(v: &Vec<char>) -> (b: bool)
    ensures
        b == (v@ == ".."@),
{
    chars_eq_str(v, "..")
}

/// The stem and extension of a file name.
pub fn split_stem_extension(name: &Vec<char>) -> (r: (Vec<char>, Option<Vec<char>>))
    ensures
        r.0@ == stem_and_extension(name@).0,
        match stem_and_extension(name@).1 {
            Some(e) => r.1 matches Some(x) && x@ == e,
            None => r.1 is None,
        },
{
    match find_last_dot(name) {
        None => {
            let all = sub_vec(name, 0, name.len());
            assert(all@ =~= name@);
            (all, None)
        },
        Some(d) => {
            if d == 0 || is_dot_dot(name) {
                let all = sub_vec(name, 0, name.len());
                assert(all@ =~= name@);
                (all, None)
            } else {
                let stem = sub_vec(name, 0, d);
                let ext = sub_vec(name, d + 1, name.len());
                assert(stem@ =~= name@.take(d as int));
                assert(ext@ =~= name@.skip(d + 1));
                (stem, Some(ext))
            }
        },
    }
}

/// The file name of a `/`-separated path, or the empty text.
pub fn file_name_of(path: &Vec<char>) -> (r: Vec<char>)
    ensures
        r@ == path_file_name(path@),
{
    let pieces = split_all(path, '/');
    let ghost ps = split_seq(path@, '/');
    let mut i: usize = pieces.len();
    assert(ps.take(ps.len() as int) =~= ps);
    while i > 0
        invariant
            i <= pieces@.len(),
            pieces@.len() == ps.len(),
            ps == split_seq(path@, '/'),
            forall|k: int| 0 <= k < pieces@.len() ==> #[trigger] pieces@[k]@ == ps[k],
            last_named(ps) == last_named(ps.take(i as int)),
        decreases i,
    {
        let ghost t = ps.take(i as int);
        assert(t.drop_last() =~= ps.take(i - 1));
        assert(t.last() == pieces@[i - 1]@);
        let p = &pieces[i - 1];
        if p.len() == 0 || chars_eq_str(p, ".") {
            i = i - 1;
        } else if chars_eq_str(p, "..") {
            return Vec::new();
        } else {
            let r = sub_vec(p, 0, p.len());
            assert(r@ =~= p@);
            return r;
        }
    }
    assert(ps.take(0) =~= Seq::<Seq<char>>::empty());
    Vec::new()
}

/// A relative file name joined to a directory, as a `String`.
pub fn string_join_path(dir: &str, name: &str) -> (p: String)
    ensures
        p@ == join_path(dir@, name@),
{
    let d = chars_of(dir);
    let mut out: Vec<char> = Vec::new();
    if d.len() == 0 {
        push_str(&mut out, name);
    } else if d[d.len() - 1] == '/' {
        push_str(&mut out, dir);
        push_str(&mut out, name);
    } else {
        push_str(&mut out, dir);
        push_str(&mut out, "/");
        push_str(&mut out, name);
    }
    proof {
        reveal_strlit("/");
    }
    string_from_chars(&out)
}

/// A path joined to a directory as `PathBuf::join` joins it: an absolute
/// path replaces the directory.
pub open spec fn join_any(dir: Seq<char>, p: Seq<char>) -> Seq<char> {
    if p.len() > 0 && p[0] == '/' {
        p
    } else {
        join_path(dir, p)
    }
}

/// Joins a path to a directory as `PathBuf::join` does.
pub fn string_join_any(dir: &str, p: &str) -> (r: String)
    ensures
        r@ == join_any(dir@, p@),
{
    let pc = chars_of(p);
    if pc.len() > 0 && pc[0] == '/' {
        string_from_chars(&pc)
    } else {
        string_join_path(dir, p)
    }
}

} // verus!
