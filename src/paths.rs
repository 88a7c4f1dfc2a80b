//! Paths as sequences of segments.
//!
//! A path is cut at `/`; empty segments (from a leading, trailing or doubled
//! `/`) are not segments.

use vstd::prelude::*;
use crate::tags::texts;

verus! {

/// The pieces of `s` between slashes, empty ones included.
pub open spec fn slash_pieces(s: Seq<char>) -> Seq<Seq<char>>
    decreases s.len(),
{
    if s.len() == 0 {
        seq![Seq::<char>::empty()]
    } else {
        let p = slash_pieces(s.drop_last());
        if s.last() == '/' {
            p.push(Seq::<char>::empty())
        } else {
            p.update(p.len() - 1, p.last().push(s.last()))
        }
    }
}

/// The non-empty strings of `ps`, in order.
pub open spec fn non_empty(ps: Seq<Seq<char>>) -> Seq<Seq<char>>
    decreases ps.len(),
{
    if ps.len() == 0 {
        Seq::empty()
    } else if ps.last().len() > 0 {
        non_empty(ps.drop_last()).push(ps.last())
    } else {
        non_empty(ps.drop_last())
    }
}

/// The segments of a path.
pub open spec fn segments(path: Seq<char>) -> Seq<Seq<char>> {
    non_empty(slash_pieces(path))
}

/// The segments of `path` below `root`, when `root` is a prefix of it.
pub open spec fn relative(root: Seq<Seq<char>>, path: Seq<Seq<char>>) -> Option<Seq<Seq<char>>> {
    if root.len() <= path.len() && path.subrange(0, root.len() as int) == root {
        Some(path.subrange(root.len() as int, path.len() as int))
    } else {
        None
    }
}

/// The category a project gets when its position gives none.
pub open spec fn uncategorized() -> Seq<char> {
    seq!['u', 'n', 'c', 'a', 't', 'e', 'g', 'o', 'r', 'i', 'z', 'e', 'd']
}

/// The category of a path below the root: the first segment under the
/// root, when the path lies deeper than that segment.
pub open spec fn category_of(rel: Option<Seq<Seq<char>>>) -> Seq<char> {
    match rel {
        Some(r) => if r.len() >= 2 {
            r[0]
        } else {
            uncategorized()
        },
        None => uncategorized(),
    }
}

/// The name of the version-control metadata directory.
pub open spec fn git_dir_name() -> Seq<char> {
    seq!['.', 'g', 'i', 't']
}

/// Whether some directory above the last segment is `.git`.
pub open spec fn inside_git(segs: Seq<Seq<char>>) -> bool {
    exists|i: int| 0 <= i < segs.len() - 1 && segs[i] == git_dir_name()
}

/// Splits a path into its segments.
pub fn path_segments(path: &str) -> (r: Vec<String>)
    ensures
        texts(r@) == segments(path@),
{
    let n = path.unicode_len();
    let mut segs: Vec<String> = Vec::new();
    let mut start: usize = 0;
    let mut i: usize = 0;
    proof {
        assert(path@.subrange(0, 0) =~= Seq::<char>::empty());
        assert(texts(segs@) =~= Seq::<Seq<char>>::empty());
    }
    while i < n
        invariant
            n == path@.len(),
            start <= i <= n,
            slash_pieces(path@.subrange(0, i as int)).len() > 0,
            slash_pieces(path@.subrange(0, i as int)).last() == path@.subrange(start as int, i as int),
            texts(segs@) == non_empty(slash_pieces(path@.subrange(0, i as int)).drop_last()),
        decreases n - i,
    {
        let ghost before = slash_pieces(path@.subrange(0, i as int));
        let c = path.get_char(i);
        assert(path@.subrange(0, i + 1).drop_last() =~= path@.subrange(0, i as int));
        if c == '/' {
            assert(before.drop_last().push(before.last()) =~= before);
            if start < i {
                let ghost prev = segs@;
                let seg = String::from_str(path.substring_char(start, i));
                segs.push(seg);
                assert(texts(segs@) =~= texts(prev).push(seg@));
            }
            start = i + 1;
            proof {
                let after = slash_pieces(path@.subrange(0, i + 1));
                assert(after.drop_last() =~= before);
                assert(after.last() =~= path@.subrange(start as int, i + 1));
            }
        } else {
            proof {
                let after = slash_pieces(path@.subrange(0, i + 1));
                assert(after.drop_last() =~= before.drop_last());
                assert(after.last() =~= path@.subrange(start as int, i + 1));
            }
        }
        i = i + 1;
    }
    assert(path@.subrange(0, n as int) =~= path@);
    let ghost all = slash_pieces(path@);
    assert(all.drop_last().push(all.last()) =~= all);
    if start < n {
        let ghost prev = segs@;
        let seg = String::from_str(path.substring_char(start, n));
        segs.push(seg);
        assert(texts(segs@) =~= texts(prev).push(seg@));
    }
    segs
}

/// The segments of `path` below `root`, when `root` is a prefix of it.
pub fn relative_segments(root: &Vec<String>, path: &Vec<String>) -> (r: Option<Vec<String>>)
    ensures
        r matches Some(v) ==> relative(texts(root@), texts(path@)) == Some(texts(v@)),
        r is None ==> relative(texts(root@), texts(path@)) is None,
{
    let ghost rt = texts(root@);
    let ghost pt = texts(path@);
    if root.len() > path.len() {
        return None;
    }
    let mut i: usize = 0;
    while i < root.len()
        invariant
            root.len() <= path.len(),
            i <= root.len(),
            rt == texts(root@),
            pt == texts(path@),
            forall|k: int| 0 <= k < i ==> rt[k] == pt[k],
        decreases root.len() - i,
    {
        if root[i] != path[i] {
            assert(pt.subrange(0, root.len() as int)[i as int] != rt[i as int]);
            return None;
        }
        i = i + 1;
    }
    assert(pt.subrange(0, root.len() as int) =~= rt);
    let mut rest: Vec<String> = Vec::new();
    let mut j: usize = root.len();
    while j < path.len()
        invariant
            root.len() <= j <= path.len(),
            pt == texts(path@),
            texts(rest@) =~= pt.subrange(root.len() as int, j as int),
        decreases path.len() - j,
    {
        let ghost prev = rest@;
        rest.push(path[j].clone());
        assert(texts(rest@) =~= texts(prev).push(path@[j as int]@));
        j = j + 1;
    }
    Some(rest)
}

} // verus!
