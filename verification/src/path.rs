//! Where an entry may be written: its logical path resolved against the
//! destination root, by the text of the path alone.
//!
//! A logical path is split at its slashes. Empty segments and `.` are left
//! out, `..` takes back the segment before it. A path that begins with a
//! slash, or whose `..` would take back more than the path itself gave, has
//! no destination inside the root and is refused.

use vstd::prelude::*;
use vstd::string::*;
use crate::error::{outcome, Error, Failure};

verus! {

/// The segments of `path`: what stands between its slashes. There is always
/// at least one, and none holds a slash.
pub open spec fn split(path: Seq<char>) -> Seq<Seq<char>>
    decreases path.len(),
{
    if path.len() == 0 {
        seq![Seq::empty()]
    } else {
        let before = split(path.drop_last());
        if path.last() == '/' {
            before.push(Seq::empty())
        } else {
            before.drop_last().push(before.last().push(path.last()))
        }
    }
}

/// Whether `seg` names a file or directory: it is not empty, not `.` and
/// not `..`, and holds no slash.
pub open spec fn plain(seg: Seq<char>) -> bool {
    seg.len() > 0 && seg != seq!['.'] && seg != seq!['.', '.'] && !seg.contains('/')
}

/// The names that lead to the destination after one more segment; `None`
/// once the path has left the root.
pub open spec fn step(names: Option<Seq<Seq<char>>>, seg: Seq<char>) -> Option<Seq<Seq<char>>> {
    match names {
        None => None,
        Some(names) => if seg.len() == 0 || seg == seq!['.'] {
            Some(names)
        } else if seg == seq!['.', '.'] {
            if names.len() == 0 {
                None
            } else {
                Some(names.drop_last())
            }
        } else {
            Some(names.push(seg))
        },
    }
}

/// The names that lead from the root to the destination of a path with the
/// given segments; `None` where the path leaves the root.
pub open spec fn normalize(segs: Seq<Seq<char>>) -> Option<Seq<Seq<char>>>
    decreases segs.len(),
{
    if segs.len() == 0 {
        Some(Seq::empty())
    } else {
        step(normalize(segs.drop_last()), segs.last())
    }
}

/// The names one behind the other, a slash before each.
pub open spec fn join(names: Seq<Seq<char>>) -> Seq<char>
    decreases names.len(),
{
    if names.len() == 0 {
        Seq::empty()
    } else {
        join(names.drop_last()) + seq!['/'] + names.last()
    }
}

/// The destination of `path` under `root`, or the refusal that names the
/// path.
pub open spec fn resolve_spec(root: Seq<char>, path: Seq<char>) -> Result<Seq<char>, Failure> {
    if path.len() > 0 && path[0] == '/' {
        Err(Failure::WriteOutsideOutput(path))
    } else {
        match normalize(split(path)) {
            Some(names) => Ok(root + join(names)),
            None => Err(Failure::WriteOutsideOutput(path)),
        }
    }
}

/// Whether `dest` lies within `root`: it is the root followed by names of
/// files or directories, each behind a slash.
pub open spec fn contained(root: Seq<char>, dest: Seq<char>) -> bool {
    exists|names: Seq<Seq<char>>|
        (forall|k: int| 0 <= k < names.len() ==> plain(#[trigger] names[k])) && dest == root + join(
            names,
        )
}

/// A path has at least one segment, and no segment holds a slash.
pub proof fn lemma_split(path: Seq<char>)
    ensures
        split(path).len() >= 1,
        forall|k: int| 0 <= k < split(path).len() ==> !(#[trigger] split(path)[k]).contains('/'),
    decreases path.len(),
{
    if path.len() > 0 {
        lemma_split(path.drop_last());
        let before = split(path.drop_last());
        if path.last() != '/' {
            let grown = before.last().push(path.last());
            assert forall|j: int| 0 <= j < grown.len() implies grown[j] != '/' by {
                if j < before.last().len() {
                    assert(before.last().contains(before.last()[j]));
                }
            }
        }
    }
}

/// Normalizing segments without slashes leaves only names.
pub proof fn lemma_normalize_plain(segs: Seq<Seq<char>>)
    requires
        forall|k: int| 0 <= k < segs.len() ==> !(#[trigger] segs[k]).contains('/'),
    ensures
        match normalize(segs) {
            Some(names) => forall|k: int| 0 <= k < names.len() ==> plain(#[trigger] names[k]),
            None => true,
        },
    decreases segs.len(),
{
    if segs.len() > 0 {
        lemma_normalize_plain(segs.drop_last());
    }
}

/// Every destination that `resolve_spec` gives lies within the root: no
/// path, whatever it holds, resolves to a place outside.
pub proof fn lemma_resolved_is_contained(root: Seq<char>, path: Seq<char>)
    ensures
        match resolve_spec(root, path) {
            Ok(dest) => contained(root, dest),
            Err(f) => f == Failure::WriteOutsideOutput(path),
        },
{
    lemma_split(path);
    lemma_normalize_plain(split(path));
}

/// The segments that the ranges cut out of `path`.
pub open spec fn ranges_view(path: Seq<char>, ranges: Seq<(usize, usize)>) -> Seq<Seq<char>> {
    Seq::new(ranges.len(), |k: int| path.subrange(ranges[k].0 as int, ranges[k].1 as int))
}

/// The character at place `i` of `path`. Text that is known to be ASCII is
/// read by its bytes, which takes no search.
fn char_at(path: &str, ascii: bool, i: usize) -> (c: char)
    requires
        i < path@.len(),
        ascii ==> is_ascii(path),
    ensures
        c == path@[i as int],
{
    if ascii {
        let b: u8 = path.get_ascii(i);
        proof {
            assert(path@[i as int] as nat <= 127);
        }
        b as char
    } else {
        path.get_char(i)
    }
}

/// The characters of `path` from `from` up to `to`.
fn piece<'a>(path: &'a str, ascii: bool, from: usize, to: usize) -> (s: &'a str)
    requires
        from <= to <= path@.len(),
        ascii ==> is_ascii(path),
    ensures
        s@ == path@.subrange(from as int, to as int),
{
    if ascii {
        path.substring_ascii(from, to)
    } else {
        path.substring_char(from, to)
    }
}

/// The destination of `path` under `root`.
///
/// Fails with `WriteOutsideOutput`, naming the path, exactly where the path
/// begins with a slash or climbs above the root.
pub fn resolve(root: &str, path: &str) -> (r: Result<String, Error>)
    ensures
        outcome(r) == resolve_spec(root@, path@),
        r is Ok ==> contained(root@, r->Ok_0@),
{
    proof {
        lemma_resolved_is_contained(root@, path@);
    }
    let ascii: bool = path.is_ascii();
    let n: usize = path.unicode_len();
    if n > 0 && char_at(path, ascii, 0) == '/' {
        return Err(Error::WriteOutsideOutput(String::from_str(path)));
    }
    let mut names: Vec<(usize, usize)> = Vec::new();
    let mut escaped: bool = false;
    let mut start: usize = 0;
    let mut only_dots: bool = true;
    let mut i: usize = 0;
    proof {
        assert(path@.take(0) =~= Seq::<char>::empty());
        assert(split(path@.take(0)).drop_last() =~= Seq::<Seq<char>>::empty());
        assert(path@.subrange(0, 0) =~= Seq::<char>::empty());
        assert(ranges_view(path@, names@) =~= Seq::<Seq<char>>::empty());
    }
    while i < n
        invariant
            n == path@.len(),
            ascii ==> is_ascii(path),
            start <= i <= n,
            split(path@.take(i as int)).len() >= 1,
            split(path@.take(i as int)).last() == path@.subrange(start as int, i as int),
            normalize(split(path@.take(i as int)).drop_last()) == (if escaped {
                None::<Seq<Seq<char>>>
            } else {
                Some(ranges_view(path@, names@))
            }),
            forall|k: int| 0 <= k < names@.len() ==> (#[trigger] names@[k]).0 <= names@[k].1 <= n,
            only_dots == (forall|k: int| start <= k < i ==> path@[k] == '.'),
        decreases n - i,
    {
        let c: char = char_at(path, ascii, i);
        let ghost before = split(path@.take(i as int));
        let ghost cur = path@.subrange(start as int, i as int);
        proof {
            assert(path@.take(i + 1).drop_last() =~= path@.take(i as int));
            assert(path@.take(i + 1).last() == c);
        }
        if c == '/' {
            proof {
                assert(split(path@.take(i + 1)) == before.push(Seq::<char>::empty()));
                assert(before.push(Seq::<char>::empty()).drop_last() =~= before);
                assert(before =~= before.drop_last().push(cur));
                assert(before.drop_last().push(cur).drop_last() =~= before.drop_last());
                assert(normalize(before) == step(normalize(before.drop_last()), cur));
                assert(path@.subrange(i + 1, i + 1) =~= Seq::<char>::empty());
            }
            close(&mut names, &mut escaped, start, i, only_dots, Ghost(path@));
            start = i + 1;
            only_dots = true;
        } else {
            proof {
                let grown = before.drop_last().push(before.last().push(c));
                assert(split(path@.take(i + 1)) == grown);
                assert(grown.drop_last() =~= before.drop_last());
                assert(cur.push(c) =~= path@.subrange(start as int, i + 1));
            }
            if c != '.' {
                only_dots = false;
            }
        }
        i += 1;
    }
    proof {
        let all = split(path@.take(n as int));
        assert(path@.take(n as int) =~= path@);
        assert(all =~= all.drop_last().push(all.last()));
        assert(all.drop_last().push(all.last()).drop_last() =~= all.drop_last());
        assert(normalize(all) == step(normalize(all.drop_last()), all.last()));
    }
    close(&mut names, &mut escaped, start, n, only_dots, Ghost(path@));
    if escaped {
        return Err(Error::WriteOutsideOutput(String::from_str(path)));
    }
    let ghost segs = ranges_view(path@, names@);
    let mut out = String::from_str(root);
    let mut k: usize = 0;
    proof {
        reveal_strlit("/");
        assert("/"@ =~= seq!['/']);
        assert(segs.take(0) =~= Seq::<Seq<char>>::empty());
        assert(out@ =~= root@ + join(segs.take(0)));
    }
    while k < names.len()
        invariant
            k <= names@.len(),
            n == path@.len(),
            ascii ==> is_ascii(path),
            segs == ranges_view(path@, names@),
            "/"@ == seq!['/'],
            forall|j: int| 0 <= j < names@.len() ==> (#[trigger] names@[j]).0 <= names@[j].1 <= n,
            out@ == root@ + join(segs.take(k as int)),
        decreases names@.len() - k,
    {
        let (from, to) = names[k];
        proof {
            assert(segs.take(k + 1).drop_last() =~= segs.take(k as int));
            assert(segs.take(k + 1).last() == path@.subrange(from as int, to as int));
            assert(root@ + join(segs.take(k + 1)) =~= root@ + join(segs.take(k as int)) + seq!['/']
                + path@.subrange(from as int, to as int));
        }
        out.append("/");
        out.append(piece(path, ascii, from, to));
        k += 1;
    }
    proof {
        assert(segs.take(k as int) =~= segs);
    }
    Ok(out)
}

/// Takes one finished segment into the names that lead to the destination.
fn close(
    names: &mut Vec<(usize, usize)>,
    escaped: &mut bool,
    start: usize,
    end: usize,
    only_dots: bool,
    Ghost(path): Ghost<Seq<char>>,
)
    requires
        start <= end <= path.len(),
        only_dots == (forall|k: int| start <= k < end ==> path[k] == '.'),
        forall|k: int|
            0 <= k < old(names)@.len() ==> (#[trigger] old(names)@[k]).0 <= old(names)@[k].1
                <= path.len(),
    ensures
        (if *final(escaped) {
            None::<Seq<Seq<char>>>
        } else {
            Some(ranges_view(path, final(names)@))
        }) == step(
            if *old(escaped) {
                None::<Seq<Seq<char>>>
            } else {
                Some(ranges_view(path, old(names)@))
            },
            path.subrange(start as int, end as int),
        ),
        forall|k: int|
            0 <= k < final(names)@.len() ==> (#[trigger] final(names)@[k]).0 <= final(names)@[k].1
                <= path.len(),
{
    let ghost seg = path.subrange(start as int, end as int);
    let ghost held = ranges_view(path, names@);
    let len: usize = end - start;
    proof {
        if only_dots && len == 1 {
            assert(seg =~= seq!['.']);
        }
        if only_dots && len == 2 {
            assert(seg =~= seq!['.', '.']);
        }
        let dot = seq!['.'];
        let dots = seq!['.', '.'];
        assert(seg.len() == len && dot.len() == 1 && dots.len() == 2);
        assert(dot[0] == '.' && dots[0] == '.' && dots[1] == '.');
        if !only_dots {
            let k = choose|k: int| start <= k < end && path[k] != '.';
            assert(seg[k - start] != '.');
            assert(seg != dot && seg != dots);
        }
    }
    if *escaped || len == 0 || (only_dots && len == 1) {
        return ;
    }
    if only_dots && len == 2 {
        if names.len() == 0 {
            *escaped = true;
        } else {
            names.pop();
            proof {
                assert(ranges_view(path, names@) =~= held.drop_last());
            }
        }
        return ;
    }
    names.push((start, end));
    proof {
        assert(ranges_view(path, names@) =~= held.push(seg));
    }
}

} // verus!
