//! Absolute paths: their components, prefixes, and the split into parent and
//! final name.
use vstd::prelude::*;

verus! {

/// The components of `p[i..]`, given the partial component `cur` before `i`:
/// the runs of characters between slashes, empty runs dropped.
pub open spec fn comps_from(p: Seq<char>, i: int, cur: Seq<char>) -> Seq<Seq<char>>
    decreases p.len() - i,
{
    if i >= p.len() {
        if cur.len() > 0 {
            seq![cur]
        } else {
            Seq::empty()
        }
    } else if p[i] == '/' {
        (if cur.len() > 0 {
            seq![cur]
        } else {
            Seq::empty()
        }) + comps_from(p, i + 1, Seq::empty())
    } else {
        comps_from(p, i + 1, cur.push(p[i]))
    }
}

/// The components of `p` from position `start` on.
pub open spec fn components(p: Seq<char>, start: int) -> Seq<Seq<char>> {
    comps_from(p, start, Seq::empty())
}

/// Whether `m` is a prefix of `p`.
pub open spec fn is_prefix(m: Seq<char>, p: Seq<char>) -> bool {
    m.len() <= p.len() && p.subrange(0, m.len() as int) == m
}

/// The position of the last slash in `p`, if any.
pub open spec fn last_slash(p: Seq<char>) -> Option<int> {
    if exists|i: int| 0 <= i < p.len() && p[i] == '/' {
        Some(choose|i: int| 0 <= i < p.len() && p[i] == '/' && forall|j: int| i < j < p.len() ==> p[j] != '/')
    } else {
        None
    }
}

/// The parent path and the final name of `p`: split at the last slash, the
/// root standing for an empty parent; the whole of `p` is the name when it
/// has no slash.
pub open spec fn split_parent(p: Seq<char>) -> (Seq<char>, Seq<char>) {
    match last_slash(p) {
        Some(i) => (if i == 0 {
            seq!['/']
        } else {
            p.subrange(0, i)
        }, p.subrange(i + 1, p.len() as int)),
        None => (seq!['/'], p),
    }
}

/// The start and end of each component of `p[start..]`.
pub fn component_bounds(p: &Vec<char>, start: usize) -> (v: Vec<(usize, usize)>)
    requires
        start <= p@.len(),
    ensures
        v@.len() == components(p@, start as int).len(),
        bounds_view(p@, v@) == components(p@, start as int),
        forall|k: int|
            0 <= k < v@.len() ==> {
                &&& (#[trigger] v@[k]).0 <= v@[k].1 <= p@.len()
                &&& p@.subrange(v@[k].0 as int, v@[k].1 as int) == components(p@, start as int)[k]
            },
{
    let ghost target = components(p@, start as int);
    let mut v: Vec<(usize, usize)> = Vec::new();
    let mut cur_start: usize = start;
    let mut i: usize = start;
    proof {
        assert(p@.subrange(start as int, start as int) =~= Seq::<char>::empty());
        assert(bounds_view(p@, v@) =~= Seq::<Seq<char>>::empty());
        assert(bounds_view(p@, v@) + target =~= target);
    }
    while i < p.len()
        invariant
            start <= cur_start <= i <= p@.len(),
            target == components(p@, start as int),
            forall|k: int|
                0 <= k < v@.len() ==> (#[trigger] v@[k]).0 <= v@[k].1 <= p@.len(),
            bounds_view(p@, v@) + comps_from(p@, i as int, p@.subrange(cur_start as int, i as int)) == target,
        decreases p@.len() - i,
    {
        let ghost cur = p@.subrange(cur_start as int, i as int);
        if p[i] == '/' {
            if i > cur_start {
                v.push((cur_start, i));
                proof {
                    assert(bounds_view(p@, v@) =~= bounds_view(p@, v@.drop_last()).push(cur));
                }
            }
            proof {
                assert(p@.subrange(i + 1, i + 1) =~= Seq::<char>::empty());
                assert(comps_from(p@, i as int, cur) == (if cur.len() > 0 {
                    seq![cur]
                } else {
                    Seq::empty()
                }) + comps_from(p@, i + 1, Seq::empty()));
                if i > cur_start {
                    assert(bounds_view(p@, v@) + comps_from(p@, i + 1, Seq::empty()) =~= bounds_view(
                        p@,
                        v@.drop_last(),
                    ) + (seq![cur] + comps_from(p@, i + 1, Seq::empty())));
                } else {
                    assert(cur =~= Seq::<char>::empty());
                    assert(Seq::<Seq<char>>::empty() + comps_from(p@, i + 1, Seq::empty()) =~= comps_from(
                        p@,
                        i + 1,
                        Seq::empty(),
                    ));
                }
            }
            cur_start = i + 1;
        } else {
            proof {
                assert(p@.subrange(cur_start as int, i + 1) =~= cur.push(p@[i as int]));
            }
        }
        i = i + 1;
    }
    proof {
        let cur = p@.subrange(cur_start as int, i as int);
        if i > cur_start {
            assert(comps_from(p@, i as int, cur) == seq![cur]);
        } else {
            assert(comps_from(p@, i as int, cur) == Seq::<Seq<char>>::empty());
        }
    }
    if i > cur_start {
        let ghost before = v@;
        v.push((cur_start, i));
        proof {
            assert(bounds_view(p@, v@) =~= bounds_view(p@, before).push(p@.subrange(cur_start as int, i as int)));
            assert(bounds_view(p@, v@) =~= target);
        }
    } else {
        proof {
            assert(bounds_view(p@, v@) =~= target);
        }
    }
    proof {
        assert forall|k: int| 0 <= k < v@.len() implies p@.subrange(
            (#[trigger] v@[k]).0 as int,
            v@[k].1 as int,
        ) == components(p@, start as int)[k] by {
            assert(bounds_view(p@, v@)[k] == p@.subrange(v@[k].0 as int, v@[k].1 as int));
        }
    }
    v
}

/// Whether `m` is a prefix of `p`.
pub fn has_prefix(m: &Vec<char>, p: &Vec<char>) -> (b: bool)
    ensures
        b == is_prefix(m@, p@),
{
    if m.len() > p.len() {
        return false;
    }
    let mut i: usize = 0;
    while i < m.len()
        invariant
            m@.len() <= p@.len(),
            i <= m@.len(),
            forall|k: int| 0 <= k < i ==> m@[k] == p@[k],
        decreases m@.len() - i,
    {
        if m[i] != p[i] {
            assert(p@.subrange(0, m@.len() as int)[i as int] != m@[i as int]);
            return false;
        }
        i = i + 1;
    }
    assert(p@.subrange(0, m@.len() as int) =~= m@);
    true
}

/// The position of the last slash in `p`, if any.
pub fn find_last_slash(p: &Vec<char>) -> (r: Option<usize>)
    ensures
        r matches Some(i) ==> last_slash(p@) == Some(i as int) && i < p@.len(),
        r is None ==> last_slash(p@) is None,
{
    let mut i: usize = p.len();
    while i > 0
        invariant
            i <= p@.len(),
            forall|j: int| i <= j < p@.len() ==> p@[j] != '/',
        decreases i,
    {
        if p[i - 1] == '/' {
            proof {
                let k = (i - 1) as int;
                assert(0 <= k < p@.len() && p@[k] == '/' && forall|j: int| k < j < p@.len() ==> p@[j] != '/');
                let c = choose|c: int| 0 <= c < p@.len() && p@[c] == '/' && forall|j: int| c < j < p@.len() ==> p@[j] != '/';
                if c < k {
                    assert(p@[k] != '/');
                } else if c > k {
                    assert(p@[c] != '/');
                }
            }
            return Some(i - 1);
        }
        i = i - 1;
    }
    None
}

/// Whether `p` is exactly the root path "/".
pub open spec fn is_root_path(p: Seq<char>) -> bool {
    p == seq!['/']
}

/// Whether a path is the root path "/".
pub fn root_path(p: &Vec<char>) -> (b: bool)
    ensures
        b == is_root_path(p@),
{
    if p.len() == 1 && p[0] == '/' {
        assert(p@ =~= seq!['/']);
        true
    } else {
        false
    }
}

/// The text of each component bound.
pub open spec fn bounds_view(p: Seq<char>, v: Seq<(usize, usize)>) -> Seq<Seq<char>> {
    v.map_values(|b: (usize, usize)| p.subrange(b.0 as int, b.1 as int))
}

} // verus!
