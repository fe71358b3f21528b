//! Path arithmetic for dependency classification.
//!
//! Paths are sequences of components (byte strings). An absolute path is the
//! component list below the filesystem root; the repository root and every
//! workspace directory are such lists. A `file:` / `link:` specifier carries
//! a unix-style relative path, resolved against the declaring workspace's
//! directory with `.` and empty components skipped and `..` stepping up one
//! component (stopping at the filesystem root). A dependency is inside the
//! repository exactly when the repository root's components are a prefix of
//! the resolved path.

use vstd::prelude::*;

use crate::bytes::{bytes_eq, find_byte, spec_find, sub_bytes, DOT, SLASH};
use vstd::slice::{slice_subrange, slice_to_vec};

verus! {

/// The views of a list of byte-string components.
pub open spec fn view_comps(v: Seq<Vec<u8>>) -> Seq<Seq<u8>> {
    v.map_values(|c: Vec<u8>| c@)
}

/// Components of `s` split on `/`. A trailing or doubled slash yields empty
/// components, which path resolution skips.
pub open spec fn split_slash(s: Seq<u8>) -> Seq<Seq<u8>>
    decreases s.len(),
{
    match spec_find(s, SLASH) {
        Some(i) => if 0 <= i < s.len() {
            seq![s.subrange(0, i)] + split_slash(s.subrange(i + 1, s.len() as int))
        } else {
            seq![s]
        },
        None => seq![s],
    }
}

/// Splits a byte string on `/`, as executable code.
pub fn split_components(s: &[u8]) -> (r: Vec<Vec<u8>>)
    ensures
        view_comps(r@) == split_slash(s@),
{
    let ghost orig = s@;
    let mut out: Vec<Vec<u8>> = Vec::new();
    let mut rest: &[u8] = s;
    loop
        invariant
            orig == s@,
            split_slash(orig) =~= view_comps(out@) + split_slash(rest@),
        decreases rest@.len(),
    {
        let ghost pre = view_comps(out@);
        match find_byte(rest, SLASH) {
            Some(i) => {
                proof {
                    assert(split_slash(rest@) == seq![rest@.subrange(0, i as int)] + split_slash(
                        rest@.subrange(i + 1, rest@.len() as int),
                    ));
                }
                let ghost old_rest = rest@;
                let n = rest.len();
                out.push(sub_bytes(rest, 0, i));
                proof {
                    assert(view_comps(out@) =~= pre.push(
                        old_rest.subrange(0, i as int),
                    ));
                }
                rest = slice_subrange(rest, i + 1, n);
                proof {
                    assert(split_slash(orig) =~= view_comps(out@) + split_slash(
                        rest@,
                    ));
                }
            },
            None => {
                out.push(slice_to_vec(rest));
                proof {
                    assert(split_slash(rest@) == seq![rest@]);
                    assert(view_comps(out@) =~= pre.push(rest@));
                    assert(view_comps(out@) =~= split_slash(orig));
                }
                return out;
            },
        }
    }
}

/// One resolution step: skip empty and `.` components, step up on `..`
/// (staying put at the filesystem root), descend otherwise.
pub open spec fn path_step(base: Seq<Seq<u8>>, c: Seq<u8>) -> Seq<Seq<u8>> {
    if c.len() == 0 || c == seq![DOT] {
        base
    } else if c == seq![DOT, DOT] {
        if base.len() == 0 {
            base
        } else {
            base.drop_last()
        }
    } else {
        base.push(c)
    }
}

/// Resolution of a component list against a base path, step by step.
pub open spec fn apply_steps(base: Seq<Seq<u8>>, comps: Seq<Seq<u8>>) -> Seq<Seq<u8>>
    decreases comps.len(),
{
    if comps.len() == 0 {
        base
    } else {
        apply_steps(path_step(base, comps[0]), comps.drop_first())
    }
}

/// Resolution of the unix-style relative path `rel` against the absolute
/// path `base`. Fails (`None`) exactly when `rel` is not relative, that is
/// when it begins with `/`.
pub open spec fn spec_resolve(base: Seq<Seq<u8>>, rel: Seq<u8>) -> Option<Seq<Seq<u8>>> {
    if rel.len() > 0 && rel[0] == SLASH {
        None
    } else {
        Some(apply_steps(base, split_slash(rel)))
    }
}

/// Resolves `rel` against `base`, as executable code.
pub fn resolve_rel(base: &Vec<Vec<u8>>, rel: &[u8]) -> (r: Option<Vec<Vec<u8>>>)
    ensures
        match r {
            None => spec_resolve(view_comps(base@), rel@) is None,
            Some(p) => spec_resolve(view_comps(base@), rel@) == Some(
                view_comps(p@),
            ),
        },
{
    if rel.len() > 0 && rel[0] == SLASH {
        return None;
    }
    let comps = split_components(rel);
    let mut cur: Vec<Vec<u8>> = base.clone();
    proof {
        assert(view_comps(cur@) =~= view_comps(base@));
    }
    let ghost all = view_comps(comps@);
    proof {
        assert(all.skip(0) =~= all);
    }
    let mut i: usize = 0;
    while i < comps.len()
        invariant
            0 <= i <= comps@.len(),
            all == view_comps(comps@),
            apply_steps(view_comps(base@), all) == apply_steps(
                view_comps(cur@),
                all.skip(i as int),
            ),
        decreases comps@.len() - i,
    {
        let c: &Vec<u8> = &comps[i];
        let ghost before = view_comps(cur@);
        proof {
            assert(all.skip(i as int).len() > 0);
            assert(all.skip(i as int)[0] == c@);
            assert(all.skip(i as int).drop_first() =~= all.skip(i + 1));
        }
        if c.len() == 0 || (c.len() == 1 && c[0] == DOT) {
            proof {
                assert(c@ =~= seq![DOT] ==> c@.len() == 1);
                if c@.len() == 1 && c@[0] == DOT {
                    assert(c@ =~= seq![DOT]);
                }
                assert(path_step(before, c@) == before);
            }
        } else if c.len() == 2 && c[0] == DOT && c[1] == DOT {
            proof {
                assert(c@ =~= seq![DOT, DOT]);
            }
            if cur.len() > 0 {
                cur.pop();
                proof {
                    assert(view_comps(cur@) =~= before.drop_last());
                }
            }
        } else {
            proof {
                assert(c@ != seq![DOT]);
                assert(c@ != seq![DOT, DOT]);
            }
            cur.push(c.clone());
            proof {
                assert(view_comps(cur@) =~= before.push(c@));
            }
        }
        i += 1;
    }
    proof {
        assert(all.skip(i as int) =~= Seq::<Seq<u8>>::empty());
    }
    Some(cur)
}

/// True when `root` is a component-wise prefix of `p`: the path `p` lies at
/// or below `root`.
pub open spec fn spec_within(root: Seq<Seq<u8>>, p: Seq<Seq<u8>>) -> bool {
    root.len() <= p.len() && p.subrange(0, root.len() as int) == root
}

/// Prefix test, as executable code.
pub fn path_within(root: &Vec<Vec<u8>>, p: &Vec<Vec<u8>>) -> (r: bool)
    ensures
        r == spec_within(view_comps(root@), view_comps(p@)),
{
    let ghost rv = view_comps(root@);
    let ghost pv = view_comps(p@);
    if p.len() < root.len() {
        return false;
    }
    let mut i: usize = 0;
    while i < root.len()
        invariant
            0 <= i <= rv.len() <= pv.len(),
            rv == view_comps(root@),
            pv == view_comps(p@),
            forall|k: int| 0 <= k < i ==> pv[k] == rv[k],
        decreases root@.len() - i,
    {
        if !bytes_eq(root[i].as_slice(), p[i].as_slice()) {
            proof {
                assert(pv.subrange(0, rv.len() as int)[i as int] != rv[i as int]);
            }
            return false;
        }
        i += 1;
    }
    proof {
        assert(pv.subrange(0, rv.len() as int) =~= rv);
    }
    true
}

/// The components joined with `/`, the unix rendering of a relative path.
pub open spec fn join_from(comps: Seq<Seq<u8>>, i: int) -> Seq<u8>
    decreases comps.len() - i,
{
    if i < 0 || i >= comps.len() {
        Seq::empty()
    } else if i == 0 {
        comps[0] + join_from(comps, 1)
    } else {
        seq![SLASH] + comps[i] + join_from(comps, i + 1)
    }
}

/// The components joined with `/`.
pub open spec fn join_slash(comps: Seq<Seq<u8>>) -> Seq<u8> {
    join_from(comps, 0)
}

/// Joins components with `/`, as executable code.
pub fn join_components(comps: &Vec<Vec<u8>>) -> (r: Vec<u8>)
    ensures
        r@ == join_slash(view_comps(comps@)),
{
    let ghost all = view_comps(comps@);
    let mut out: Vec<u8> = Vec::new();
    let mut i: usize = 0;
    while i < comps.len()
        invariant
            0 <= i <= comps@.len(),
            all == view_comps(comps@),
            join_slash(all) =~= out@ + join_from(all, i as int),
        decreases comps@.len() - i,
    {
        let ghost before = out@;
        if i > 0 {
            out.push(SLASH);
        }
        let mut j: usize = 0;
        let c: &Vec<u8> = &comps[i];
        while j < c.len()
            invariant
                0 <= j <= c@.len(),
                c@ == view_comps(comps@)[i as int],
                i < comps@.len(),
                out@ == if i > 0 {
                    before + seq![SLASH] + c@.subrange(0, j as int)
                } else {
                    before + c@.subrange(0, j as int)
                },
            decreases c@.len() - j,
        {
            out.push(c[j]);
            proof {
                assert(c@.subrange(0, j + 1 as int) =~= c@.subrange(0, j as int).push(c@[j as int]));
                if i > 0 {
                    assert(out@ =~= before + seq![SLASH] + c@.subrange(0, j + 1 as int));
                } else {
                    assert(out@ =~= before + c@.subrange(0, j + 1 as int));
                }
            }
            j += 1;
        }
        proof {
            assert(c@.subrange(0, c@.len() as int) =~= c@);
            if i > 0 {
                assert(out@ =~= before + (seq![SLASH] + all[i as int] + join_from(all, i + 1)).subrange(
                    0,
                    1 + all[i as int].len() as int,
                ));
                assert((seq![SLASH] + all[i as int] + join_from(all, i + 1)).subrange(
                    0,
                    1 + all[i as int].len() as int,
                ) =~= seq![SLASH] + all[i as int]);
                assert(join_slash(all) =~= out@ + join_from(all, i + 1));
            } else {
                assert(out@ =~= before + all[0]);
                assert(join_slash(all) =~= out@ + join_from(all, 1));
            }
        }
        i += 1;
    }
    proof {
        assert(join_from(all, i as int) =~= Seq::<u8>::empty());
        assert(join_slash(all) =~= out@);
    }
    out
}

} // verus!
