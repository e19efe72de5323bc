//! Path arithmetic on byte strings: the relative form of a request target,
//! joining under the root, the containment check that keeps resolution
//! beneath the root, the up-link of a directory, and extension tests.

use vstd::prelude::*;

verus! {

/// `s` with every leading `/` removed: the root-relative form of a decoded
/// request path, so that it always joins beneath the root.
pub open spec fn spec_strip_slashes(s: Seq<u8>) -> Seq<u8>
    decreases s.len(),
{
    if s.len() > 0 && s[0] == 0x2f {
        spec_strip_slashes(s.skip(1))
    } else {
        s
    }
}

/// Removes every leading `/` from `s`.
pub fn strip_leading_slashes(s: &Vec<u8>) -> (r: Vec<u8>)
    ensures
        r@ == spec_strip_slashes(s@),
{
    let mut i: usize = 0;
    proof {
        assert(s@.skip(0) =~= s@);
    }
    while i < s.len() && s[i] == 0x2f
        invariant
            i <= s@.len(),
            spec_strip_slashes(s@.skip(i as int)) == spec_strip_slashes(s@),
        decreases s@.len() - i,
    {
        proof {
            assert(s@.skip(i as int)[0] == s@[i as int]);
            assert(s@.skip(i as int).skip(1) =~= s@.skip(i + 1));
        }
        i = i + 1;
    }
    let mut r: Vec<u8> = Vec::new();
    let mut j: usize = i;
    while j < s.len()
        invariant
            i <= j <= s@.len(),
            r@ == s@.subrange(i as int, j as int),
        decreases s@.len() - j,
    {
        r.push(s[j]);
        proof {
            assert(s@.subrange(i as int, j + 1) =~= s@.subrange(i as int, j as int).push(
                s@[j as int],
            ));
        }
        j = j + 1;
    }
    proof {
        assert(s@.subrange(i as int, s@.len() as int) =~= s@.skip(i as int));
    }
    r
}

/// The absolute candidate path: the root, a separator, and the relative
/// target; the root itself when the target is empty.
pub open spec fn spec_join(root: Seq<u8>, rel: Seq<u8>) -> Seq<u8> {
    if rel.len() == 0 {
        root
    } else {
        root + seq![0x2fu8] + rel
    }
}

/// Joins a relative target under the root.
pub fn join_path(root: &Vec<u8>, rel: &Vec<u8>) -> (r: Vec<u8>)
    ensures
        r@ == spec_join(root@, rel@),
{
    let mut r: Vec<u8> = Vec::new();
    crate::bytesutil::append_bytes(&mut r, root.as_slice());
    if rel.len() > 0 {
        r.push(0x2f);
        crate::bytesutil::append_bytes(&mut r, rel.as_slice());
        proof {
            assert(r@ =~= root@ + seq![0x2fu8] + rel@);
        }
    }
    r
}

/// `p` lies at or beneath `root`: it equals the root, or extends it at a
/// `/` boundary. Comparing canonical paths this way closes the escape that
/// a depth count alone would leave open for same-depth siblings.
pub open spec fn spec_is_descendant(p: Seq<u8>, root: Seq<u8>) -> bool {
    p == root || (p.len() > root.len() && p.take(root.len() as int) == root && p[root.len() as int]
        == 0x2f)
}

/// Tests whether canonical path `p` lies at or beneath canonical `root`.
pub fn is_descendant(p: &Vec<u8>, root: &Vec<u8>) -> (r: bool)
    ensures
        r == spec_is_descendant(p@, root@),
{
    if p.len() < root.len() {
        proof {
            assert(!spec_is_descendant(p@, root@));
        }
        return false;
    }
    let mut i: usize = 0;
    while i < root.len()
        invariant
            i <= root@.len() <= p@.len(),
            forall|k: int| 0 <= k < i ==> p@[k] == root@[k],
        decreases root@.len() - i,
    {
        if p[i] != root[i] {
            proof {
                assert(p@.take(root@.len() as int)[i as int] != root@[i as int]);
                assert(p@ != root@) by {
                    assert(p@.len() == root@.len() ==> p@[i as int] != root@[i as int]);
                }
            }
            return false;
        }
        i = i + 1;
    }
    if p.len() == root.len() {
        proof {
            assert(p@ =~= root@);
        }
        true
    } else {
        proof {
            assert(p@.take(root@.len() as int) =~= root@);
        }
        let sep = p[root.len()];
        if sep == 0x2f {
            true
        } else {
            proof {
                assert(p@ != root@);
            }
            false
        }
    }
}

/// The parent of a relative path: everything before its last `/`, the empty
/// path when it has a single component. A trailing `/` does not count as a
/// component boundary of its own.
pub open spec fn spec_rel_parent(rel: Seq<u8>) -> Seq<u8>
    decreases rel.len(),
{
    if rel.len() == 0 {
        Seq::empty()
    } else if rel.last() == 0x2f {
        rel.drop_last()
    } else {
        spec_rel_parent(rel.drop_last())
    }
}

/// The target of a listing's up-link: `/` followed by the parent of the
/// relative directory path, or `/` alone at the root, so that the link
/// never climbs above the root.
pub open spec fn spec_uplink(rel: Seq<u8>) -> Seq<u8> {
    if spec_rel_parent(spec_strip_trailing(rel)).len() == 0 {
        seq![0x2fu8]
    } else {
        seq![0x2fu8] + spec_rel_parent(spec_strip_trailing(rel))
    }
}

/// `s` with every trailing `/` removed.
pub open spec fn spec_strip_trailing(s: Seq<u8>) -> Seq<u8>
    decreases s.len(),
{
    if s.len() > 0 && s.last() == 0x2f {
        spec_strip_trailing(s.drop_last())
    } else {
        s
    }
}

/// Computes the up-link target for the directory at relative path `rel`.
pub fn uplink(rel: &Vec<u8>) -> (r: Vec<u8>)
    ensures
        r@ == spec_uplink(rel@),
{
    // Drop trailing separators, then everything from the last separator on.
    let mut end: usize = rel.len();
    proof {
        assert(rel@.take(rel@.len() as int) =~= rel@);
    }
    while end > 0 && rel[end - 1] == 0x2f
        invariant
            end <= rel@.len(),
            spec_strip_trailing(rel@.take(end as int)) == spec_strip_trailing(rel@),
        decreases end,
    {
        proof {
            assert(rel@.take(end as int).last() == rel@[end - 1]);
            assert(rel@.take(end as int).drop_last() =~= rel@.take(end - 1));
        }
        end = end - 1;
    }
    proof {
        assert(rel@.take(rel@.len() as int) =~= rel@);
        let t = rel@.take(end as int);
        assert(end > 0 ==> t.last() != 0x2f);
        assert(spec_strip_trailing(t) == t);
    }
    let ghost t = rel@.take(end as int);
    let mut j: usize = end;
    while j > 0 && rel[j - 1] != 0x2f
        invariant
            j <= end <= rel@.len(),
            t == rel@.take(end as int),
            spec_rel_parent(rel@.take(j as int)) == spec_rel_parent(t),
        decreases j,
    {
        proof {
            assert(rel@.take(j as int).last() == rel@[j - 1]);
            assert(rel@.take(j as int).drop_last() =~= rel@.take(j - 1));
        }
        j = j - 1;
    }
    let mut r: Vec<u8> = Vec::new();
    r.push(0x2f);
    if j > 0 {
        proof {
            assert(rel@.take(j as int).last() == rel@[j - 1]);
            assert(rel@.take(j as int).drop_last() =~= rel@.take(j - 1));
            assert(spec_rel_parent(t) == rel@.take(j - 1));
        }
        let mut k: usize = 0;
        while k < j - 1
            invariant
                k <= j - 1,
                1 <= j <= rel@.len(),
                r@ == seq![0x2fu8] + rel@.take(k as int),
            decreases j - k,
        {
            r.push(rel[k]);
            proof {
                assert(seq![0x2fu8] + rel@.take(k + 1) =~= (seq![0x2fu8] + rel@.take(
                    k as int,
                )).push(rel@[k as int]));
            }
            k = k + 1;
        }
        proof {
            if spec_rel_parent(t).len() == 0 {
                assert(r@ =~= seq![0x2fu8]);
            } else {
                assert(r@ =~= seq![0x2fu8] + spec_rel_parent(t));
            }
        }
    } else {
        proof {
            assert(rel@.take(0) =~= Seq::<u8>::empty());
            assert(spec_rel_parent(t) == Seq::<u8>::empty());
        }
    }
    r
}

/// The last path component of `p` has extension exactly `json`: `p` ends in
/// `.json`, and a non-separator byte stands before the dot, so a bare
/// `.json` name does not count.
pub open spec fn spec_has_json_ext(p: Seq<u8>) -> bool {
    p.len() >= 6 && p.skip(p.len() - 5) == seq![0x2eu8, 0x6au8, 0x73u8, 0x6fu8, 0x6eu8] && p[p.len()
        - 6] != 0x2f
}

/// Tests whether the path's last component carries the extension `json`.
pub fn has_json_ext(p: &Vec<u8>) -> (r: bool)
    ensures
        r == spec_has_json_ext(p@),
{
    if p.len() < 6 {
        return false;
    }
    let n = p.len();
    let r = p[n - 5] == 0x2e && p[n - 4] == 0x6a && p[n - 3] == 0x73 && p[n - 2] == 0x6f && p[n - 1]
        == 0x6e && p[n - 6] != 0x2f;
    proof {
        let tail = p@.skip(p@.len() - 5);
        assert(tail.len() == 5);
        assert(tail[0] == p@[p@.len() - 5]);
        assert(tail[1] == p@[p@.len() - 4]);
        assert(tail[2] == p@[p@.len() - 3]);
        assert(tail[3] == p@[p@.len() - 2]);
        assert(tail[4] == p@[p@.len() - 1]);
        if r {
            assert(tail =~= seq![0x2eu8, 0x6au8, 0x73u8, 0x6fu8, 0x6eu8]);
        } else {
            assert(tail == seq![0x2eu8, 0x6au8, 0x73u8, 0x6fu8, 0x6eu8] && p@[p@.len() - 6] != 0x2f
                ==> false);
        }
    }
    r
}

/// The root-relative path of a directory child, always beginning with `/`.
pub open spec fn spec_child_rel(rel: Seq<u8>, name: Seq<u8>) -> Seq<u8> {
    if rel.len() == 0 {
        seq![0x2fu8] + name
    } else {
        seq![0x2fu8] + rel + seq![0x2fu8] + name
    }
}

/// Builds the root-relative path of the child `name` of the directory at
/// relative path `rel`.
pub fn child_rel(rel: &Vec<u8>, name: &Vec<u8>) -> (r: Vec<u8>)
    ensures
        r@ == spec_child_rel(rel@, name@),
{
    let mut r: Vec<u8> = Vec::new();
    r.push(0x2f);
    if rel.len() > 0 {
        crate::bytesutil::append_bytes(&mut r, rel.as_slice());
        r.push(0x2f);
    }
    crate::bytesutil::append_bytes(&mut r, name.as_slice());
    proof {
        if rel@.len() == 0 {
            assert(r@ =~= seq![0x2fu8] + name@);
        } else {
            assert(r@ =~= seq![0x2fu8] + rel@ + seq![0x2fu8] + name@);
        }
    }
    r
}

} // verus!
