//! Directory listings: the order of entries (directories first, then
//! lexicographically by path) and a verified sort that establishes it.

use vstd::prelude::*;

verus! {

/// One immediate child of a listed directory, as the filesystem reports it.
#[derive(Debug)]
pub struct DirChild {
    /// The child's bare file name.
    pub name: Vec<u8>,
    /// Whether the child is itself a directory.
    pub is_dir: bool,
}

/// The mathematical image of a directory child.
pub ghost struct DirChildV {
    pub name: Seq<u8>,
    pub is_dir: bool,
}

impl View for DirChild {
    type V = DirChildV;

    open spec fn view(&self) -> DirChildV {
        DirChildV { name: self.name@, is_dir: self.is_dir }
    }
}

/// The views of a sequence of children.
pub open spec fn views_of(s: Seq<DirChild>) -> Seq<DirChildV> {
    s.map_values(|e: DirChild| e@)
}

/// Byte-wise lexicographic order.
pub open spec fn spec_lex_le(a: Seq<u8>, b: Seq<u8>) -> bool
    decreases a.len(),
{
    if a.len() == 0 {
        true
    } else if b.len() == 0 {
        false
    } else if a[0] < b[0] {
        true
    } else if a[0] > b[0] {
        false
    } else {
        spec_lex_le(a.skip(1), b.skip(1))
    }
}

/// Listing order: directories before files; within a group, lexicographic
/// by name, which under one parent is lexicographic by full path.
pub open spec fn spec_entry_le(a: DirChildV, b: DirChildV) -> bool {
    (a.is_dir && !b.is_dir) || (a.is_dir == b.is_dir && spec_lex_le(a.name, b.name))
}

/// The sequence is in listing order.
pub open spec fn spec_entries_sorted(s: Seq<DirChildV>) -> bool {
    forall|i: int, j: int|
        0 <= i < j < s.len() ==> spec_entry_le(#[trigger] s[i], #[trigger] s[j])
}

/// Lexicographic order is total.
pub proof fn lemma_lex_total(a: Seq<u8>, b: Seq<u8>)
    ensures
        spec_lex_le(a, b) || spec_lex_le(b, a),
    decreases a.len(),
{
    if a.len() > 0 && b.len() > 0 && a[0] == b[0] {
        lemma_lex_total(a.skip(1), b.skip(1));
    }
}

/// Lexicographic order is transitive.
pub proof fn lemma_lex_trans(a: Seq<u8>, b: Seq<u8>, c: Seq<u8>)
    requires
        spec_lex_le(a, b),
        spec_lex_le(b, c),
    ensures
        spec_lex_le(a, c),
    decreases a.len(),
{
    if a.len() > 0 && b.len() > 0 && c.len() > 0 && a[0] == b[0] && b[0] == c[0] {
        lemma_lex_trans(a.skip(1), b.skip(1), c.skip(1));
    }
}

/// Listing order is total.
pub proof fn lemma_entry_total(a: DirChildV, b: DirChildV)
    ensures
        spec_entry_le(a, b) || spec_entry_le(b, a),
{
    lemma_lex_total(a.name, b.name);
}

/// Listing order is transitive.
pub proof fn lemma_entry_trans(a: DirChildV, b: DirChildV, c: DirChildV)
    requires
        spec_entry_le(a, b),
        spec_entry_le(b, c),
    ensures
        spec_entry_le(a, c),
{
    if a.is_dir == b.is_dir && b.is_dir == c.is_dir {
        lemma_lex_trans(a.name, b.name, c.name);
    }
}

/// Compares two names lexicographically.
fn lex_le(a: &Vec<u8>, b: &Vec<u8>) -> (r: bool)
    ensures
        r == spec_lex_le(a@, b@),
{
    let mut i: usize = 0;
    proof {
        assert(a@.skip(0) =~= a@);
        assert(b@.skip(0) =~= b@);
    }
    while i < a.len() && i < b.len() && a[i] == b[i]
        invariant
            i <= a@.len(),
            i <= b@.len(),
            spec_lex_le(a@, b@) == spec_lex_le(a@.skip(i as int), b@.skip(i as int)),
        decreases a@.len() - i,
    {
        proof {
            assert(a@.skip(i as int)[0] == a@[i as int]);
            assert(b@.skip(i as int)[0] == b@[i as int]);
            assert(a@.skip(i as int).skip(1) =~= a@.skip(i + 1));
            assert(b@.skip(i as int).skip(1) =~= b@.skip(i + 1));
        }
        i = i + 1;
    }
    proof {
        if i < a@.len() {
            assert(a@.skip(i as int)[0] == a@[i as int]);
        }
        if i < b@.len() {
            assert(b@.skip(i as int)[0] == b@[i as int]);
        }
    }
    if i == a.len() {
        true
    } else if i == b.len() {
        false
    } else {
        a[i] < b[i]
    }
}

/// Compares two children in listing order.
pub fn entry_le(a: &DirChild, b: &DirChild) -> (r: bool)
    ensures
        r == spec_entry_le(a@, b@),
{
    if a.is_dir && !b.is_dir {
        true
    } else if a.is_dir == b.is_dir {
        lex_le(&a.name, &b.name)
    } else {
        false
    }
}

/// Mapping to views commutes with removing an element.
proof fn lemma_views_remove(s: Seq<DirChild>, i: int)
    requires
        0 <= i < s.len(),
    ensures
        views_of(s.remove(i)) =~= views_of(s).remove(i),
{
}

/// Mapping to views commutes with appending an element.
proof fn lemma_views_push(s: Seq<DirChild>, e: DirChild)
    ensures
        views_of(s.push(e)) =~= views_of(s).push(e@),
{
}

/// Sorts children into listing order. The result holds exactly the
/// children given, each exactly once, directories before files and ties
/// broken lexicographically.
pub fn sort_entries(input: Vec<DirChild>) -> (r: Vec<DirChild>)
    ensures
        spec_entries_sorted(views_of(r@)),
        views_of(r@).to_multiset() == views_of(input@).to_multiset(),
{
    broadcast use vstd::seq_lib::group_to_multiset_ensures;

    let mut v = input;
    let ghost orig = views_of(v@);
    let mut out: Vec<DirChild> = Vec::new();
    proof {
        assert(views_of(out@) =~= Seq::<DirChildV>::empty());
        assert(views_of(out@).to_multiset().add(views_of(v@).to_multiset()) =~= orig.to_multiset());
    }
    while v.len() > 0
        invariant
            spec_entries_sorted(views_of(out@)),
            views_of(out@).to_multiset().add(views_of(v@).to_multiset()) == orig.to_multiset(),
            forall|i: int, k: int|
                0 <= i < out@.len() && 0 <= k < v@.len() ==> spec_entry_le(
                    #[trigger] views_of(out@)[i],
                    #[trigger] views_of(v@)[k],
                ),
        decreases v@.len(),
    {
        let mut m: usize = 0;
        let mut k: usize = 1;
        proof {
            lemma_entry_total(v@[0]@, v@[0]@);
            assert(views_of(v@)[0] == v@[0]@);
        }
        while k < v.len()
            invariant
                m < k <= v@.len(),
                v@.len() > 0,
                forall|t: int|
                    0 <= t < k ==> spec_entry_le(views_of(v@)[m as int], #[trigger] views_of(
                        v@,
                    )[t]),
            decreases v@.len() - k,
        {
            let le = entry_le(&v[m], &v[k]);
            proof {
                lemma_entry_total(v@[m as int]@, v@[k as int]@);
                assert(views_of(v@)[m as int] == v@[m as int]@);
                assert(views_of(v@)[k as int] == v@[k as int]@);
            }
            if !le {
                proof {
                    lemma_entry_total(v@[k as int]@, v@[k as int]@);
                    assert forall|t: int| 0 <= t < k + 1 implies spec_entry_le(
                        views_of(v@)[k as int],
                        #[trigger] views_of(v@)[t],
                    ) by {
                        assert(views_of(v@)[t] == v@[t]@);
                        if t < k as int {
                            assert(spec_entry_le(v@[m as int]@, v@[t]@));
                            lemma_entry_trans(v@[k as int]@, v@[m as int]@, v@[t]@);
                        }
                    }
                }
                m = k;
            } else {
                proof {
                    assert forall|t: int| 0 <= t < k + 1 implies spec_entry_le(
                        views_of(v@)[m as int],
                        #[trigger] views_of(v@)[t],
                    ) by {
                        if t == k as int {
                            assert(spec_entry_le(v@[m as int]@, v@[k as int]@));
                        }
                    }
                }
            }
            k = k + 1;
        }
        let ghost vpre = v@;
        let ghost opre = out@;
        let x = v.remove(m);
        out.push(x);
        proof {
            lemma_views_remove(vpre, m as int);
            lemma_views_push(opre, x);
            let xv = x@;
            let ov = views_of(opre);
            let vv = views_of(vpre);
            assert(views_of(v@) == vv.remove(m as int));
            assert(views_of(out@) == ov.push(xv));
            assert(vv[m as int] == xv);
            // Sortedness of the extended prefix.
            assert forall|i: int, j: int|
                0 <= i < j < views_of(out@).len() implies spec_entry_le(
                #[trigger] views_of(out@)[i],
                #[trigger] views_of(out@)[j],
            ) by {
                if j < ov.len() {
                    assert(views_of(out@)[i] == ov[i] && views_of(out@)[j] == ov[j]);
                } else {
                    assert(views_of(out@)[j] == xv);
                    assert(views_of(out@)[i] == ov[i]);
                    assert(spec_entry_le(ov[i], vv[m as int]));
                }
            }
            // Everything kept in `out` still precedes everything left in `v`.
            assert forall|i: int, t: int|
                0 <= i < out@.len() && 0 <= t < v@.len() implies spec_entry_le(
                #[trigger] views_of(out@)[i],
                #[trigger] views_of(v@)[t],
            ) by {
                let w = if t < m as int {
                    t
                } else {
                    t + 1
                };
                assert(views_of(v@)[t] == vv[w]);
                if i < ov.len() {
                    assert(spec_entry_le(ov[i], vv[w]));
                } else {
                    assert(views_of(out@)[i] == xv);
                    assert(spec_entry_le(vv[m as int], vv[w]));
                }
            }
            // The multiset is conserved: one element moved across.
            vv.to_multiset_ensures();
            ov.to_multiset_ensures();
            assert(vv.remove(m as int).to_multiset() =~= vv.to_multiset().remove(xv));
            assert(ov.push(xv).to_multiset() =~= ov.to_multiset().insert(xv));
            assert(vv.to_multiset().count(xv) >= 1) by {
                assert(vv.contains(xv));
            }
            assert(views_of(out@).to_multiset().add(views_of(v@).to_multiset())
                =~= ov.to_multiset().add(vv.to_multiset())) by {
                let a = ov.to_multiset();
                let b = vv.to_multiset();
                assert forall|e: DirChildV|
                    a.insert(xv).add(b.remove(xv)).count(e) == a.add(b).count(e) by {
                    if e == xv {
                        assert(a.insert(xv).count(e) == a.count(e) + 1);
                        assert(b.remove(xv).count(e) == b.count(e) - 1);
                    }
                }
            }
        }
    }
    proof {
        assert(views_of(v@) =~= Seq::<DirChildV>::empty());
        assert(views_of(out@).to_multiset().add(Seq::<DirChildV>::empty().to_multiset())
            =~= views_of(out@).to_multiset());
        assert(views_of(out@).to_multiset() == orig.to_multiset());
    }
    out
}

} // verus!
