//! The variants of an enum, keyed by their index, listed in increasing
//! order of index.
use vstd::prelude::*;
use std::collections::BTreeMap;

use crate::model::{Named, VariantFormat};
use vstd::std_specs::btree::{axiom_increasing_seq_meaning, increasing_seq, spec_btree_map_iter};
use vstd::std_specs::cmp::OrdSpec;
use vstd::std_specs::iter::IteratorSpec;

verus! {

/// `s` lists the variants of `m`: every index once, in increasing order,
/// each with its variant.
pub open spec fn lists_variants(
    s: Seq<(u32, Named<VariantFormat>)>,
    m: Map<u32, Named<VariantFormat>>,
) -> bool {
    &&& forall|i: int, j: int| 0 <= i < j < s.len() ==> s[i].0 < s[j].0
    &&& forall|i: int| 0 <= i < s.len() ==> #[trigger] m.contains_key(s[i].0) && m[s[i].0] == s[i].1
    &&& forall|k: u32| #[trigger] m.contains_key(k) ==> exists|i: int| 0 <= i < s.len() && s[i].0 == k
}

/// The variants of `m` in increasing order of index.
pub open spec fn variant_list(m: Map<u32, Named<VariantFormat>>) -> Seq<(u32, Named<VariantFormat>)> {
    choose|s: Seq<(u32, Named<VariantFormat>)>| lists_variants(s, m)
}

/// The variants, without their indexes.
pub open spec fn variant_values(vs: Seq<(u32, Named<VariantFormat>)>) -> Seq<Named<VariantFormat>> {
    vs.map_values(|p: (u32, Named<VariantFormat>)| p.1)
}

/// The indexed variants that a list of borrowed variants stands for.
pub open spec fn entries_view(v: Seq<(u32, &Named<VariantFormat>)>) -> Seq<(u32, Named<VariantFormat>)> {
    v.map_values(|p: (u32, &Named<VariantFormat>)| (p.0, *p.1))
}

/// The variants that a list of borrowed variants stands for.
pub open spec fn refs_view(v: Seq<&Named<VariantFormat>>) -> Seq<Named<VariantFormat>> {
    v.map_values(|r: &Named<VariantFormat>| *r)
}

/// Keys that a map walks in increasing order increase.
proof fn lemma_keys_increasing(ks: Seq<u32>)
    requires
        increasing_seq(ks),
    ensures
        forall|i: int, j: int| 0 <= i < j < ks.len() ==> ks[i] < ks[j],
{
    assert(vstd::laws_cmp::obeys_cmp::<u32>());
    axiom_increasing_seq_meaning(ks);
    assert forall|i: int, j: int| 0 <= i < j < ks.len() implies ks[i] < ks[j] by {
        assert(ks[i].cmp_spec(&ks[j]) is Less);
    }
}

/// Only one list lists the variants of a map.
pub proof fn lemma_variant_list_unique(
    s: Seq<(u32, Named<VariantFormat>)>,
    t: Seq<(u32, Named<VariantFormat>)>,
    m: Map<u32, Named<VariantFormat>>,
)
    requires
        lists_variants(s, m),
        lists_variants(t, m),
    ensures
        s == t,
    decreases s.len(),
{
    if s.len() == 0 {
        if t.len() > 0 {
            assert(m.contains_key(t[0].0));
        }
        assert(s =~= t);
    } else {
        assert(m.contains_key(s[0].0));
        let j = choose|j: int| 0 <= j < t.len() && t[j].0 == s[0].0;
        assert(m.contains_key(t[0].0));
        let l = choose|l: int| 0 <= l < s.len() && s[l].0 == t[0].0;
        if j > 0 {
            assert(t[0].0 < t[j].0);
            assert(l > 0 ==> s[0].0 < s[l].0);
        }
        assert(s[0] == t[0]);
        let k = s[0].0;
        let m1 = m.remove(k);
        let s1 = s.drop_first();
        let t1 = t.drop_first();
        assert(lists_variants(s1, m1)) by {
            assert forall|i: int| 0 <= i < s1.len() implies #[trigger] m1.contains_key(s1[i].0)
                && m1[s1[i].0] == s1[i].1 by {
                assert(s1[i] == s[i + 1]);
                assert(s[0].0 < s[i + 1].0);
            }
            assert forall|k2: u32| #[trigger] m1.contains_key(k2) implies exists|i: int|
                0 <= i < s1.len() && s1[i].0 == k2 by {
                assert(m.contains_key(k2));
                let i = choose|i: int| 0 <= i < s.len() && s[i].0 == k2;
                assert(i > 0);
                assert(s1[i - 1].0 == k2);
            }
        }
        assert(lists_variants(t1, m1)) by {
            assert forall|i: int| 0 <= i < t1.len() implies #[trigger] m1.contains_key(t1[i].0)
                && m1[t1[i].0] == t1[i].1 by {
                assert(t1[i] == t[i + 1]);
                assert(t[0].0 < t[i + 1].0);
            }
            assert forall|k2: u32| #[trigger] m1.contains_key(k2) implies exists|i: int|
                0 <= i < t1.len() && t1[i].0 == k2 by {
                assert(m.contains_key(k2));
                let i = choose|i: int| 0 <= i < t.len() && t[i].0 == k2;
                assert(i > 0);
                assert(t1[i - 1].0 == k2);
            }
        }
        lemma_variant_list_unique(s1, t1, m1);
        assert(s =~= seq![s[0]] + s1);
        assert(t =~= seq![t[0]] + t1);
    }
}

/// `s` with the variant `v` at index `k` put in its place by index.
pub open spec fn insert_entry(
    s: Seq<(u32, Named<VariantFormat>)>,
    k: u32,
    v: Named<VariantFormat>,
) -> Seq<(u32, Named<VariantFormat>)>
    decreases s.len(),
{
    if s.len() == 0 {
        seq![(k, v)]
    } else if k < s[0].0 {
        seq![(k, v)] + s
    } else {
        seq![s[0]] + insert_entry(s.drop_first(), k, v)
    }
}

/// Without its first entry, a listing lists the rest of the map.
proof fn lemma_lists_rest(s: Seq<(u32, Named<VariantFormat>)>, m: Map<u32, Named<VariantFormat>>)
    requires
        lists_variants(s, m),
        s.len() > 0,
    ensures
        lists_variants(s.drop_first(), m.remove(s[0].0)),
{
    let m1 = m.remove(s[0].0);
    let s1 = s.drop_first();
    assert forall|i: int| 0 <= i < s1.len() implies #[trigger] m1.contains_key(s1[i].0)
        && m1[s1[i].0] == s1[i].1 by {
        assert(s1[i] == s[i + 1]);
        assert(s[0].0 < s[i + 1].0);
        assert(m.contains_key(s[i + 1].0));
    }
    assert forall|k2: u32| #[trigger] m1.contains_key(k2) implies exists|i: int|
        0 <= i < s1.len() && s1[i].0 == k2 by {
        assert(m.contains_key(k2));
        let i = choose|i: int| 0 <= i < s.len() && s[i].0 == k2;
        assert(i > 0);
        assert(s1[i - 1].0 == k2);
    }
}

/// Putting a new index in its place gives a listing of the larger map.
proof fn lemma_insert_entry(
    s: Seq<(u32, Named<VariantFormat>)>,
    m: Map<u32, Named<VariantFormat>>,
    k: u32,
    v: Named<VariantFormat>,
)
    requires
        lists_variants(s, m),
        !m.contains_key(k),
    ensures
        lists_variants(insert_entry(s, k, v), m.insert(k, v)),
    decreases s.len(),
{
    let r = insert_entry(s, k, v);
    let m2 = m.insert(k, v);
    if s.len() == 0 {
        assert forall|k2: u32| #[trigger] m2.contains_key(k2) implies exists|i: int|
            0 <= i < r.len() && r[i].0 == k2 by {
            if k2 != k {
                assert(m.contains_key(k2));
                let i = choose|i: int| 0 <= i < s.len() && s[i].0 == k2;
            }
            assert(r[0].0 == k);
        }
    } else if k < s[0].0 {
        assert forall|i: int, j: int| 0 <= i < j < r.len() implies r[i].0 < r[j].0 by {
            if i > 0 {
                assert(r[i] == s[i - 1] && r[j] == s[j - 1]);
            } else {
                assert(r[j] == s[j - 1]);
                if j - 1 > 0 {
                    assert(s[0].0 < s[j - 1].0);
                }
            }
        }
        assert forall|i: int| 0 <= i < r.len() implies #[trigger] m2.contains_key(r[i].0)
            && m2[r[i].0] == r[i].1 by {
            if i > 0 {
                assert(r[i] == s[i - 1]);
                assert(m.contains_key(s[i - 1].0));
            }
        }
        assert forall|k2: u32| #[trigger] m2.contains_key(k2) implies exists|i: int|
            0 <= i < r.len() && r[i].0 == k2 by {
            if k2 != k {
                assert(m.contains_key(k2));
                let i = choose|i: int| 0 <= i < s.len() && s[i].0 == k2;
                assert(r[i + 1].0 == k2);
            } else {
                assert(r[0].0 == k);
            }
        }
    } else {
        let k0 = s[0].0;
        assert(m.contains_key(k0));
        assert(k0 < k);
        let m1 = m.remove(k0);
        lemma_lists_rest(s, m);
        lemma_insert_entry(s.drop_first(), m1, k, v);
        let t = insert_entry(s.drop_first(), k, v);
        let m3 = m1.insert(k, v);
        assert(r == seq![s[0]] + t);
        assert(m3 =~= m2.remove(k0));
        assert forall|i: int, j: int| 0 <= i < j < r.len() implies r[i].0 < r[j].0 by {
            if i > 0 {
                assert(r[i] == t[i - 1] && r[j] == t[j - 1]);
            } else {
                assert(r[j] == t[j - 1]);
                assert(m3.contains_key(t[j - 1].0));
                if t[j - 1].0 != k {
                    assert(m1.contains_key(t[j - 1].0));
                    let l = choose|l: int| 0 <= l < s.len() && s[l].0 == t[j - 1].0;
                    assert(l != 0);
                    assert(s[0].0 < s[l].0);
                }
            }
        }
        assert forall|i: int| 0 <= i < r.len() implies #[trigger] m2.contains_key(r[i].0)
            && m2[r[i].0] == r[i].1 by {
            if i > 0 {
                assert(r[i] == t[i - 1]);
                assert(m3.contains_key(t[i - 1].0));
            }
        }
        assert forall|k2: u32| #[trigger] m2.contains_key(k2) implies exists|i: int|
            0 <= i < r.len() && r[i].0 == k2 by {
            if k2 == k0 {
                assert(r[0].0 == k0);
            } else {
                assert(m3.contains_key(k2));
                let i = choose|i: int| 0 <= i < t.len() && t[i].0 == k2;
                assert(r[i + 1].0 == k2);
            }
        }
    }
}

/// Every map with finitely many indexes has its variants listed.
pub proof fn lemma_variant_list_exists(m: Map<u32, Named<VariantFormat>>)
    requires
        m.dom().finite(),
    ensures
        lists_variants(variant_list(m), m),
    decreases m.dom().len(),
{
    if exists|k: u32| m.contains_key(k) {
        let k = choose|k: u32| m.contains_key(k);
        let m1 = m.remove(k);
        assert(m1.dom() =~= m.dom().remove(k));
        lemma_variant_list_exists(m1);
        lemma_insert_entry(variant_list(m1), m1, k, m[k]);
        assert(m1.insert(k, m[k]) =~= m);
    } else {
        let e = Seq::<(u32, Named<VariantFormat>)>::empty();
        assert(lists_variants(e, m));
    }
}

/// The variants of the map, borrowed, in increasing order of index.
pub fn variant_entries(m: &BTreeMap<u32, Named<VariantFormat>>) -> (v: Vec<(u32, &Named<VariantFormat>)>)
    ensures
        entries_view(v@) == variant_list(m@),
        lists_variants(variant_list(m@), m@),
        v@.len() == m@.dom().len(),
{
    let mut v: Vec<(u32, &Named<VariantFormat>)> = Vec::new();
    for p in it: m.iter()
        invariant
            v@.len() == it.index(),
            it.seq() == spec_btree_map_iter(m).remaining(),
            forall|j: int|
                0 <= j < v@.len() ==> (#[trigger] v@[j]).0 == *it.seq()[j].0 && v@[j].1
                    == it.seq()[j].1,
    {
        let (k, x) = p;
        v.push((*k, x));
    }
    proof {
        let r = spec_btree_map_iter(m).remaining();
        let d = entries_view(v@);
        let ks = r.map_values(|kv: (&u32, &Named<VariantFormat>)| *kv.0);
        lemma_keys_increasing(ks);
        assert forall|i: int, j: int| 0 <= i < j < d.len() implies d[i].0 < d[j].0 by {
            assert(ks[i] == d[i].0);
            assert(ks[j] == d[j].0);
        }
        assert forall|k: u32| #[trigger] m@.contains_key(k) implies exists|i: int|
            0 <= i < d.len() && d[i].0 == k by {
            assert(r.contains((&k, &m@[k])));
            let i = choose|i: int| 0 <= i < r.len() && r[i] == (&k, &m@[k]);
            assert(d[i].0 == k);
        }
        assert(lists_variants(d, m@));
        lemma_variant_list_unique(d, variant_list(m@), m@);
    }
    v
}

} // verus!
