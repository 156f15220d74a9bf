//! Lexicographic order on strings, and sorting a list of strings into
//! increasing order without repetitions.
use vstd::prelude::*;
use vstd::string::*;

verus! {

/// `a` comes before `b`: at the first position where they differ, `a` has
/// the smaller character, or `a` is a proper prefix of `b`.  This is the
/// order of `String`'s `Ord`, since UTF-8 keeps the order of code points.
pub open spec fn str_lt(a: Seq<char>, b: Seq<char>) -> bool
    decreases a.len(),
{
    if a.len() == 0 {
        b.len() > 0
    } else if b.len() == 0 {
        false
    } else if a[0] == b[0] {
        str_lt(a.drop_first(), b.drop_first())
    } else {
        (a[0] as int) < (b[0] as int)
    }
}

/// Inserts `x` into the sorted list `s` unless it is there already.
pub open spec fn insert_sorted(s: Seq<Seq<char>>, x: Seq<char>) -> Seq<Seq<char>>
    decreases s.len(),
{
    if s.len() == 0 {
        seq![x]
    } else if x == s[0] {
        s
    } else if str_lt(x, s[0]) {
        seq![x] + s
    } else {
        seq![s[0]] + insert_sorted(s.drop_first(), x)
    }
}

/// The strings of `s` in increasing order, each once.
pub open spec fn sort_dedup(s: Seq<Seq<char>>) -> Seq<Seq<char>>
    decreases s.len(),
{
    if s.len() == 0 {
        Seq::empty()
    } else {
        insert_sorted(sort_dedup(s.drop_last()), s.last())
    }
}

/// Every string comes strictly before the next.
pub open spec fn strictly_sorted(s: Seq<Seq<char>>) -> bool {
    forall|i: int, j: int| 0 <= i < j < s.len() ==> str_lt(#[trigger] s[i], #[trigger] s[j])
}

/// No string comes before itself.
pub proof fn lemma_str_lt_irreflexive(a: Seq<char>)
    ensures
        !str_lt(a, a),
    decreases a.len(),
{
    if a.len() > 0 {
        lemma_str_lt_irreflexive(a.drop_first());
    }
}

/// Of two different strings, one comes before the other.
pub proof fn lemma_str_lt_total(a: Seq<char>, b: Seq<char>)
    ensures
        a != b ==> str_lt(a, b) || str_lt(b, a),
    decreases a.len(),
{
    if a.len() > 0 && b.len() > 0 && a[0] == b[0] {
        lemma_str_lt_total(a.drop_first(), b.drop_first());
        if a.drop_first() == b.drop_first() {
            assert(a =~= seq![a[0]] + a.drop_first());
            assert(b =~= seq![b[0]] + b.drop_first());
        }
    } else if a.len() > 0 && b.len() > 0 {
        assert((a[0] as int) != (b[0] as int));
    } else if a.len() == 0 && b.len() == 0 {
        assert(a =~= b);
    }
}

/// The order is asymmetric.
pub proof fn lemma_str_lt_asymmetric(a: Seq<char>, b: Seq<char>)
    ensures
        str_lt(a, b) ==> !str_lt(b, a),
    decreases a.len(),
{
    if a.len() > 0 && b.len() > 0 && a[0] == b[0] {
        lemma_str_lt_asymmetric(a.drop_first(), b.drop_first());
    }
}

/// The order is transitive.
pub proof fn lemma_str_lt_transitive(a: Seq<char>, b: Seq<char>, c: Seq<char>)
    requires
        str_lt(a, b),
        str_lt(b, c),
    ensures
        str_lt(a, c),
    decreases a.len(),
{
    if a.len() > 0 && b.len() > 0 && c.len() > 0 {
        if a[0] == b[0] && b[0] == c[0] {
            lemma_str_lt_transitive(a.drop_first(), b.drop_first(), c.drop_first());
        }
    }
}

/// Inserting into a sorted list keeps it sorted and adds just `x`.
pub proof fn lemma_insert_sorted(s: Seq<Seq<char>>, x: Seq<char>)
    requires
        strictly_sorted(s),
    ensures
        strictly_sorted(insert_sorted(s, x)),
        insert_sorted(s, x).to_set() == s.to_set().insert(x),
        forall|y: Seq<char>|
            #![trigger insert_sorted(s, x).contains(y)]
            insert_sorted(s, x).contains(y) ==> y == x || s.contains(y),
    decreases s.len(),
{
    let r = insert_sorted(s, x);
    if s.len() == 0 {
        assert(r.to_set() =~= s.to_set().insert(x)) by {
            assert forall|y| r.to_set().contains(y) <==> s.to_set().insert(x).contains(y) by {
                if r.contains(y) {
                    assert(r[0] == y);
                }
                if y == x {
                    assert(r[0] == x);
                }
            }
        }
    } else if x == s[0] {
        assert(r.to_set() =~= s.to_set().insert(x)) by {
            assert(s.contains(x)) by {
                assert(s[0] == x);
            }
        }
    } else if str_lt(x, s[0]) {
        assert forall|i: int, j: int| 0 <= i < j < r.len() implies str_lt(
            #[trigger] r[i],
            #[trigger] r[j],
        ) by {
            if i == 0 {
                if j > 1 {
                    assert(r[j] == s[j - 1]);
                    assert(str_lt(s[0], s[j - 1]));
                    lemma_str_lt_transitive(x, s[0], s[j - 1]);
                }
            } else {
                assert(r[i] == s[i - 1]);
                assert(r[j] == s[j - 1]);
            }
        }
        assert(r.to_set() =~= s.to_set().insert(x)) by {
            assert forall|y| r.to_set().contains(y) <==> s.to_set().insert(x).contains(y) by {
                if r.contains(y) {
                    let k = choose|k: int| 0 <= k < r.len() && r[k] == y;
                    if k > 0 {
                        assert(s[k - 1] == y);
                    }
                }
                if s.contains(y) {
                    let k = choose|k: int| 0 <= k < s.len() && s[k] == y;
                    assert(r[k + 1] == y);
                }
                if y == x {
                    assert(r[0] == x);
                }
            }
        }
    } else {
        let t = s.drop_first();
        assert(strictly_sorted(t)) by {
            assert forall|i: int, j: int| 0 <= i < j < t.len() implies str_lt(
                #[trigger] t[i],
                #[trigger] t[j],
            ) by {
                assert(t[i] == s[i + 1]);
                assert(t[j] == s[j + 1]);
            }
        }
        lemma_insert_sorted(t, x);
        let r2 = insert_sorted(t, x);
        assert(r == seq![s[0]] + r2);
        lemma_str_lt_total(x, s[0]);
        assert(str_lt(s[0], x));
        assert forall|i: int, j: int| 0 <= i < j < r.len() implies str_lt(
            #[trigger] r[i],
            #[trigger] r[j],
        ) by {
            if i == 0 {
                assert(r[j] == r2[j - 1]);
                assert(r2.contains(r2[j - 1]));
                if r2[j - 1] != x {
                    assert(t.contains(r2[j - 1]));
                    let k = choose|k: int| 0 <= k < t.len() && t[k] == r2[j - 1];
                    assert(t[k] == s[k + 1]);
                }
            } else {
                assert(r[i] == r2[i - 1]);
                assert(r[j] == r2[j - 1]);
            }
        }
        assert(r.to_set() =~= s.to_set().insert(x)) by {
            assert(s =~= seq![s[0]] + t);
            assert forall|y| r.to_set().contains(y) <==> s.to_set().insert(x).contains(y) by {
                if r.contains(y) {
                    let k = choose|k: int| 0 <= k < r.len() && r[k] == y;
                    if k > 0 {
                        assert(r2[k - 1] == y);
                        assert(r2.to_set().contains(y));
                        if y != x {
                            assert(t.to_set().contains(y));
                            let m = choose|m: int| 0 <= m < t.len() && t[m] == y;
                            assert(s[m + 1] == y);
                        }
                    } else {
                        assert(s[0] == y);
                    }
                }
                if s.contains(y) {
                    let k = choose|k: int| 0 <= k < s.len() && s[k] == y;
                    if k == 0 {
                        assert(r[0] == y);
                    } else {
                        assert(t[k - 1] == y);
                        assert(t.to_set().contains(y));
                        assert(r2.to_set().contains(y));
                        let m = choose|m: int| 0 <= m < r2.len() && r2[m] == y;
                        assert(r[m + 1] == y);
                    }
                }
                if y == x {
                    assert(r2.to_set().contains(x));
                    let m = choose|m: int| 0 <= m < r2.len() && r2[m] == x;
                    assert(r[m + 1] == x);
                }
            }
        }
        assert forall|y: Seq<char>| #![trigger r.contains(y)] r.contains(y) implies y == x
            || s.contains(y) by {
            assert(r.to_set().contains(y));
            assert(s.to_set().insert(x).contains(y));
        }
    }
    assert forall|y: Seq<char>| #![trigger r.contains(y)] r.contains(y) implies y == x
        || s.contains(y) by {
        assert(r.to_set().contains(y));
        assert(s.to_set().insert(x).contains(y));
    }
}

/// The result of sorting is strictly sorted and holds the same strings.
pub proof fn lemma_sort_dedup(s: Seq<Seq<char>>)
    ensures
        strictly_sorted(sort_dedup(s)),
        sort_dedup(s).to_set() == s.to_set(),
    decreases s.len(),
{
    if s.len() == 0 {
        assert(sort_dedup(s).to_set() =~= s.to_set());
    } else {
        lemma_sort_dedup(s.drop_last());
        lemma_insert_sorted(sort_dedup(s.drop_last()), s.last());
        assert(s =~= s.drop_last().push(s.last()));
        assert(s.to_set() =~= s.drop_last().to_set().insert(s.last())) by {
            assert forall|y| s.to_set().contains(y) <==> s.drop_last().to_set().insert(
                s.last(),
            ).contains(y) by {
                if s.contains(y) {
                    let k = choose|k: int| 0 <= k < s.len() && s[k] == y;
                    if k < s.len() - 1 {
                        assert(s.drop_last()[k] == y);
                    }
                }
                if s.drop_last().contains(y) {
                    let k = choose|k: int| 0 <= k < s.drop_last().len() && s.drop_last()[k] == y;
                    assert(s[k] == y);
                }
            }
        }
    }
}

/// Two strictly sorted lists of the same strings are the same list.
pub proof fn lemma_sorted_same_set_equal(a: Seq<Seq<char>>, b: Seq<Seq<char>>)
    requires
        strictly_sorted(a),
        strictly_sorted(b),
        a.to_set() == b.to_set(),
    ensures
        a == b,
    decreases a.len(),
{
    if a.len() == 0 {
        if b.len() > 0 {
            assert(b.to_set().contains(b[0]));
            assert(a.contains(b[0]));
        }
        assert(a =~= b);
    } else {
        assert(a.to_set().contains(a[0]));
        assert(b.contains(a[0]));
        let j = choose|j: int| 0 <= j < b.len() && b[j] == a[0];
        assert(b.to_set().contains(b[0]));
        assert(a.contains(b[0]));
        let k = choose|k: int| 0 <= k < a.len() && a[k] == b[0];
        if a[0] != b[0] {
            assert(j > 0 && k > 0);
            assert(str_lt(b[0], b[j]));
            assert(str_lt(a[0], a[k]));
            lemma_str_lt_asymmetric(a[0], b[0]);
        }
        let a1 = a.drop_first();
        let b1 = b.drop_first();
        assert(strictly_sorted(a1)) by {
            assert forall|i: int, l: int| 0 <= i < l < a1.len() implies str_lt(
                #[trigger] a1[i],
                #[trigger] a1[l],
            ) by {
                assert(a1[i] == a[i + 1] && a1[l] == a[l + 1]);
            }
        }
        assert(strictly_sorted(b1)) by {
            assert forall|i: int, l: int| 0 <= i < l < b1.len() implies str_lt(
                #[trigger] b1[i],
                #[trigger] b1[l],
            ) by {
                assert(b1[i] == b[i + 1] && b1[l] == b[l + 1]);
            }
        }
        assert(a1.to_set() =~= b1.to_set()) by {
            assert forall|y: Seq<char>| a1.to_set().contains(y) implies b1.to_set().contains(y) by {
                let i = choose|i: int| 0 <= i < a1.len() && a1[i] == y;
                assert(a[i + 1] == y);
                assert(a.to_set().contains(y));
                assert(b.contains(y));
                let l = choose|l: int| 0 <= l < b.len() && b[l] == y;
                if l == 0 {
                    assert(str_lt(a[0], a[i + 1]));
                    lemma_str_lt_irreflexive(a[0]);
                }
                assert(b1[l - 1] == y);
            }
            assert forall|y: Seq<char>| b1.to_set().contains(y) implies a1.to_set().contains(y) by {
                let i = choose|i: int| 0 <= i < b1.len() && b1[i] == y;
                assert(b[i + 1] == y);
                assert(b.to_set().contains(y));
                assert(a.contains(y));
                let l = choose|l: int| 0 <= l < a.len() && a[l] == y;
                if l == 0 {
                    assert(str_lt(b[0], b[i + 1]));
                    lemma_str_lt_irreflexive(b[0]);
                }
                assert(a1[l - 1] == y);
            }
        }
        lemma_sorted_same_set_equal(a1, b1);
        assert(a =~= seq![a[0]] + a1);
        assert(b =~= seq![b[0]] + b1);
    }
}

/// Does `a` come before `b`?
pub fn str_less(a: &str, b: &str) -> (r: bool)
    ensures
        r == str_lt(a@, b@),
{
    let n = a.unicode_len();
    let m = b.unicode_len();
    let mut i: usize = 0;
    proof {
        assert(a@.skip(0) =~= a@);
        assert(b@.skip(0) =~= b@);
    }
    while i < n && i < m
        invariant
            n == a@.len(),
            m == b@.len(),
            0 <= i <= n,
            i <= m,
            str_lt(a@, b@) == str_lt(a@.skip(i as int), b@.skip(i as int)),
        decreases n - i,
    {
        let x = a.get_char(i);
        let y = b.get_char(i);
        proof {
            assert(a@.skip(i as int)[0] == x);
            assert(b@.skip(i as int)[0] == y);
            assert(a@.skip(i as int).drop_first() =~= a@.skip(i + 1));
            assert(b@.skip(i as int).drop_first() =~= b@.skip(i + 1));
        }
        if x != y {
            return (x as u32) < (y as u32);
        }
        i = i + 1;
    }
    i < m
}

/// Inserts `x` into the sorted list `v` unless it is there already.
pub fn insert_unique_sorted(v: &mut Vec<String>, x: String)
    ensures
        final(v)@.map_values(|s: String| s@) == insert_sorted(
            old(v)@.map_values(|s: String| s@),
            x@,
        ),
{
    let ghost s0 = old(v)@.map_values(|s: String| s@);
    let n = v.len();
    let mut i: usize = 0;
    proof {
        assert(s0.skip(0) =~= s0);
        assert(s0.take(0) + s0 =~= s0);
    }
    while i < n
        invariant
            n == v@.len(),
            v@ == old(v)@,
            s0 == old(v)@.map_values(|s: String| s@),
            0 <= i <= n,
            insert_sorted(s0, x@) == s0.take(i as int) + insert_sorted(s0.skip(i as int), x@),
        decreases n - i,
    {
        let here = v[i].as_str();
        proof {
            assert(s0.skip(i as int)[0] == here@);
            assert(s0.skip(i as int).drop_first() =~= s0.skip(i + 1));
        }
        if same_chars(x.as_str(), here) {
            proof {
                assert(s0.take(i as int) + s0.skip(i as int) =~= s0);
            }
            return;
        }
        if str_less(x.as_str(), here) {
            v.insert(i, x);
            proof {
                assert(v@.map_values(|s: String| s@) =~= s0.take(i as int) + (seq![x@] + s0.skip(
                    i as int,
                )));
            }
            return;
        }
        proof {
            assert(s0.take(i + 1) =~= s0.take(i as int).push(s0[i as int]));
            assert(s0.take(i as int) + (seq![s0[i as int]] + insert_sorted(s0.skip(i + 1), x@))
                =~= s0.take(i + 1) + insert_sorted(s0.skip(i + 1), x@));
        }
        i = i + 1;
    }
    v.push(x);
    proof {
        assert(s0.skip(n as int) =~= Seq::<Seq<char>>::empty());
        assert(s0.take(n as int) =~= s0);
        assert(v@.map_values(|s: String| s@) =~= s0 + seq![x@]);
    }
}

/// Are the two strings the same?
pub fn same_chars(a: &str, b: &str) -> (r: bool)
    ensures
        r == (a@ == b@),
{
    let n = a.unicode_len();
    let m = b.unicode_len();
    if n != m {
        return false;
    }
    let mut i: usize = 0;
    while i < n
        invariant
            n == a@.len(),
            m == b@.len(),
            n == m,
            0 <= i <= n,
            a@.take(i as int) == b@.take(i as int),
        decreases n - i,
    {
        let x = a.get_char(i);
        let y = b.get_char(i);
        if x != y {
            return false;
        }
        proof {
            assert(a@.take(i + 1) =~= a@.take(i as int).push(x));
            assert(b@.take(i + 1) =~= b@.take(i as int).push(y));
        }
        i = i + 1;
    }
    proof {
        assert(a@.take(n as int) =~= a@);
        assert(b@.take(n as int) =~= b@);
    }
    true
}

/// Sorts the strings into increasing order, dropping repetitions.
pub fn sorted_unique(items: &Vec<String>) -> (r: Vec<String>)
    ensures
        r@.map_values(|s: String| s@) == sort_dedup(items@.map_values(|s: String| s@)),
{
    let ghost s = items@.map_values(|s: String| s@);
    let mut r: Vec<String> = Vec::new();
    let n = items.len();
    let mut i: usize = 0;
    proof {
        assert(s.take(0) =~= Seq::<Seq<char>>::empty());
        assert(r@.map_values(|s: String| s@) =~= Seq::<Seq<char>>::empty());
    }
    while i < n
        invariant
            n == items@.len(),
            s == items@.map_values(|s: String| s@),
            0 <= i <= n,
            r@.map_values(|s: String| s@) == sort_dedup(s.take(i as int)),
        decreases n - i,
    {
        insert_unique_sorted(&mut r, items[i].clone());
        proof {
            let next = s.take(i + 1);
            assert(next.drop_last() =~= s.take(i as int));
            assert(next.last() == items@[i as int]@);
        }
        i = i + 1;
    }
    proof {
        assert(s.take(n as int) =~= s);
    }
    r
}

} // verus!
