//! The qubit-to-tweezer assignment.
//!
//! The assignment is a list of (qubit, tweezer) pairs with pairwise distinct
//! qubits and pairwise distinct tweezers, so it is injective: no two qubits
//! ever share a site. Lookups take the last matching pair; the mutators keep
//! at most one pair per qubit.

use vstd::prelude::*;

verus! {

/// The tweezer assigned to a qubit: last matching pair wins.
pub open spec fn spec_qmap_get(s: Seq<(usize, usize)>, q: usize) -> Option<usize>
    decreases s.len(),
{
    if s.len() == 0 {
        None
    } else if s.last().0 == q {
        Some(s.last().1)
    } else {
        spec_qmap_get(s.drop_last(), q)
    }
}

/// The qubit holding a tweezer: last matching pair wins.
pub open spec fn spec_qmap_holder(s: Seq<(usize, usize)>, t: usize) -> Option<usize>
    decreases s.len(),
{
    if s.len() == 0 {
        None
    } else if s.last().1 == t {
        Some(s.last().0)
    } else {
        spec_qmap_holder(s.drop_last(), t)
    }
}

/// All qubits in the list are pairwise distinct.
pub open spec fn spec_qmap_keys_distinct(s: Seq<(usize, usize)>) -> bool {
    forall|i: int, j: int| 0 <= i < j < s.len() ==> s[i].0 != s[j].0
}

/// All tweezers in the list are pairwise distinct: the assignment is injective.
pub open spec fn spec_qmap_vals_distinct(s: Seq<(usize, usize)>) -> bool {
    forall|i: int, j: int| 0 <= i < j < s.len() ==> s[i].1 != s[j].1
}

/// A well-formed assignment: one pair per qubit, one pair per tweezer.
pub open spec fn spec_qmap_wf(s: Seq<(usize, usize)>) -> bool {
    spec_qmap_keys_distinct(s) && spec_qmap_vals_distinct(s)
}

/// The predicate keeping every pair not owned by the given qubit.
pub open spec fn qmap_pred(q: usize) -> spec_fn((usize, usize)) -> bool {
    |e: (usize, usize)| e.0 != q
}

/// The assignment without any pair for the given qubit.
pub open spec fn spec_qmap_without(s: Seq<(usize, usize)>, q: usize) -> Seq<(usize, usize)> {
    s.filter(qmap_pred(q))
}

/// Every element of a filtered list is an element of the original list.
pub proof fn lemma_filter_elem_of(
    s: Seq<(usize, usize)>,
    pred: spec_fn((usize, usize)) -> bool,
    i: int,
)
    requires
        0 <= i < s.filter(pred).len(),
    ensures
        s.contains(s.filter(pred)[i]),
    decreases s.len(),
{
    reveal_with_fuel(Seq::filter, 2);
    if s.len() > 0 {
        let f = s.filter(pred);
        let fd = s.drop_last().filter(pred);
        if pred(s.last()) && i == f.len() - 1 {
            assert(s[s.len() - 1] == f[i]);
        } else {
            assert(f[i] == fd[i]);
            lemma_filter_elem_of(s.drop_last(), pred, i);
            let j = choose|j: int| 0 <= j < s.drop_last().len() && s.drop_last()[j] == fd[i];
            assert(s[j] == f[i]);
        }
    }
}

/// A qubit is absent exactly when no pair carries it.
pub proof fn lemma_qmap_get_none_iff(s: Seq<(usize, usize)>, q: usize)
    ensures
        spec_qmap_get(s, q) is None <==> (forall|i: int| 0 <= i < s.len() ==> s[i].0 != q),
    decreases s.len(),
{
    if s.len() > 0 {
        lemma_qmap_get_none_iff(s.drop_last(), q);
        assert(forall|i: int| 0 <= i < s.len() - 1 ==> s.drop_last()[i] == s[i]);
        if s.last().0 == q {
            assert(s[s.len() - 1].0 == q);
        }
    }
}

/// A tweezer is unheld exactly when no pair carries it.
pub proof fn lemma_qmap_holder_none_iff(s: Seq<(usize, usize)>, t: usize)
    ensures
        spec_qmap_holder(s, t) is None <==> (forall|i: int| 0 <= i < s.len() ==> s[i].1 != t),
    decreases s.len(),
{
    if s.len() > 0 {
        lemma_qmap_holder_none_iff(s.drop_last(), t);
        assert(forall|i: int| 0 <= i < s.len() - 1 ==> s.drop_last()[i] == s[i]);
        if s.last().1 == t {
            assert(s[s.len() - 1].1 == t);
        }
    }
}

/// A successful lookup names a pair of the list.
pub proof fn lemma_qmap_get_is_entry(s: Seq<(usize, usize)>, q: usize)
    requires
        spec_qmap_get(s, q) is Some,
    ensures
        s.contains((q, spec_qmap_get(s, q)->Some_0)),
    decreases s.len(),
{
    if s.len() > 0 {
        if s.last().0 == q {
            assert(s[s.len() - 1] == (q, spec_qmap_get(s, q)->Some_0));
        } else {
            lemma_qmap_get_is_entry(s.drop_last(), q);
            let e = (q, spec_qmap_get(s, q)->Some_0);
            let i = choose|i: int| 0 <= i < s.drop_last().len() && s.drop_last()[i] == e;
            assert(s[i] == e);
        }
    }
}

/// Dropping one qubit's pair leaves every other qubit's lookup unchanged.
pub proof fn lemma_qmap_without_get(s: Seq<(usize, usize)>, q: usize, k: usize)
    ensures
        spec_qmap_get(spec_qmap_without(s, q), k) == if k == q {
            None
        } else {
            spec_qmap_get(s, k)
        },
    decreases s.len(),
{
    reveal_with_fuel(Seq::filter, 2);
    if s.len() == 0 {
        assert(spec_qmap_without(s, q) =~= s);
    } else {
        lemma_qmap_without_get(s.drop_last(), q, k);
        let f = spec_qmap_without(s.drop_last(), q);
        if s.last().0 != q {
            assert(spec_qmap_without(s, q) == f.push(s.last()));
            assert(f.push(s.last()).drop_last() =~= f);
        } else {
            assert(spec_qmap_without(s, q) == f);
        }
    }
}

/// Dropping one qubit's pair leaves every tweezer holder unchanged, except
/// that the dropped qubit holds nothing.
pub proof fn lemma_qmap_without_holder(s: Seq<(usize, usize)>, q: usize, t: usize)
    requires
        spec_qmap_wf(s),
    ensures
        spec_qmap_holder(spec_qmap_without(s, q), t) == if spec_qmap_holder(s, t) == Some(q) {
            None::<usize>
        } else {
            spec_qmap_holder(s, t)
        },
    decreases s.len(),
{
    reveal_with_fuel(Seq::filter, 2);
    if s.len() == 0 {
        assert(spec_qmap_without(s, q) =~= s);
    } else {
        assert(forall|i: int| 0 <= i < s.len() - 1 ==> s.drop_last()[i] == s[i]);
        lemma_qmap_without_holder(s.drop_last(), q, t);
        let f = spec_qmap_without(s.drop_last(), q);
        if s.last().0 != q {
            assert(spec_qmap_without(s, q) == f.push(s.last()));
            assert(f.push(s.last()).drop_last() =~= f);
            if s.last().1 == t && spec_qmap_holder(s.drop_last(), t) == Some(q) {
                lemma_qmap_get_none_iff(s.drop_last(), q);
                lemma_qmap_holder_is_entry(s.drop_last(), t);
            }
        } else {
            assert(spec_qmap_without(s, q) == f);
            if s.last().1 == t {
                assert(spec_qmap_holder(s, t) == Some(q));
                lemma_qmap_holder_none_iff(s.drop_last(), t);
                assert(forall|i: int| 0 <= i < s.len() - 1 ==> s[i].1 != t);
                lemma_qmap_holder_none_iff(f, t);
                assert forall|i: int| 0 <= i < f.len() implies #[trigger] f[i].1 != t by {
                    lemma_filter_elem_of(s.drop_last(), qmap_pred(q), i);
                    let j = choose|j: int|
                        0 <= j < s.drop_last().len() && s.drop_last()[j] == f[i];
                    assert(s[j].1 != t);
                }
            }
        }
    }
}

/// A successful holder lookup names a pair of the list.
pub proof fn lemma_qmap_holder_is_entry(s: Seq<(usize, usize)>, t: usize)
    requires
        spec_qmap_holder(s, t) is Some,
    ensures
        s.contains((spec_qmap_holder(s, t)->Some_0, t)),
    decreases s.len(),
{
    if s.len() > 0 {
        if s.last().1 == t {
            assert(s[s.len() - 1] == (spec_qmap_holder(s, t)->Some_0, t));
        } else {
            lemma_qmap_holder_is_entry(s.drop_last(), t);
            let e = (spec_qmap_holder(s, t)->Some_0, t);
            let i = choose|i: int| 0 <= i < s.drop_last().len() && s.drop_last()[i] == e;
            assert(s[i] == e);
        }
    }
}

/// Dropping one qubit's pair keeps the list well formed.
pub proof fn lemma_qmap_without_wf(s: Seq<(usize, usize)>, q: usize)
    requires
        spec_qmap_wf(s),
    ensures
        spec_qmap_wf(spec_qmap_without(s, q)),
        forall|i: int|
            0 <= i < spec_qmap_without(s, q).len() ==> s.contains(
                #[trigger] spec_qmap_without(s, q)[i],
            ),
    decreases s.len(),
{
    reveal_with_fuel(Seq::filter, 2);
    let f = spec_qmap_without(s, q);
    if s.len() == 0 {
        assert(f =~= s);
    } else {
        assert(forall|i: int| 0 <= i < s.len() - 1 ==> s.drop_last()[i] == s[i]);
        lemma_qmap_without_wf(s.drop_last(), q);
        let fd = spec_qmap_without(s.drop_last(), q);
        assert forall|i: int| 0 <= i < f.len() implies s.contains(#[trigger] f[i]) by {
            lemma_filter_elem_of(s, qmap_pred(q), i);
        }
        if s.last().0 != q {
            assert(f == fd.push(s.last()));
            assert forall|i: int, j: int| 0 <= i < j < f.len() implies f[i].0 != f[j].0 && f[i].1
                != f[j].1 by {
                if j == f.len() - 1 {
                    assert(f[j] == s.last());
                    assert(f[i] == fd[i]);
                    lemma_filter_elem_of(s.drop_last(), qmap_pred(q), i);
                    let k = choose|k: int|
                        0 <= k < s.drop_last().len() && s.drop_last()[k] == fd[i];
                    assert(s[k] == f[i]);
                    assert(s[k].0 != s[s.len() - 1].0);
                    assert(s[k].1 != s[s.len() - 1].1);
                } else {
                    assert(f[i] == fd[i] && f[j] == fd[j]);
                }
            }
        } else {
            assert(f == fd);
        }
    }
}

/// The length after dropping one qubit's pair: one less when it was present.
pub proof fn lemma_qmap_without_len(s: Seq<(usize, usize)>, q: usize)
    requires
        spec_qmap_keys_distinct(s),
    ensures
        spec_qmap_without(s, q).len() == s.len() - (if spec_qmap_get(s, q) is Some {
            1int
        } else {
            0
        }),
    decreases s.len(),
{
    reveal_with_fuel(Seq::filter, 2);
    if s.len() == 0 {
        assert(spec_qmap_without(s, q) =~= s);
    } else {
        assert(forall|i: int| 0 <= i < s.len() - 1 ==> s.drop_last()[i] == s[i]);
        lemma_qmap_without_len(s.drop_last(), q);
        if s.last().0 == q {
            lemma_qmap_get_none_iff(s.drop_last(), q);
            assert(forall|i: int| 0 <= i < s.len() - 1 ==> s[i].0 != q);
            assert(spec_qmap_get(s.drop_last(), q) is None);
        }
    }
}

/// Looks up the tweezer assigned to a qubit.
pub fn qmap_get(v: &Vec<(usize, usize)>, q: usize) -> (r: Option<usize>)
    ensures
        r == spec_qmap_get(v@, q),
{
    let mut i: usize = v.len();
    proof {
        assert(v@.take(i as int) =~= v@);
    }
    while i > 0
        invariant
            i <= v@.len(),
            spec_qmap_get(v@, q) == spec_qmap_get(v@.take(i as int), q),
        decreases i,
    {
        let e = v[i - 1];
        proof {
            assert(v@.take(i as int).last() == v@[i - 1]);
            assert(v@.take(i as int).drop_last() =~= v@.take(i as int - 1));
        }
        if e.0 == q {
            return Some(e.1);
        }
        i -= 1;
    }
    proof {
        assert(v@.take(0) =~= Seq::<(usize, usize)>::empty());
    }
    None
}

/// Looks up the qubit holding a tweezer.
pub fn qmap_holder(v: &Vec<(usize, usize)>, t: usize) -> (r: Option<usize>)
    ensures
        r == spec_qmap_holder(v@, t),
{
    let mut i: usize = v.len();
    proof {
        assert(v@.take(i as int) =~= v@);
    }
    while i > 0
        invariant
            i <= v@.len(),
            spec_qmap_holder(v@, t) == spec_qmap_holder(v@.take(i as int), t),
        decreases i,
    {
        let e = v[i - 1];
        proof {
            assert(v@.take(i as int).last() == v@[i - 1]);
            assert(v@.take(i as int).drop_last() =~= v@.take(i as int - 1));
        }
        if e.1 == t {
            return Some(e.0);
        }
        i -= 1;
    }
    proof {
        assert(v@.take(0) =~= Seq::<(usize, usize)>::empty());
    }
    None
}

/// Removes any pair for the given qubit, keeping the order of the rest.
pub fn qmap_remove(v: &mut Vec<(usize, usize)>, q: usize)
    ensures
        final(v)@ == spec_qmap_without(old(v)@, q),
{
    let mut out: Vec<(usize, usize)> = Vec::new();
    let mut i: usize = 0;
    proof {
        reveal_with_fuel(Seq::filter, 2);
        assert(out@ =~= spec_qmap_without(old(v)@.take(0), q));
    }
    while i < v.len()
        invariant
            v == old(v),
            i <= v@.len(),
            out@ == spec_qmap_without(v@.take(i as int), q),
        decreases v@.len() - i,
    {
        let e = v[i];
        proof {
            reveal_with_fuel(Seq::filter, 2);
            assert(v@.take(i as int + 1).last() == v@[i as int]);
            assert(v@.take(i as int + 1).drop_last() =~= v@.take(i as int));
        }
        if e.0 != q {
            out.push(e);
        }
        i += 1;
    }
    proof {
        assert(v@.take(v@.len() as int) =~= v@);
    }
    *v = out;
}

/// Assigns a tweezer to a qubit, overwriting any earlier assignment of that
/// qubit and keeping the order of the other pairs.
pub fn qmap_set(v: &mut Vec<(usize, usize)>, q: usize, t: usize)
    ensures
        final(v)@ == spec_qmap_without(old(v)@, q).push((q, t)),
{
    qmap_remove(v, q);
    v.push((q, t));
}


/// Reassigning a qubit to an unheld tweezer keeps the assignment well formed
/// and changes only that qubit's entry.
pub proof fn lemma_qmap_set_wf(m: Seq<(usize, usize)>, q: usize, t: usize)
    requires
        spec_qmap_wf(m),
        spec_qmap_holder(m, t) is None || spec_qmap_holder(m, t) == Some(q),
    ensures
        spec_qmap_wf(spec_qmap_without(m, q).push((q, t))),
        spec_qmap_get(spec_qmap_without(m, q).push((q, t)), q) == Some(t),
        forall|q2: usize|
            q2 != q ==> spec_qmap_get(spec_qmap_without(m, q).push((q, t)), q2) == spec_qmap_get(
                m,
                q2,
            ),
{
    let w = spec_qmap_without(m, q);
    let mnew = w.push((q, t));
    assert(mnew.drop_last() =~= w);
    assert(spec_qmap_get(mnew, q) == Some(t));
    assert forall|q2: usize| q2 != q implies spec_qmap_get(mnew, q2) == spec_qmap_get(m, q2) by {
        lemma_qmap_without_get(m, q, q2);
    }
    lemma_qmap_without_wf(m, q);
    lemma_qmap_without_get(m, q, q);
    lemma_qmap_get_none_iff(w, q);
    lemma_qmap_without_holder(m, q, t);
    lemma_qmap_holder_none_iff(w, t);
    assert forall|i: int, j: int|
        0 <= i < j < mnew.len() implies mnew[i].0 != mnew[j].0 && mnew[i].1 != mnew[j].1 by {
        if j == mnew.len() - 1 {
            assert(mnew[i] == w[i]);
            assert(w[i].0 != q);
            assert(w[i].1 != t);
        } else {
            assert(mnew[i] == w[i] && mnew[j] == w[j]);
        }
    }
}


/// The greatest qubit number in the assignment, when any pair exists.
pub fn qmap_max_key(v: &Vec<(usize, usize)>) -> (r: Option<usize>)
    ensures
        match r {
            Some(m) => v@.len() > 0 && (forall|i: int| 0 <= i < v@.len() ==> (#[trigger] v@[i]).0
                <= m),
            None => v@.len() == 0,
        },
{
    if v.len() == 0 {
        return None;
    }
    let mut m: usize = v[0].0;
    let mut i: usize = 1;
    while i < v.len()
        invariant
            1 <= i <= v@.len(),
            forall|j: int| 0 <= j < i ==> (#[trigger] v@[j]).0 <= m,
        decreases v@.len() - i,
    {
        let e = v[i];
        if e.0 > m {
            m = e.0;
            proof {
                assert(forall|j: int| 0 <= j < i ==> (#[trigger] v@[j]).0 <= m);
            }
        }
        i += 1;
    }
    Some(m)
}

} // verus!
