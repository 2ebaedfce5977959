//! Canonical linear combinations: merging duplicate identifiers by field
//! addition into a form ordered by identifier, a pure function of the
//! multiset of terms.

use vstd::prelude::*;

use crate::field::fr_add;
use crate::field::fr_add_laws;
use crate::field::fr_add_of;
use crate::ir::assoc_lookup;
use crate::ir::LinComb;
use crate::ir::Var;

verus! {

/// A term list whose duplicate identifiers are merged and whose entries are
/// strictly ordered by identifier.
pub struct CanonicalLinComb(pub Vec<(Var, ark_bn254::Fr)>);

/// Entries strictly increasing by identifier key: each identifier occurs at
/// most once, in canonical order.
pub open spec fn sorted_strict(s: Seq<(Var, ark_bn254::Fr)>) -> bool {
    forall|i: int, j: int| 0 <= i < j < s.len() ==> s[i].0.key() < s[j].0.key()
}

/// `merge_c(prev, c)`: the merged coefficient after one more term `c`.
pub open spec fn merge_c(prev: Option<ark_bn254::Fr>, c: ark_bn254::Fr) -> Option<
    ark_bn254::Fr,
> {
    match prev {
        None => Some(c),
        Some(s) => Some(fr_add_of(s, c)),
    }
}

/// The merged coefficient of `v` over a term list: the field sum of every
/// coefficient paired with `v`, in term order, or `None` where `v` does not
/// occur. This is what canonicalization binds `v` to.
pub open spec fn coeff_in(terms: Seq<(Var, ark_bn254::Fr)>, v: Var) -> Option<ark_bn254::Fr>
    decreases terms.len(),
{
    if terms.len() == 0 {
        None
    } else if terms.last().0 == v {
        merge_c(coeff_in(terms.drop_last(), v), terms.last().1)
    } else {
        coeff_in(terms.drop_last(), v)
    }
}

impl CanonicalLinComb {
    /// Well-formed: strictly ordered by identifier.
    pub open spec fn wf(self) -> bool {
        sorted_strict(self.0@)
    }
}

/// If no entry of `s` binds `v`, lookup fails.
proof fn lemma_lookup_absent(s: Seq<(Var, ark_bn254::Fr)>, v: Var)
    requires
        forall|k: int| 0 <= k < s.len() ==> s[k].0 != v,
    ensures
        assoc_lookup(s, v) is None,
    decreases s.len(),
{
    if s.len() > 0 {
        assert(forall|k: int| 0 <= k < s.drop_first().len() ==> s.drop_first()[k] == s[k + 1]);
        lemma_lookup_absent(s.drop_first(), v);
    }
}

/// Lookup returns the entry at the first index bound to `v`.
proof fn lemma_lookup_at(s: Seq<(Var, ark_bn254::Fr)>, v: Var, j: int)
    requires
        0 <= j < s.len(),
        s[j].0 == v,
        forall|k: int| 0 <= k < j ==> s[k].0 != v,
    ensures
        assoc_lookup(s, v) == Some(s[j].1),
    decreases j,
{
    if j == 0 {
    } else {
        assert(forall|k: int| 0 <= k < s.drop_first().len() ==> s.drop_first()[k] == s[k + 1]);
        lemma_lookup_at(s.drop_first(), v, j - 1);
    }
}

/// Inserting an entry for another identifier leaves a lookup unchanged.
proof fn lemma_lookup_insert_other(
    s: Seq<(Var, ark_bn254::Fr)>,
    j: int,
    e: (Var, ark_bn254::Fr),
    v: Var,
)
    requires
        0 <= j <= s.len(),
        e.0 != v,
    ensures
        assoc_lookup(s.insert(j, e), v) == assoc_lookup(s, v),
    decreases s.len(),
{
    let t = s.insert(j, e);
    if j == 0 {
        assert(t.drop_first() =~= s);
    } else {
        assert(t.first() == s.first());
        if s.first().0 == v {
        } else {
            assert(t.drop_first() =~= s.drop_first().insert(j - 1, e));
            lemma_lookup_insert_other(s.drop_first(), j - 1, e, v);
        }
    }
}

/// Replacing the value at an index keeps every lookup of other identifiers,
/// and redirects the bound identifier's first match if it is at that index.
proof fn lemma_lookup_update(
    s: Seq<(Var, ark_bn254::Fr)>,
    j: int,
    e: (Var, ark_bn254::Fr),
    v: Var,
)
    requires
        0 <= j < s.len(),
        s[j].0 == e.0,
        e.0 != v,
    ensures
        assoc_lookup(s.update(j, e), v) == assoc_lookup(s, v),
    decreases j,
{
    let t = s.update(j, e);
    if j == 0 {
        assert(t.drop_first() =~= s.drop_first());
    } else {
        assert(t.first() == s.first());
        if s.first().0 == v {
        } else {
            assert(t.drop_first() =~= s.drop_first().update(j - 1, e));
            lemma_lookup_update(s.drop_first(), j - 1, e, v);
        }
    }
}

/// The identifier key is injective: equal keys mean equal identifiers.
proof fn lemma_key_injective(a: Var, b: Var)
    requires
        a.key() == b.key(),
    ensures
        a == b,
{
}

impl LinComb {
    /// Canonicalize this combination: merge duplicate identifiers by field
    /// addition and order the result by identifier. The result binds each
    /// identifier to exactly its merged coefficient, for any input order.
    pub fn into_canonical(&self) -> (r: CanonicalLinComb)
        ensures
            r.wf(),
            forall|v: Var| #[trigger] assoc_lookup(r.0@, v) == coeff_in(self.0@, v),
    {
        let terms = &self.0;
        let mut acc: Vec<(Var, ark_bn254::Fr)> = Vec::new();
        let mut i: usize = 0;
        assert(terms@.take(0int) =~= Seq::<(Var, ark_bn254::Fr)>::empty());
        while i < terms.len()
            invariant
                i <= terms@.len(),
                sorted_strict(acc@),
                forall|v: Var| #[trigger] assoc_lookup(acc@, v) == coeff_in(
                    terms@.take(i as int),
                    v,
                ),
            decreases terms@.len() - i,
        {
            let ghost prefix = terms@.take(i as int);
            assert(terms@.take(i as int + 1).drop_last() =~= prefix);
            assert(terms@.take(i as int + 1).last() == terms@[i as int]);
            let (v, c) = terms[i];

            // find the first position whose identifier key is not below v's
            let mut j: usize = 0;
            while j < acc.len() && !v.le(&acc[j].0)
                invariant
                    j <= acc@.len(),
                    forall|k: int| 0 <= k < j ==> acc@[k].0.key() < v.key(),
                decreases acc@.len() - j,
            {
                j += 1;
            }

            let ghost old_acc = acc@;
            if j < acc.len() && acc[j].0 == v {
                // merge into the entry already bound to v
                let sum = fr_add(&acc[j].1, &c);
                let _ = acc.remove(j);
                acc.insert(j, (v, sum));
                proof {
                    assert(acc@ =~= old_acc.update(j as int, (v, sum)));
                    assert forall|k: int| 0 <= k < old_acc.len() && k != j implies old_acc[k].0
                        != v by {
                        if old_acc[k].0 == v {
                            lemma_key_injective(old_acc[k].0, old_acc[j as int].0);
                        }
                    }
                    lemma_lookup_at(acc@, v, j as int);
                    lemma_lookup_at(old_acc, v, j as int);
                    assert forall|w: Var| #[trigger] assoc_lookup(acc@, w) == coeff_in(
                        terms@.take(i as int + 1),
                        w,
                    ) by {
                        if w != v {
                            lemma_lookup_update(old_acc, j as int, (v, sum), w);
                        }
                    }
                }
            } else {
                // v is absent from acc; insert it in order
                acc.insert(j, (v, c));
                proof {
                    assert forall|k: int| 0 <= k < old_acc.len() implies old_acc[k].0 != v by {
                        if old_acc[k].0 == v {
                            if k < j {
                            } else {
                                assert(v.key() <= old_acc[k].0.key());
                                lemma_key_injective(old_acc[k].0, v);
                            }
                        }
                    }
                    lemma_lookup_absent(old_acc, v);
                    lemma_lookup_at(acc@, v, j as int);
                    assert forall|w: Var| #[trigger] assoc_lookup(acc@, w) == coeff_in(
                        terms@.take(i as int + 1),
                        w,
                    ) by {
                        if w != v {
                            lemma_lookup_insert_other(old_acc, j as int, (v, c), w);
                        }
                    }
                }
            }
            i += 1;
        }
        assert(terms@.take(terms@.len() as int) =~= terms@);
        CanonicalLinComb(acc)
    }
}

/// A merged coefficient exists exactly where the identifier occurs in the
/// term list.
pub proof fn lemma_coeff_some_iff(terms: Seq<(Var, ark_bn254::Fr)>, v: Var)
    ensures
        coeff_in(terms, v) is Some <==> exists|k: int|
            0 <= k < terms.len() && terms[k].0 == v,
    decreases terms.len(),
{
    if terms.len() > 0 {
        lemma_coeff_some_iff(terms.drop_last(), v);
        if terms.last().0 == v {
            assert(terms[terms.len() - 1].0 == v);
        } else {
            if exists|k: int| 0 <= k < terms.len() && terms[k].0 == v {
                let k = choose|k: int| 0 <= k < terms.len() && terms[k].0 == v;
                assert(terms.drop_last()[k].0 == v);
            }
        }
    }
}

/// Removing one term from a list changes each merged coefficient by exactly
/// that term's contribution. Field-addition laws let the removed term's
/// coefficient commute past the terms after it.
proof fn lemma_coeff_remove(s: Seq<(Var, ark_bn254::Fr)>, m: int, v: Var)
    requires
        fr_add_laws(),
        0 <= m < s.len(),
    ensures
        coeff_in(s, v) == if s[m].0 == v {
            merge_c(coeff_in(s.remove(m), v), s[m].1)
        } else {
            coeff_in(s.remove(m), v)
        },
    decreases s.len(),
{
    if m == s.len() - 1 {
        assert(s.remove(m) =~= s.drop_last());
    } else {
        let d = s.drop_last();
        let last = s.last();
        assert(s.remove(m).drop_last() =~= d.remove(m));
        assert(s.remove(m).last() == last);
        lemma_coeff_remove(d, m, v);
        if s[m].0 == v && last.0 == v {
            // both contributions merge; they commute by the addition laws
            let x = coeff_in(d.remove(m), v);
            assert(merge_c(merge_c(x, s[m].1), last.1) == merge_c(merge_c(x, last.1), s[m].1))
                by {
                match x {
                    None => {
                        assert(fr_add_of(s[m].1, last.1) == fr_add_of(last.1, s[m].1));
                    },
                    Some(y) => {
                        assert(fr_add_of(fr_add_of(y, s[m].1), last.1) == fr_add_of(
                            y,
                            fr_add_of(s[m].1, last.1),
                        ));
                        assert(fr_add_of(fr_add_of(y, last.1), s[m].1) == fr_add_of(
                            y,
                            fr_add_of(last.1, s[m].1),
                        ));
                        assert(fr_add_of(s[m].1, last.1) == fr_add_of(last.1, s[m].1));
                    },
                }
            }
        }
    }
}

/// Canonicalization order-independence: two term lists holding the same
/// multiset of `(identifier, coefficient)` pairs merge to the same
/// coefficient for every identifier, whatever their order. The hypothesis is
/// the commutativity and associativity of the backend's field addition,
/// which every call of `fr_add` establishes.
pub proof fn lemma_coeff_in_permutation(
    t1: Seq<(Var, ark_bn254::Fr)>,
    t2: Seq<(Var, ark_bn254::Fr)>,
)
    requires
        fr_add_laws(),
        t1.to_multiset() == t2.to_multiset(),
    ensures
        forall|v: Var| #[trigger] coeff_in(t1, v) == coeff_in(t2, v),
    decreases t1.len(),
{
    broadcast use vstd::seq_lib::group_to_multiset_ensures;

    if t1.len() == 0 {
        assert(t2.to_multiset().len() == 0);
        assert(t2.len() == 0);
    } else {
        let e = t1.last();
        assert(t1[t1.len() - 1] == e);
        assert(t1.contains(e));
        assert(t1.to_multiset().count(e) > 0);
        assert(t2.to_multiset().count(e) > 0);
        assert(t2.contains(e));
        let m = choose|m: int| 0 <= m < t2.len() && t2[m] == e;
        let d1 = t1.drop_last();
        let d2 = t2.remove(m);
        assert(t1.remove(t1.len() - 1) =~= d1);
        assert(d1.to_multiset() =~= t1.to_multiset().remove(e));
        assert(d2.to_multiset() =~= t2.to_multiset().remove(e));
        assert(d1.to_multiset() =~= d2.to_multiset());
        lemma_coeff_in_permutation(d1, d2);
        assert forall|v: Var| #[trigger] coeff_in(t1, v) == coeff_in(t2, v) by {
            lemma_coeff_remove(t2, m, v);
            assert(coeff_in(d1, v) == coeff_in(d2, v));
            assert(coeff_in(t1, v) == if e.0 == v {
                merge_c(coeff_in(d1, v), e.1)
            } else {
                coeff_in(d1, v)
            });
        }
    }
}

/// Canonical forms are unique: two well-formed canonical combinations that
/// bind every identifier alike are equal entry for entry.
pub proof fn lemma_canonical_unique(s: Seq<(Var, ark_bn254::Fr)>, t: Seq<(Var, ark_bn254::Fr)>)
    requires
        sorted_strict(s),
        sorted_strict(t),
        forall|v: Var| #[trigger] assoc_lookup(s, v) == assoc_lookup(t, v),
    ensures
        s == t,
    decreases s.len(),
{
    if s.len() == 0 {
        if t.len() > 0 {
            lemma_lookup_at(t, t[0].0, 0);
            lemma_lookup_absent(s, t[0].0);
            assert(false);
        }
        assert(s =~= t);
    } else if t.len() == 0 {
        lemma_lookup_at(s, s[0].0, 0);
        lemma_lookup_absent(t, s[0].0);
        assert(false);
    } else {
        // the two head identifiers must coincide: each is bound in both, and
        // sortedness puts it at the head
        lemma_lookup_at(s, s[0].0, 0);
        lemma_lookup_at(t, t[0].0, 0);
        if s[0].0.key() < t[0].0.key() {
            assert forall|k: int| 0 <= k < t.len() implies t[k].0 != s[0].0 by {
                if t[k].0 == s[0].0 {
                    assert(t[0].0.key() <= t[k].0.key());
                }
            }
            lemma_lookup_absent(t, s[0].0);
            assert(false);
        }
        if t[0].0.key() < s[0].0.key() {
            assert forall|k: int| 0 <= k < s.len() implies s[k].0 != t[0].0 by {
                if s[k].0 == t[0].0 {
                    assert(s[0].0.key() <= s[k].0.key());
                }
            }
            lemma_lookup_absent(s, t[0].0);
            assert(false);
        }
        lemma_key_injective(s[0].0, t[0].0);
        assert(s[0].1 == t[0].1);
        assert(s[0] == t[0]);
        let s1 = s.drop_first();
        let t1 = t.drop_first();
        assert(forall|k: int| 0 <= k < s1.len() ==> s1[k] == s[k + 1]);
        assert(forall|k: int| 0 <= k < t1.len() ==> t1[k] == t[k + 1]);
        assert forall|v: Var| #[trigger] assoc_lookup(s1, v) == assoc_lookup(t1, v) by {
            if v == s[0].0 {
                // the head identifier occurs in neither tail
                assert forall|k: int| 0 <= k < s1.len() implies s1[k].0 != v by {
                    if s1[k].0 == v {
                        lemma_key_injective(s1[k].0, s[0].0);
                        assert(s[0].0.key() < s[k + 1].0.key());
                    }
                }
                assert forall|k: int| 0 <= k < t1.len() implies t1[k].0 != v by {
                    if t1[k].0 == v {
                        lemma_key_injective(t1[k].0, t[0].0);
                        assert(t[0].0.key() < t[k + 1].0.key());
                    }
                }
                lemma_lookup_absent(s1, v);
                lemma_lookup_absent(t1, v);
            } else {
                // lookups in the tails agree with lookups in the wholes
                assert(assoc_lookup(s, v) == assoc_lookup(s1, v));
                assert(assoc_lookup(t, v) == assoc_lookup(t1, v));
            }
        }
        lemma_canonical_unique(s1, t1);
        assert forall|k: int| 0 <= k < s.len() implies s[k] == t[k] by {
            if k > 0 {
                assert(s1[k - 1] == s[k]);
                assert(t1[k - 1] == t[k]);
            }
        }
        assert(s =~= t);
    }
}

/// Canonicalization order-independence, on the function itself: two term
/// lists holding the same multiset of `(identifier, coefficient)` pairs
/// canonicalize to the same combination, whatever their order.
pub fn canonicalize_permuted(t1: &LinComb, t2: &LinComb) -> (r: (
    CanonicalLinComb,
    CanonicalLinComb,
))
    requires
        t1.0@.to_multiset() == t2.0@.to_multiset(),
    ensures
        r.0.0@ == r.1.0@,
        forall|v: Var| #[trigger] assoc_lookup(r.0.0@, v) == coeff_in(t1.0@, v),
{
    // one addition brings the field algebra's laws into scope for the proof
    let probe = crate::field::fr_from_u64(0);
    let _ = fr_add(&probe, &probe);
    let c1 = t1.into_canonical();
    let c2 = t2.into_canonical();
    proof {
        lemma_coeff_in_permutation(t1.0@, t2.0@);
        assert forall|v: Var| #[trigger] assoc_lookup(c1.0@, v) == assoc_lookup(c2.0@, v) by {
            assert(coeff_in(t1.0@, v) == coeff_in(t2.0@, v));
        }
        lemma_canonical_unique(c1.0@, c2.0@);
    }
    (c1, c2)
}


} // verus!
