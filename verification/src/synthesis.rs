//! Constraint synthesis: walking the program's statements and turning each
//! constraint into a backend-native multiplication constraint, allocating
//! backend variables through a memoizing symbol table whose visibility
//! mirrors the circuit-level public/private classification.

use vstd::prelude::*;

use crate::ir::assoc_lookup;
use crate::ir::lemma_assoc_push;
use crate::ir::lemma_assoc_some_iff;
use crate::ir::LinComb;
use crate::ir::Parameter;
use crate::ir::ProgIterator;
use crate::ir::Statement;
use crate::ir::Var;
use crate::ir::Computation;
use crate::ir::Witness;
use crate::lincomb::coeff_in;
use crate::lincomb::lemma_coeff_some_iff;
use crate::lincomb::CanonicalLinComb;
use crate::Error;

verus! {

/// A backend variable handle: the built-in one-constant, a public instance
/// variable, or a private witness variable, each with its backend index.
#[derive(Clone, Copy, Debug, PartialEq, Eq, Structural)]
pub enum Handle {
    One,
    Instance(usize),
    Witness(usize),
}

/// The backend's constraint system, behind the shared reference the backend
/// hands out. Opaque to the verifier; the spec functions below name what it
/// holds, and the wrappers state how each backend call changes it.
#[verifier::external_body]
pub struct BackendSystem {
    pub cs: ark_relations::r1cs::ConstraintSystemRef<ark_bn254::Fr>,
}

/// Whether the reference holds a constraint system at all.
pub uninterp spec fn cs_is_live(s: BackendSystem) -> bool;

/// Whether the system is in shape-only (setup) mode, recording no values.
pub uninterp spec fn cs_setup_mode(s: BackendSystem) -> bool;

/// How many instance variables the system holds, the built-in one included.
pub uninterp spec fn cs_num_inst(s: BackendSystem) -> nat;

/// How many private witness variables the system holds.
pub uninterp spec fn cs_num_wit(s: BackendSystem) -> nat;

/// The recorded instance values, in allocation order.
pub uninterp spec fn cs_inst_vals(s: BackendSystem) -> Seq<ark_bn254::Fr>;

/// The recorded witness values, in allocation order.
pub uninterp spec fn cs_wit_vals(s: BackendSystem) -> Seq<ark_bn254::Fr>;

/// How many constraints the system holds.
pub uninterp spec fn cs_num_constraints(s: BackendSystem) -> nat;

/// Liveness and mode never change across allocations and constraints.
pub open spec fn cs_same_kind(a: BackendSystem, b: BackendSystem) -> bool {
    cs_is_live(b) == cs_is_live(a) && cs_setup_mode(b) == cs_setup_mode(a)
}

/// Relies on ark-relations' `ConstraintSystemRef::new_input_variable`: on a
/// live system it appends one instance variable and returns its index;
/// outside setup mode it also records the supplied value, failing with the
/// backend's missing-assignment error when none is supplied; on a dead
/// reference it fails with the backend's missing-system error.
#[verifier::external_body]
fn cs_new_input(s: &mut BackendSystem, val: Option<ark_bn254::Fr>) -> (r: Result<usize, Error>)
    ensures
        cs_is_live(*final(s)) == cs_is_live(*old(s)),
        cs_setup_mode(*final(s)) == cs_setup_mode(*old(s)),
        cs_num_wit(*final(s)) == cs_num_wit(*old(s)),
        cs_wit_vals(*final(s)) == cs_wit_vals(*old(s)),
        cs_num_constraints(*final(s)) == cs_num_constraints(*old(s)),
        !cs_is_live(*old(s)) ==> r is Err && r->Err_0 == Error::MissingConstraintSystem
            && *final(s) == *old(s),
        cs_is_live(*old(s)) && (cs_setup_mode(*old(s)) || val is Some) ==> {
            &&& r is Ok
            &&& r->Ok_0 as nat == cs_num_inst(*old(s))
            &&& cs_num_inst(*final(s)) == cs_num_inst(*old(s)) + 1
            &&& cs_inst_vals(*final(s)) == if cs_setup_mode(*old(s)) {
                cs_inst_vals(*old(s))
            } else {
                cs_inst_vals(*old(s)).push(val->Some_0)
            }
        },
        cs_is_live(*old(s)) && !cs_setup_mode(*old(s)) && val is None ==> r is Err
            && r->Err_0 == Error::MissingAssignment
            && cs_inst_vals(*final(s)) == cs_inst_vals(*old(s)),
{
    match s.cs.new_input_variable(
        || val.ok_or(ark_relations::r1cs::SynthesisError::AssignmentMissing),
    ) {
        Ok(ark_relations::r1cs::Variable::Instance(i)) => Ok(i),
        Ok(_) => Err(Error::MissingConstraintSystem),
        Err(ark_relations::r1cs::SynthesisError::AssignmentMissing) => Err(
            Error::MissingAssignment,
        ),
        Err(_) => Err(Error::MissingConstraintSystem),
    }
}

/// Relies on ark-relations' `ConstraintSystemRef::new_witness_variable`: as
/// `cs_new_input`, but appending a private witness variable and recording
/// the value among the witness assignments.
#[verifier::external_body]
fn cs_new_witness(s: &mut BackendSystem, val: Option<ark_bn254::Fr>) -> (r: Result<
    usize,
    Error,
>)
    ensures
        cs_is_live(*final(s)) == cs_is_live(*old(s)),
        cs_setup_mode(*final(s)) == cs_setup_mode(*old(s)),
        cs_num_inst(*final(s)) == cs_num_inst(*old(s)),
        cs_inst_vals(*final(s)) == cs_inst_vals(*old(s)),
        cs_num_constraints(*final(s)) == cs_num_constraints(*old(s)),
        !cs_is_live(*old(s)) ==> r is Err && r->Err_0 == Error::MissingConstraintSystem
            && *final(s) == *old(s),
        cs_is_live(*old(s)) && (cs_setup_mode(*old(s)) || val is Some) ==> {
            &&& r is Ok
            &&& r->Ok_0 as nat == cs_num_wit(*old(s))
            &&& cs_num_wit(*final(s)) == cs_num_wit(*old(s)) + 1
            &&& cs_wit_vals(*final(s)) == if cs_setup_mode(*old(s)) {
                cs_wit_vals(*old(s))
            } else {
                cs_wit_vals(*old(s)).push(val->Some_0)
            }
        },
        cs_is_live(*old(s)) && !cs_setup_mode(*old(s)) && val is None ==> r is Err
            && r->Err_0 == Error::MissingAssignment
            && cs_wit_vals(*final(s)) == cs_wit_vals(*old(s)),
{
    match s.cs.new_witness_variable(
        || val.ok_or(ark_relations::r1cs::SynthesisError::AssignmentMissing),
    ) {
        Ok(ark_relations::r1cs::Variable::Witness(i)) => Ok(i),
        Ok(_) => Err(Error::MissingConstraintSystem),
        Err(ark_relations::r1cs::SynthesisError::AssignmentMissing) => Err(
            Error::MissingAssignment,
        ),
        Err(_) => Err(Error::MissingConstraintSystem),
    }
}

/// Relies on ark-relations' `ConstraintSystemRef::enforce_constraint`: on a
/// live system it records the constraint `a * b = c` over the given
/// (coefficient, variable) terms and increments the constraint count (the
/// coefficient matrices themselves are materialized only in the modes that
/// request them); on a dead reference it fails with the backend's
/// missing-system error.
#[verifier::external_body]
fn cs_enforce(
    s: &mut BackendSystem,
    a: &Vec<(ark_bn254::Fr, Handle)>,
    b: &Vec<(ark_bn254::Fr, Handle)>,
    c: &Vec<(ark_bn254::Fr, Handle)>,
) -> (r: Result<(), Error>)
    ensures
        cs_is_live(*final(s)) == cs_is_live(*old(s)),
        cs_setup_mode(*final(s)) == cs_setup_mode(*old(s)),
        cs_num_inst(*final(s)) == cs_num_inst(*old(s)),
        cs_num_wit(*final(s)) == cs_num_wit(*old(s)),
        cs_inst_vals(*final(s)) == cs_inst_vals(*old(s)),
        cs_wit_vals(*final(s)) == cs_wit_vals(*old(s)),
        !cs_is_live(*old(s)) ==> r is Err && r->Err_0 == Error::MissingConstraintSystem
            && *final(s) == *old(s),
        cs_is_live(*old(s)) ==> r is Ok && cs_num_constraints(*final(s))
            == cs_num_constraints(*old(s)) + 1,
{
    let f = |l: &Vec<(ark_bn254::Fr, Handle)>| ark_relations::r1cs::LinearCombination(
        l.iter().map(|t: &(ark_bn254::Fr, Handle)| (t.0, match t.1 {
            Handle::One => ark_relations::r1cs::Variable::One,
            Handle::Instance(i) => ark_relations::r1cs::Variable::Instance(i),
            Handle::Witness(j) => ark_relations::r1cs::Variable::Witness(j),
        })).collect(),
    );
    match s.cs.enforce_constraint(f(a), f(b), f(c)) {
        Ok(()) => Ok(()),
        Err(_) => Err(Error::MissingConstraintSystem),
    }
}

/// The ephemeral map from circuit variable to backend handle, scoped to one
/// synthesis pass and never reused across passes.
pub struct SymbolTable(pub Vec<(Var, Handle)>);

impl SymbolTable {
    /// The handle this table binds to `v`, if any.
    pub open spec fn spec_get(self, v: Var) -> Option<Handle> {
        assoc_lookup(self.0@, v)
    }

    /// A fresh, empty table for one synthesis pass.
    pub fn new() -> (r: SymbolTable)
        ensures
            r.0@.len() == 0,
            forall|v: Var| r.spec_get(v) is None,
    {
        SymbolTable(Vec::new())
    }

    /// Read the handle bound to `v`.
    pub fn get(&self, v: &Var) -> (r: Option<Handle>)
        ensures
            r == self.spec_get(*v),
    {
        let mut i: usize = 0;
        assert(self.0@.skip(0) =~= self.0@);
        while i < self.0.len()
            invariant
                i <= self.0@.len(),
                assoc_lookup(self.0@, *v) == assoc_lookup(self.0@.skip(i as int), *v),
            decreases self.0@.len() - i,
        {
            let ghost pre = self.0@.skip(i as int);
            assert(pre.first() == self.0@[i as int]);
            if self.0[i].0 == *v {
                return Some(self.0[i].1);
            }
            assert(pre.drop_first() =~= self.0@.skip(i as int + 1));
            i += 1;
        }
        assert(self.0@.skip(i as int).len() == 0);
        None
    }
}

/// Every binding of `a` is kept unchanged in `b`.
pub open spec fn table_extends(a: Seq<(Var, Handle)>, b: Seq<(Var, Handle)>) -> bool {
    forall|v: Var| assoc_lookup(a, v) is Some ==> #[trigger] assoc_lookup(b, v)
        == assoc_lookup(a, v)
}

/// In value-recording mode, every variable the table has allocated (but the
/// constant) had its value present in the witness store.
pub open spec fn table_bound(t: Seq<(Var, Handle)>, w: Witness) -> bool {
    forall|k: int| 0 <= k < t.len() ==> t[k].0 == Var::One || #[trigger] w.spec_get(t[k].0)
        is Some
}

/// Allocate the backend variable for `v`, memoized by the symbol table: the
/// constant maps to the backend's built-in one-handle, a public output to an
/// instance variable, any other variable to a private witness variable, its
/// value drawn from the read-only witness store on first use — never
/// consulted in shape-only mode, required otherwise.
pub fn allocate(
    cs: &mut BackendSystem,
    symbols: &mut SymbolTable,
    witness: &Witness,
    v: Var,
) -> (r: Result<Handle, Error>)
    ensures
        cs_same_kind(*old(cs), *final(cs)),
        cs_num_constraints(*final(cs)) == cs_num_constraints(*old(cs)),
        old(symbols).spec_get(v) is Some ==> r == Ok::<Handle, Error>(
            old(symbols).spec_get(v)->Some_0,
        ) && *final(cs) == *old(cs) && *final(symbols) == *old(symbols),
        match r {
            Ok(h) => {
                &&& final(symbols).spec_get(v) == Some(h)
                &&& (old(symbols).spec_get(v) is Some ==> final(symbols).0@ == old(symbols).0@)
                &&& (old(symbols).spec_get(v) is None ==> final(symbols).0@ == old(
                    symbols,
                ).0@.push((v, h)))
                &&& (old(symbols).spec_get(v) is None && v == Var::One ==> h == Handle::One
                    && *final(cs) == *old(cs))
                &&& (old(symbols).spec_get(v) is None && v != Var::One ==> {
                    &&& cs_is_live(*old(cs))
                    &&& (v.is_out() <==> h is Instance)
                    &&& (h is Instance || h is Witness)
                    &&& (!cs_setup_mode(*old(cs)) ==> witness.spec_get(v) is Some)
                })
            },
            Err(e) => {
                &&& *final(symbols) == *old(symbols)
                &&& (e == Error::MissingAssignment ==> cs_is_live(*old(cs)) && !cs_setup_mode(
                    *old(cs),
                ) && witness.spec_get(v) is None && v != Var::One)
                &&& (e != Error::MissingAssignment ==> e == Error::MissingConstraintSystem
                    && !cs_is_live(*old(cs)))
            },
        },
        (v == Var::One || old(symbols).spec_get(v) is Some || (cs_is_live(*old(cs)) && (
        cs_setup_mode(*old(cs)) || witness.spec_get(v) is Some))) ==> r is Ok,
{
    match symbols.get(&v) {
        Some(h) => Ok(h),
        None => {
            if matches!(v, Var::One) {
                symbols.0.push((v, Handle::One));
                proof {
                    lemma_assoc_push(old(symbols).0@, (v, Handle::One), v);
                }
                Ok(Handle::One)
            } else {
                let val = witness.get(&v);
                if v.is_output() {
                    match cs_new_input(cs, val) {
                        Ok(i) => {
                            let h = Handle::Instance(i);
                            symbols.0.push((v, h));
                            proof {
                                lemma_assoc_push(old(symbols).0@, (v, h), v);
                            }
                            Ok(h)
                        },
                        Err(e) => Err(e),
                    }
                } else {
                    match cs_new_witness(cs, val) {
                        Ok(i) => {
                            let h = Handle::Witness(i);
                            symbols.0.push((v, h));
                            proof {
                                lemma_assoc_push(old(symbols).0@, (v, h), v);
                            }
                            Ok(h)
                        },
                        Err(e) => Err(e),
                    }
                }
            }
        },
    }
}

/// Allocate the backend variable for a program argument, memoized like any
/// other variable but classified by the argument's declared visibility: a
/// private argument becomes a witness variable, a public one an instance
/// variable.
pub fn allocate_argument(
    cs: &mut BackendSystem,
    symbols: &mut SymbolTable,
    witness: &Witness,
    a: Parameter,
) -> (r: Result<Handle, Error>)
    ensures
        cs_same_kind(*old(cs), *final(cs)),
        cs_num_constraints(*final(cs)) == cs_num_constraints(*old(cs)),
        match r {
            Ok(h) => {
                &&& final(symbols).spec_get(a.id) == Some(h)
                &&& (old(symbols).spec_get(a.id) is Some ==> final(symbols).0@ == old(
                    symbols,
                ).0@ && *final(cs) == *old(cs) && h == old(symbols).spec_get(a.id)->Some_0)
                &&& (old(symbols).spec_get(a.id) is None ==> final(symbols).0@ == old(
                    symbols,
                ).0@.push((a.id, h)))
                &&& (old(symbols).spec_get(a.id) is None ==> {
                    &&& cs_is_live(*old(cs))
                    &&& (!a.private <==> h is Instance)
                    &&& (h is Instance || h is Witness)
                    &&& (!cs_setup_mode(*old(cs)) ==> witness.spec_get(a.id) is Some)
                })
            },
            Err(e) => {
                &&& *final(symbols) == *old(symbols)
                &&& (e == Error::MissingAssignment ==> cs_is_live(*old(cs)) && !cs_setup_mode(
                    *old(cs),
                ) && witness.spec_get(a.id) is None)
                &&& (e != Error::MissingAssignment ==> e == Error::MissingConstraintSystem
                    && !cs_is_live(*old(cs)))
            },
        },
        (old(symbols).spec_get(a.id) is Some || (cs_is_live(*old(cs)) && (cs_setup_mode(
            *old(cs),
        ) || witness.spec_get(a.id) is Some))) ==> r is Ok,
{
    match symbols.get(&a.id) {
        Some(h) => Ok(h),
        None => {
            let val = witness.get(&a.id);
            if a.private {
                match cs_new_witness(cs, val) {
                    Ok(i) => {
                        let h = Handle::Witness(i);
                        symbols.0.push((a.id, h));
                        proof {
                            lemma_assoc_push(old(symbols).0@, (a.id, h), a.id);
                        }
                        Ok(h)
                    },
                    Err(e) => Err(e),
                }
            } else {
                match cs_new_input(cs, val) {
                    Ok(i) => {
                        let h = Handle::Instance(i);
                        symbols.0.push((a.id, h));
                        proof {
                            lemma_assoc_push(old(symbols).0@, (a.id, h), a.id);
                        }
                        Ok(h)
                    },
                    Err(e) => Err(e),
                }
            }
        },
    }
}

/// Whether a combination references `v`.
pub open spec fn lc_refs(l: LinComb, v: Var) -> bool {
    exists|k: int| 0 <= k < l.0@.len() && (#[trigger] l.0@[k]).0 == v
}

/// Whether a statement references `v`.
pub open spec fn stmt_refs(s: Statement, v: Var) -> bool {
    match s {
        Statement::Constraint(q, lin) => lc_refs(q.left, v) || lc_refs(q.right, v) || lc_refs(
            lin,
            v,
        ),
        Statement::Directive => false,
    }
}

/// Whether the program references `v`, as an argument or in a constraint.
pub open spec fn references(p: ProgIterator, v: Var) -> bool {
    (exists|k: int| 0 <= k < p.arguments@.len() && (#[trigger] p.arguments@[k]).id == v)
        || (exists|k: int| 0 <= k < p.statements@.len() && stmt_refs(
        #[trigger] p.statements@[k],
        v,
    ))
}

/// The value an optional witness binds to `v`.
pub open spec fn opt_get(w: Option<Witness>, v: Var) -> Option<ark_bn254::Fr> {
    match w {
        Some(w0) => w0.spec_get(v),
        None => None,
    }
}

/// Every variable the program references (but the constant) has a value.
pub open spec fn all_bound(p: ProgIterator, w: Option<Witness>) -> bool {
    forall|v: Var| references(p, v) && v != Var::One ==> #[trigger] opt_get(w, v) is Some
}

/// Relies on matching the reference's variants: whether it holds a system.
#[verifier::external_body]
fn cs_live(s: &BackendSystem) -> (r: bool)
    ensures
        r == cs_is_live(*s),
{
    !matches!(s.cs, ark_relations::r1cs::ConstraintSystemRef::None)
}

/// Turn a canonicalized combination into backend (coefficient, handle)
/// terms, allocating each referenced variable through the symbol table.
pub fn ark_combination(
    l: &CanonicalLinComb,
    cs: &mut BackendSystem,
    symbols: &mut SymbolTable,
    witness: &Witness,
) -> (r: Result<Vec<(ark_bn254::Fr, Handle)>, Error>)
    ensures
        cs_same_kind(*old(cs), *final(cs)),
        cs_num_constraints(*final(cs)) == cs_num_constraints(*old(cs)),
        table_extends(old(symbols).0@, final(symbols).0@),
        !cs_setup_mode(*old(cs)) && table_bound(old(symbols).0@, *witness) ==> table_bound(
            final(symbols).0@,
            *witness,
        ),
        match r {
            Ok(terms) => {
                &&& terms@.len() == l.0@.len()
                &&& forall|k: int|
                    0 <= k < terms@.len() ==> (#[trigger] terms@[k]).0 == l.0@[k].1
                &&& forall|k: int|
                    0 <= k < l.0@.len() ==> final(symbols).spec_get((#[trigger] l.0@[k]).0)
                        == Some(terms@[k].1)
            },
            Err(e) => {
                &&& (e == Error::MissingAssignment ==> cs_is_live(*old(cs)) && !cs_setup_mode(
                    *old(cs),
                ) && exists|k: int|
                    0 <= k < l.0@.len() && witness.spec_get((#[trigger] l.0@[k]).0) is None
                        && l.0@[k].0 != Var::One)
                &&& (e != Error::MissingAssignment ==> e == Error::MissingConstraintSystem
                    && !cs_is_live(*old(cs)))
            },
        },
        (cs_is_live(*old(cs)) && (cs_setup_mode(*old(cs)) || forall|k: int|
            0 <= k < l.0@.len() ==> (#[trigger] l.0@[k]).0 == Var::One || witness.spec_get(
                l.0@[k].0,
            ) is Some)) ==> r is Ok,
{
    let mut out: Vec<(ark_bn254::Fr, Handle)> = Vec::new();
    let mut i: usize = 0;
    while i < l.0.len()
        invariant
            i <= l.0@.len(),
            out@.len() == i,
            cs_same_kind(*old(cs), *cs),
            cs_num_constraints(*cs) == cs_num_constraints(*old(cs)),
            table_extends(old(symbols).0@, symbols.0@),
            !cs_setup_mode(*old(cs)) && table_bound(old(symbols).0@, *witness) ==> table_bound(
                symbols.0@,
                *witness,
            ),
            forall|k: int|
                0 <= k < i ==> (#[trigger] out@[k]).0 == l.0@[k].1 && symbols.spec_get(
                    l.0@[k].0,
                ) == Some(out@[k].1),
        decreases l.0@.len() - i,
    {
        let (v, c) = l.0[i];
        let ghost pre_sym = symbols.0@;
        match allocate(cs, symbols, witness, v) {
            Ok(h) => {
                out.push((c, h));
                proof {
                    if symbols.0@ != pre_sym {
                        assert(symbols.0@ == pre_sym.push((v, h)));
                        assert forall|w: Var| assoc_lookup(pre_sym, w) is Some implies
                            #[trigger] assoc_lookup(symbols.0@, w) == assoc_lookup(
                            pre_sym,
                            w,
                        ) by {
                            lemma_assoc_push(pre_sym, (v, h), w);
                        }
                    }
                }
            },
            Err(e) => {
                proof {
                    assert(l.0@[i as int].0 == v);
                }
                return Err(e);
            },
        }
        i += 1;
    }
    Ok(out)
}

impl ProgIterator {
    /// Synthesize this program into the backend's constraint system: in
    /// program order, canonicalize and allocate each constraint's three
    /// combinations and enforce the multiplication constraint, ignoring
    /// non-constraint statements. The pass is atomic: the first error aborts
    /// the call. Outside shape-only mode it succeeds exactly when the witness
    /// binds every referenced variable, and a missing binding is the hard
    /// failure `MissingAssignment`, never defaulted.
    pub fn generate_constraints(
        self,
        cs: &mut BackendSystem,
        witness: Option<Witness>,
    ) -> (r: Result<(), Error>)
        ensures
            cs_same_kind(*old(cs), *final(cs)),
            !cs_is_live(*old(cs)) ==> r is Err && r->Err_0 == Error::MissingConstraintSystem,
            cs_is_live(*old(cs)) && (cs_setup_mode(*old(cs)) || all_bound(self, witness))
                ==> r is Ok,
            cs_is_live(*old(cs)) && !cs_setup_mode(*old(cs)) && !all_bound(self, witness)
                ==> r is Err && r->Err_0 == Error::MissingAssignment,
            r is Ok ==> cs_num_constraints(*final(cs)) == cs_num_constraints(*old(cs))
                + self.spec_constraint_count(),
    {
        if !cs_live(cs) {
            return Err(Error::MissingConstraintSystem);
        }
        let empty_w = Witness::empty();
        let w: &Witness = match &witness {
            Some(w0) => w0,
            None => &empty_w,
        };
        assert(forall|v: Var| #[trigger] w.spec_get(v) == opt_get(witness, v));

        let mut symbols = SymbolTable::new();
        let ghost empty_sym = symbols.0@;
        symbols.0.push((Var::One, Handle::One));
        proof {
            lemma_assoc_push(empty_sym, (Var::One, Handle::One), Var::One);
        }

        let mut i: usize = 0;
        while i < self.arguments.len()
            invariant
                i <= self.arguments@.len(),
                cs_same_kind(*old(cs), *cs),
                cs_is_live(*old(cs)),
                cs_num_constraints(*cs) == cs_num_constraints(*old(cs)),
                symbols.spec_get(Var::One) == Some(Handle::One),
                !cs_setup_mode(*old(cs)) ==> table_bound(symbols.0@, *w),
                forall|k: int|
                    0 <= k < i ==> symbols.spec_get((#[trigger] self.arguments@[k]).id)
                        is Some,
                forall|v: Var| #[trigger] w.spec_get(v) == opt_get(witness, v),
            decreases self.arguments@.len() - i,
        {
            let a = self.arguments[i];
            let ghost pre_sym = symbols.0@;
            match allocate_argument(cs, &mut symbols, w, a) {
                Ok(h) => {
                    proof {
                        if symbols.0@ != pre_sym {
                            assert(symbols.0@ == pre_sym.push((a.id, h)));
                            assert forall|u: Var| assoc_lookup(pre_sym, u) is Some implies
                                #[trigger] assoc_lookup(symbols.0@, u) == assoc_lookup(
                                pre_sym,
                                u,
                            ) by {
                                lemma_assoc_push(pre_sym, (a.id, h), u);
                            }
                        }
                    }
                },
                Err(e) => {
                    proof {
                        assert(e == Error::MissingAssignment);
                        assert(w.spec_get(a.id) is None);
                        assert(a.id != Var::One);
                        assert(self.arguments@[i as int].id == a.id);
                        assert(references(self, a.id));
                        assert(opt_get(witness, a.id) is None);
                        assert(!all_bound(self, witness));
                        assert(!cs_setup_mode(*old(cs)));
                    }
                    return Err(e);
                },
            }
            i += 1;
        }

        let ghost nconstr0 = cs_num_constraints(*cs);
        let mut j: usize = 0;
        while j < self.statements.len()
            invariant
                j <= self.statements@.len(),
                cs_same_kind(*old(cs), *cs),
                cs_is_live(*old(cs)),
                cs_num_constraints(*cs) == cs_num_constraints(*old(cs))
                    + self.statements@.take(j as int).filter(
                    |s: Statement| s is Constraint,
                ).len(),
                symbols.spec_get(Var::One) == Some(Handle::One),
                !cs_setup_mode(*old(cs)) ==> table_bound(symbols.0@, *w),
                forall|k: int|
                    0 <= k < self.arguments@.len() ==> symbols.spec_get(
                        (#[trigger] self.arguments@[k]).id,
                    ) is Some,
                forall|k: int, v: Var|
                    0 <= k < j && #[trigger] stmt_refs(self.statements@[k], v)
                        ==> symbols.spec_get(v) is Some,
                forall|v: Var| #[trigger] w.spec_get(v) == opt_get(witness, v),
            decreases self.statements@.len() - j,
        {
            let ghost prefix = self.statements@.take(j as int);
            assert(self.statements@.take(j as int + 1).drop_last() =~= prefix);
            reveal_with_fuel(Seq::filter, 2);
            let ghost sym_before = symbols.0@;
            match &self.statements[j] {
                Statement::Constraint(quad, lin) => {
                    let a_can = quad.left.into_canonical();
                    let b_can = quad.right.into_canonical();
                    let c_can = lin.into_canonical();
                    let ghost sym0 = symbols.0@;
                    let a_terms = match ark_combination(&a_can, cs, &mut symbols, w) {
                        Ok(t) => t,
                        Err(e) => {
                            proof {
                                assert(cs_is_live(*cs));
                                assert(e == Error::MissingAssignment);
                                assert(lc_in_stmt(quad.left, self.statements@[j as int]));
                                lemma_combination_err(quad.left, a_can, *w, witness, self, j as int, e);
                                assert(!all_bound(self, witness));
                                assert(!cs_setup_mode(*old(cs)));
                            }
                            return Err(e);
                        },
                    };
                    let ghost sym_a = symbols.0@;
                    let b_terms = match ark_combination(&b_can, cs, &mut symbols, w) {
                        Ok(t) => t,
                        Err(e) => {
                            proof {
                                assert(cs_is_live(*cs));
                                assert(e == Error::MissingAssignment);
                                assert(lc_in_stmt(quad.right, self.statements@[j as int]));
                                lemma_combination_err(quad.right, b_can, *w, witness, self, j as int, e);
                                assert(!all_bound(self, witness));
                                assert(!cs_setup_mode(*old(cs)));
                            }
                            return Err(e);
                        },
                    };
                    let ghost sym_b = symbols.0@;
                    let c_terms = match ark_combination(&c_can, cs, &mut symbols, w) {
                        Ok(t) => t,
                        Err(e) => {
                            proof {
                                assert(cs_is_live(*cs));
                                assert(e == Error::MissingAssignment);
                                assert(lc_in_stmt(*lin, self.statements@[j as int]));
                                lemma_combination_err(*lin, c_can, *w, witness, self, j as int, e);
                                assert(!all_bound(self, witness));
                                assert(!cs_setup_mode(*old(cs)));
                            }
                            return Err(e);
                        },
                    };
                    match cs_enforce(cs, &a_terms, &b_terms, &c_terms) {
                        Ok(()) => {},
                        Err(e) => {
                            return Err(e);
                        },
                    }
                    proof {
                        let stmt = self.statements@[j as int];
                        let sym_c = symbols.0@;
                        assert forall|v: Var| #[trigger] stmt_refs(stmt, v) implies
                            symbols.spec_get(v) is Some by {
                            if lc_refs(quad.left, v) {
                                lemma_lc_covered(quad.left, a_can, v, sym_a);
                                assert(assoc_lookup(sym_b, v) == assoc_lookup(sym_a, v));
                                assert(assoc_lookup(sym_c, v) == assoc_lookup(sym_b, v));
                            } else if lc_refs(quad.right, v) {
                                lemma_lc_covered(quad.right, b_can, v, sym_b);
                                assert(assoc_lookup(sym_c, v) == assoc_lookup(sym_b, v));
                            } else {
                                lemma_lc_covered(*lin, c_can, v, sym_c);
                            }
                        }
                    }
                },
                Statement::Directive => {
                },
            }
            proof {
                assert forall|k: int, v: Var|
                    0 <= k < j + 1 && #[trigger] stmt_refs(self.statements@[k], v) implies
                    symbols.spec_get(v) is Some by {
                    if k < j {
                        assert(assoc_lookup(sym_before, v) is Some);
                    }
                }
            }
            j += 1;
        }
        assert(self.statements@.take(self.statements@.len() as int) =~= self.statements@);
        proof {
            if !cs_setup_mode(*old(cs)) {
                assert forall|v: Var| references(self, v) && v != Var::One implies #[trigger]
                    opt_get(witness, v) is Some by {
                    assert(symbols.spec_get(v) is Some);
                    lemma_assoc_some_iff(symbols.0@, v);
                    let k = choose|k: int|
                        0 <= k < symbols.0@.len() && symbols.0@[k].0 == v;
                    assert(w.spec_get(symbols.0@[k].0) is Some);
                }
                assert(all_bound(self, witness));
            }
        }
        Ok(())
    }
}

/// A combination's allocation failure pins the whole pass's failure: the
/// missing variable occurs in the original combination of some statement, so
/// the program is not fully bound.
proof fn lemma_combination_err(
    orig: LinComb,
    canon: CanonicalLinComb,
    w: Witness,
    witness: Option<Witness>,
    p: ProgIterator,
    j: int,
    e: Error,
)
    requires
        forall|v: Var| #[trigger] assoc_lookup(canon.0@, v) == coeff_in(orig.0@, v),
        forall|v: Var| #[trigger] w.spec_get(v) == opt_get(witness, v),
        0 <= j < p.statements@.len(),
        lc_in_stmt(orig, p.statements@[j]),
        e == Error::MissingAssignment ==> exists|k: int|
            0 <= k < canon.0@.len() && w.spec_get((#[trigger] canon.0@[k]).0) is None
                && canon.0@[k].0 != Var::One,
    ensures
        e == Error::MissingAssignment ==> !all_bound(p, witness),
{
    if e == Error::MissingAssignment {
        let k = choose|k: int|
            0 <= k < canon.0@.len() && w.spec_get((canon.0@[k]).0) is None && canon.0@[k].0
                != Var::One;
        let v = canon.0@[k].0;
        lemma_assoc_some_iff(canon.0@, v);
        assert(assoc_lookup(canon.0@, v) is Some);
        assert(coeff_in(orig.0@, v) is Some);
        lemma_coeff_some_iff(orig.0@, v);
        assert(lc_refs(orig, v));
        assert(stmt_refs(p.statements@[j], v));
        assert(references(p, v));
        assert(opt_get(witness, v) is None);
    }
}

/// Whether a combination is one of a statement's three sides.
pub open spec fn lc_in_stmt(l: LinComb, s: Statement) -> bool {
    match s {
        Statement::Constraint(q, lin) => l == q.left || l == q.right || l == lin,
        Statement::Directive => false,
    }
}

/// Every variable a combination references is bound in a table that covers
/// its canonical form.
proof fn lemma_lc_covered(
    orig: LinComb,
    canon: CanonicalLinComb,
    v: Var,
    t: Seq<(Var, Handle)>,
)
    requires
        lc_refs(orig, v),
        forall|u: Var| #[trigger] assoc_lookup(canon.0@, u) == coeff_in(orig.0@, u),
        forall|k: int|
            0 <= k < canon.0@.len() ==> #[trigger] assoc_lookup(t, canon.0@[k].0) is Some,
    ensures
        assoc_lookup(t, v) is Some,
{
    lemma_coeff_some_iff(orig.0@, v);
    assert(coeff_in(orig.0@, v) is Some);
    assert(assoc_lookup(canon.0@, v) is Some);
    lemma_assoc_some_iff(canon.0@, v);
    let k = choose|k: int| 0 <= k < canon.0@.len() && canon.0@[k].0 == v;
    assert(assoc_lookup(t, canon.0@[k].0) is Some);
}


impl crate::ir::Computation {
    /// Synthesize this computation's program into the backend system, in
    /// witness mode when the computation carries a witness and in shape-only
    /// mode otherwise.
    pub fn generate_constraints(self, cs: &mut BackendSystem) -> (r: Result<(), Error>)
        ensures
            cs_same_kind(*old(cs), *final(cs)),
            !cs_is_live(*old(cs)) ==> r is Err && r->Err_0 == Error::MissingConstraintSystem,
            cs_is_live(*old(cs)) && (cs_setup_mode(*old(cs)) || all_bound(
                self.program,
                self.witness,
            )) ==> r is Ok,
            cs_is_live(*old(cs)) && !cs_setup_mode(*old(cs)) && !all_bound(
                self.program,
                self.witness,
            ) ==> r is Err && r->Err_0 == Error::MissingAssignment,
            r is Ok ==> cs_num_constraints(*final(cs)) == cs_num_constraints(*old(cs))
                + self.program.spec_constraint_count(),
    {
        let Computation { program, witness } = self;
        program.generate_constraints(cs, witness)
    }
}


} // verus!
