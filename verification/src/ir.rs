//! The circuit intermediate representation: variables, linear combinations,
//! constraint statements, witnesses, and the program that a computation
//! pairs with an optional witness.

use vstd::prelude::*;

use crate::field::fr_add_of;
use crate::Error;

verus! {

/// A circuit variable identifier. The constant-one variable is
/// distinguished, and public-output variables are marked at
/// program-construction time by their own constructor.
#[derive(Clone, Copy, Debug, PartialEq, Eq, Structural, Hash)]
pub enum Var {
    /// The distinguished constant-one variable.
    One,
    /// A public output variable, with its output index.
    Out(u64),
    /// Any other circuit variable, with its identifier.
    Aux(u64),
}

impl Var {
    /// A total order on identifiers: the constant first, then outputs by
    /// index, then the remaining variables by identifier.
    pub open spec fn key(self) -> int {
        match self {
            Var::One => 0,
            Var::Out(i) => 1 + i as int,
            Var::Aux(i) => 2 + u64::MAX as int + i as int,
        }
    }

    /// Whether this variable is a public output of the circuit.
    pub open spec fn is_out(self) -> bool {
        self is Out
    }

    /// Whether this variable is a public output of the circuit.
    pub fn is_output(&self) -> (r: bool)
        ensures
            r == self.is_out(),
    {
        matches!(self, Var::Out(_))
    }

    /// Compare two identifiers in the canonical order.
    pub fn le(&self, other: &Var) -> (r: bool)
        ensures
            r == (self.key() <= other.key()),
    {
        match (self, other) {
            (Var::One, _) => true,
            (Var::Out(_), Var::One) => false,
            (Var::Out(i), Var::Out(j)) => i <= j,
            (Var::Out(_), Var::Aux(_)) => true,
            (Var::Aux(_), Var::One) => false,
            (Var::Aux(_), Var::Out(_)) => false,
            (Var::Aux(i), Var::Aux(j)) => i <= j,
        }
    }
}

/// A circuit argument: an identifier together with its visibility.
#[derive(Clone, Copy, Debug)]
pub struct Parameter {
    pub id: Var,
    pub private: bool,
}

/// A term list: a circuit-level linear combination before canonicalization.
pub struct LinComb(pub Vec<(Var, ark_bn254::Fr)>);

/// The product of two linear combinations, the left side of a constraint.
pub struct QuadComb {
    pub left: LinComb,
    pub right: LinComb,
}

/// One program statement. Only constraints are synthesized; every other
/// statement kind is a directive produced and consumed upstream, opaque and
/// untouched at this layer.
pub enum Statement {
    /// `left * right = output` over linear combinations.
    Constraint(QuadComb, LinComb),
    /// Any non-constraint statement; passed through untouched.
    Directive,
}

/// The value assignment for one concrete run of the circuit: a read-only
/// store from variable identifier to field value.
pub struct Witness(pub Vec<(Var, ark_bn254::Fr)>);

/// The first value bound to `v` in an association list, if any.
pub open spec fn assoc_lookup<T>(entries: Seq<(Var, T)>, v: Var) -> Option<T>
    decreases entries.len(),
{
    if entries.len() == 0 {
        None
    } else if entries.first().0 == v {
        Some(entries.first().1)
    } else {
        assoc_lookup(entries.drop_first(), v)
    }
}

/// Appending an entry leaves earlier bindings in place and binds its
/// identifier only where it was unbound.
pub proof fn lemma_assoc_push<T>(entries: Seq<(Var, T)>, e: (Var, T), v: Var)
    ensures
        assoc_lookup(entries.push(e), v) == if assoc_lookup(entries, v) is Some {
            assoc_lookup(entries, v)
        } else if e.0 == v {
            Some(e.1)
        } else {
            None::<T>
        },
    decreases entries.len(),
{
    if entries.len() == 0 {
        assert(entries.push(e).first() == e);
        assert(entries.push(e).drop_first() =~= Seq::<(Var, T)>::empty());
        assert(assoc_lookup(entries.push(e).drop_first(), v) is None);
    } else {
        assert(entries.push(e).first() == entries.first());
        assert(entries.push(e).drop_first() =~= entries.drop_first().push(e));
        lemma_assoc_push(entries.drop_first(), e, v);
        if entries.first().0 == v {
            assert(assoc_lookup(entries, v) == Some(entries.first().1));
            assert(assoc_lookup(entries.push(e), v) == Some(entries.first().1));
        } else {
            assert(assoc_lookup(entries, v) == assoc_lookup(entries.drop_first(), v));
            assert(assoc_lookup(entries.push(e), v) == assoc_lookup(
                entries.drop_first().push(e),
                v,
            ));
        }
    }
}

/// A lookup succeeds exactly where some entry binds the identifier.
pub proof fn lemma_assoc_some_iff<T>(entries: Seq<(Var, T)>, v: Var)
    ensures
        assoc_lookup(entries, v) is Some <==> exists|k: int|
            0 <= k < entries.len() && entries[k].0 == v,
    decreases entries.len(),
{
    if entries.len() > 0 {
        lemma_assoc_some_iff(entries.drop_first(), v);
        if entries.first().0 == v {
        } else {
            assert(forall|k: int|
                0 <= k < entries.drop_first().len() ==> entries.drop_first()[k] == entries[k
                    + 1]);
            if exists|k: int| 0 <= k < entries.len() && entries[k].0 == v {
                let k = choose|k: int| 0 <= k < entries.len() && entries[k].0 == v;
                assert(entries.drop_first()[k - 1].0 == v);
            }
        }
    }
}

impl Witness {
    /// The value this witness binds to `v`, if any.
    pub open spec fn spec_get(self, v: Var) -> Option<ark_bn254::Fr> {
        assoc_lookup(self.0@, v)
    }

    /// An empty witness, for shape-only synthesis.
    pub fn empty() -> (r: Witness)
        ensures
            r.0@.len() == 0,
            forall|v: Var| r.spec_get(v) is None,
    {
        Witness(Vec::new())
    }

    /// Read the value bound to `v`. The store is read-only: values are never
    /// consumed, so a duplicate read is detected by the symbol table, not by
    /// emptiness here.
    pub fn get(&self, v: &Var) -> (r: Option<ark_bn254::Fr>)
        ensures
            r == self.spec_get(*v),
    {
        let mut i: usize = 0;
        assert(self.0@.skip(0) =~= self.0@);
        while i < self.0.len()
            invariant
                i <= self.0@.len(),
                assoc_lookup(self.0@, *v) == assoc_lookup(self.0@.skip(i as int), *v),
            decreases self.0@.len() - i,
        {
            let ghost pre = self.0@.skip(i as int);
            assert(pre.first() == self.0@[i as int]);
            if self.0[i].0 == *v {
                return Some(self.0[i].1);
            }
            assert(pre.drop_first() =~= self.0@.skip(i as int + 1));
            i += 1;
        }
        assert(self.0@.skip(i as int).len() == 0);
        None
    }
}

/// An ordered program: its statements, its argument list with per-variable
/// visibility, and the number of public outputs it returns.
pub struct ProgIterator {
    pub arguments: Vec<Parameter>,
    pub return_count: usize,
    pub statements: Vec<Statement>,
}

/// The variables whose values a verifier sees: the public arguments in
/// argument order, then the output variables in index order.
pub open spec fn public_input_vars(p: ProgIterator) -> Seq<Var> {
    p.arguments@.filter(|a: Parameter| !a.private).map_values(|a: Parameter| a.id) + Seq::new(
        p.return_count as nat,
        |i: int| Var::Out(i as u64),
    )
}

/// The values a witness binds to `vars`, in order; `None` as soon as any
/// variable is unbound.
pub open spec fn lookup_all(w: Witness, vars: Seq<Var>) -> Option<Seq<ark_bn254::Fr>>
    decreases vars.len(),
{
    if vars.len() == 0 {
        Some(Seq::empty())
    } else {
        match lookup_all(w, vars.drop_last()) {
            Some(s) => match w.spec_get(vars.last()) {
                Some(c) => Some(s.push(c)),
                None => None,
            },
            None => None,
        }
    }
}

impl ProgIterator {
    /// How many constraint statements the program holds.
    pub open spec fn spec_constraint_count(self) -> int {
        self.statements@.filter(|s: Statement| s is Constraint).len() as int
    }

    /// Count the constraint statements of the program.
    pub fn constraint_count(&self) -> (r: usize)
        ensures
            r == self.spec_constraint_count(),
    {
        let mut n: usize = 0;
        let mut i: usize = 0;
        while i < self.statements.len()
            invariant
                i <= self.statements@.len(),
                n == self.statements@.take(i as int).filter(|s: Statement| s is Constraint).len(),
                n <= i,
            decreases self.statements@.len() - i,
        {
            let ghost pre = self.statements@.take(i as int);
            assert(self.statements@.take(i as int + 1).drop_last() =~= pre);
            reveal_with_fuel(Seq::filter, 2);
            if matches!(self.statements[i], Statement::Constraint(_, _)) {
                n += 1;
            }
            i += 1;
        }
        assert(self.statements@.take(self.statements@.len() as int) =~= self.statements@);
        n
    }

    /// The program's public-input variables, materialized in order.
    fn collect_public_vars(&self) -> (r: Vec<Var>)
        ensures
            r@ == public_input_vars(*self),
    {
        let mut out: Vec<Var> = Vec::new();
        let mut i: usize = 0;
        while i < self.arguments.len()
            invariant
                i <= self.arguments@.len(),
                out@ == self.arguments@.take(i as int).filter(|a: Parameter| !a.private)
                    .map_values(|a: Parameter| a.id),
            decreases self.arguments@.len() - i,
        {
            let ghost prefix = self.arguments@.take(i as int);
            let ghost pre = prefix.filter(|a: Parameter| !a.private);
            assert(self.arguments@.take(i as int + 1).drop_last() =~= prefix);
            reveal_with_fuel(Seq::filter, 2);
            let a = self.arguments[i];
            if !a.private {
                assert(self.arguments@.take(i as int + 1).filter(|a: Parameter| !a.private)
                    =~= pre.push(a));
                assert(pre.push(a).map_values(|a: Parameter| a.id) =~= pre.map_values(
                    |a: Parameter| a.id,
                ).push(a.id));
                out.push(a.id);
            } else {
                assert(self.arguments@.take(i as int + 1).filter(|a: Parameter| !a.private)
                    =~= pre);
            }
            i += 1;
        }
        assert(self.arguments@.take(self.arguments@.len() as int) =~= self.arguments@);
        let ghost pubargs = out@;
        let mut k: usize = 0;
        while k < self.return_count
            invariant
                k <= self.return_count,
                out@ == pubargs + Seq::new(k as nat, |i: int| Var::Out(i as u64)),
            decreases self.return_count - k,
        {
            out.push(Var::Out(k as u64));
            assert(pubargs + Seq::new(k as nat + 1, |i: int| Var::Out(i as u64)) =~= (pubargs
                + Seq::new(k as nat, |i: int| Var::Out(i as u64))).push(Var::Out(k as u64)));
            k += 1;
        }
        out
    }

    /// The values of the program's public inputs under `witness`: the public
    /// arguments in argument order, then the declared outputs in index order.
    /// Fails with `MissingAssignment` exactly when some such variable is
    /// unbound.
    pub fn public_inputs(&self, witness: &Witness) -> (r: Result<Vec<ark_bn254::Fr>, Error>)
        ensures
            match r {
                Ok(v) => lookup_all(*witness, public_input_vars(*self)) == Some(v@),
                Err(e) => {
                    &&& lookup_all(*witness, public_input_vars(*self)) is None
                    &&& e == Error::MissingAssignment
                },
            },
    {
        let vars = self.collect_public_vars();
        let mut vals: Vec<ark_bn254::Fr> = Vec::new();
        let mut i: usize = 0;
        while i < vars.len()
            invariant
                i <= vars@.len(),
                vars@ == public_input_vars(*self),
                lookup_all(*witness, vars@.take(i as int)) == Some(vals@),
            decreases vars@.len() - i,
        {
            assert(vars@.take(i as int + 1).drop_last() =~= vars@.take(i as int));
            assert(vars@.take(i as int + 1).last() == vars@[i as int]);
            match witness.get(&vars[i]) {
                Some(c) => { vals.push(c) },
                None => {
                    proof {
                        lemma_lookup_all_missing(*witness, vars@, i as int);
                    }
                    return Err(Error::MissingAssignment);
                },
            }
            i += 1;
        }
        assert(vars@.take(vars@.len() as int) =~= vars@);
        Ok(vals)
    }
}

/// If some variable of `vars` is unbound in `w`, the whole lookup fails.
proof fn lemma_lookup_all_missing(w: Witness, vars: Seq<Var>, i: int)
    requires
        0 <= i < vars.len(),
        w.spec_get(vars[i]) is None,
    ensures
        lookup_all(w, vars) is None,
    decreases vars.len(),
{
    if i == vars.len() - 1 {
    } else {
        assert(vars.drop_last()[i] == vars[i]);
        lemma_lookup_all_missing(w, vars.drop_last(), i);
    }
}

/// A program paired with an optional witness, consumable once per call of
/// the proof-system protocol.
pub struct Computation {
    pub program: ProgIterator,
    pub witness: Option<Witness>,
}

impl Computation {
    /// Pair a program with the witness of one concrete run, for proving.
    pub fn with_witness(program: ProgIterator, witness: Witness) -> (r: Computation)
        ensures
            r.program == program,
            r.witness == Some(witness),
    {
        Computation { program, witness: Some(witness) }
    }

    /// Take a program alone, for shape-only synthesis during setup.
    pub fn without_witness(program: ProgIterator) -> (r: Computation)
        ensures
            r.program == program,
            r.witness is None,
    {
        Computation { program, witness: None }
    }

    /// The public-input values of this computation, derived from the public
    /// arguments, the declared outputs and the witness.
    pub fn public_inputs_values(&self) -> (r: Result<Vec<ark_bn254::Fr>, Error>)
        requires
            self.witness is Some,
        ensures
            match r {
                Ok(v) => lookup_all(self.witness->Some_0, public_input_vars(self.program))
                    == Some(v@),
                Err(e) => {
                    &&& lookup_all(self.witness->Some_0, public_input_vars(self.program)) is None
                    &&& e == Error::MissingAssignment
                },
            },
    {
        match &self.witness {
            Some(w) => self.program.public_inputs(w),
            None => Err(Error::MissingAssignment),
        }
    }
}

} // verus!
