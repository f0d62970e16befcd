//! The constraint-system capability the circuit variants emit into.
//!
//! A constraint system holds a witness assignment (one field value per
//! allocated variable) and an ordered list of constraints over variable
//! indices.  The gadget operations allocate the witness value of their
//! result eagerly and append one constraint relating it to the operands,
//! so a system built from honest witness values is satisfied exactly when
//! every `enforce_equal` it contains holds — which is what makes a false
//! Merkle witness yield an unsatisfiable circuit.
//!
//! Emission order is deterministic: every operation's contract pins the
//! appended values and constraints exactly.

use vstd::prelude::*;
use crate::fr::{fadd, fmul, views, Fr};

verus! {

/// A handle to an allocated circuit variable.
#[derive(Clone, Copy, Debug, PartialEq, Eq, Structural)]
pub struct FpVar {
    index: usize,
}

impl FpVar {
    /// The variable's index in the assignment.
    pub closed spec fn idx(self) -> int {
        self.index as int
    }
}

/// A circuit boolean: a compile-time constant, the claim that a variable
/// holds one, or its negation.
#[derive(Clone, Copy, Debug, PartialEq, Eq, Structural)]
pub enum Boolean {
    Constant(bool),
    Is(usize),
    Not(usize),
}

/// One emitted constraint over variable indices.
#[derive(Clone, Copy, Debug)]
pub enum Constraint {
    /// Variable `v` holds the constant `k`.
    Const { v: usize, k: Fr },
    /// `c = a + b`.
    Add { a: usize, b: usize, c: usize },
    /// `c = a + k`.
    AddConst { a: usize, k: Fr, c: usize },
    /// `c = a * b` (one multiplication gate).
    Mul { a: usize, b: usize, c: usize },
    /// `r` equals `t` if the boolean holds, else `f`.
    Select { bit: Boolean, t: usize, f: usize, r: usize },
    /// Variable `v` holds zero or one.
    BooleanCheck { v: usize },
    /// The two variables hold equal values.
    Eq { a: usize, b: usize },
}

/// The mathematical state of a constraint system: the residues assigned
/// to the variables, and the constraints emitted so far.
#[verifier::ext_equal]
pub struct CsModel {
    pub vals: Seq<nat>,
    pub cs: Seq<Constraint>,
}

/// The truth value of a circuit boolean under an assignment.
pub open spec fn bool_value(b: Boolean, vals: Seq<nat>) -> bool {
    match b {
        Boolean::Constant(c) => c,
        Boolean::Is(i) => vals[i as int] == 1,
        Boolean::Not(i) => vals[i as int] != 1,
    }
}

/// A circuit boolean references only allocated variables.
pub open spec fn bool_wf(b: Boolean, n: nat) -> bool {
    match b {
        Boolean::Constant(_) => true,
        Boolean::Is(i) => i < n,
        Boolean::Not(i) => i < n,
    }
}

/// A constraint references only allocated variables.
pub open spec fn c_wf(c: Constraint, n: nat) -> bool {
    match c {
        Constraint::Const { v, k: _ } => v < n,
        Constraint::Add { a, b, c } => a < n && b < n && c < n,
        Constraint::AddConst { a, k: _, c } => a < n && c < n,
        Constraint::Mul { a, b, c } => a < n && b < n && c < n,
        Constraint::Select { bit, t, f, r } => bool_wf(bit, n) && t < n && f < n && r < n,
        Constraint::BooleanCheck { v } => v < n,
        Constraint::Eq { a, b } => a < n && b < n,
    }
}

/// Whether one constraint is satisfied by an assignment.
pub open spec fn c_holds(c: Constraint, vals: Seq<nat>) -> bool {
    match c {
        Constraint::Const { v, k } => vals[v as int] == k@,
        Constraint::Add { a, b, c } => vals[c as int] == fadd(vals[a as int], vals[b as int]),
        Constraint::AddConst { a, k, c } => vals[c as int] == fadd(vals[a as int], k@),
        Constraint::Mul { a, b, c } => vals[c as int] == fmul(vals[a as int], vals[b as int]),
        Constraint::Select { bit, t, f, r } => vals[r as int] == if bool_value(bit, vals) {
            vals[t as int]
        } else {
            vals[f as int]
        },
        Constraint::BooleanCheck { v } => vals[v as int] == 0 || vals[v as int] == 1,
        Constraint::Eq { a, b } => vals[a as int] == vals[b as int],
    }
}

/// Whether every emitted constraint is satisfied by the assignment.
pub open spec fn sat(m: CsModel) -> bool {
    forall|i: int| 0 <= i < m.cs.len() ==> c_holds(#[trigger] m.cs[i], m.vals)
}

/// Every constraint of the model references only allocated variables.
pub open spec fn cs_wf(m: CsModel) -> bool {
    forall|i: int| 0 <= i < m.cs.len() ==> c_wf(#[trigger] m.cs[i], m.vals.len())
}

/// `m` extends `base`: both the assignment and the constraint list of
/// `base` are preserved as prefixes, so existing variables keep their
/// values and existing constraints stay emitted.
pub open spec fn extends(m: CsModel, base: CsModel) -> bool {
    &&& base.vals.len() <= m.vals.len()
    &&& forall|i: int| 0 <= i < base.vals.len() ==> m.vals[i] == base.vals[i]
    &&& base.cs.len() <= m.cs.len()
    &&& forall|i: int| 0 <= i < base.cs.len() ==> m.cs[i] == base.cs[i]
}

/// The variable is allocated in the model.
pub open spec fn var_ok(v: FpVar, m: CsModel) -> bool {
    0 <= v.idx() < m.vals.len()
}

/// The residue a variable holds.
pub open spec fn value_at(m: CsModel, v: FpVar) -> nat {
    m.vals[v.idx()]
}

/// The residues a sequence of variables holds.
pub open spec fn var_values(vars: Seq<FpVar>, m: CsModel) -> Seq<nat> {
    Seq::new(vars.len(), |i: int| value_at(m, vars[i]))
}

/// Extension keeps the values of a sequence of allocated variables.
pub proof fn lemma_var_values_extend(vars: Seq<FpVar>, m1: CsModel, m2: CsModel)
    requires
        extends(m2, m1),
        forall|j: int| 0 <= j < vars.len() ==> var_ok(#[trigger] vars[j], m1),
    ensures
        var_values(vars, m2) == var_values(vars, m1),
        forall|j: int| 0 <= j < vars.len() ==> var_ok(#[trigger] vars[j], m2),
{
    assert(var_values(vars, m2) =~= var_values(vars, m1));
}

/// Extension keeps the truth value of a circuit boolean over allocated
/// variables.
pub proof fn lemma_bool_value_extend(b: Boolean, m1: CsModel, m2: CsModel)
    requires
        extends(m2, m1),
        bool_wf(b, m1.vals.len()),
    ensures
        bool_wf(b, m2.vals.len()),
        bool_value(b, m2.vals) == bool_value(b, m1.vals),
{
}

/// Extension is transitive.
pub proof fn lemma_extends_trans(m3: CsModel, m2: CsModel, m1: CsModel)
    requires
        extends(m3, m2),
        extends(m2, m1),
    ensures
        extends(m3, m1),
{
}

/// Extending the assignment does not change what a constraint over the
/// old variables means.
pub proof fn lemma_extends_preserves_c_holds(c: Constraint, m1: CsModel, m2: CsModel)
    requires
        extends(m2, m1),
        c_wf(c, m1.vals.len()),
    ensures
        c_holds(c, m2.vals) == c_holds(c, m1.vals),
{
}

/// Appending one in-range constraint: the new system is satisfied exactly
/// when the old one was and the new constraint holds.
pub proof fn lemma_push_sat(m1: CsModel, m2: CsModel, c: Constraint)
    requires
        cs_wf(m1),
        extends(m2, m1),
        m2.cs == m1.cs.push(c),
        c_wf(c, m1.vals.len()),
    ensures
        cs_wf(m2),
        sat(m2) <==> (sat(m1) && c_holds(c, m2.vals)),
{
    assert forall|i: int| 0 <= i < m1.cs.len() implies c_holds(#[trigger] m2.cs[i], m2.vals)
        == c_holds(m1.cs[i], m1.vals) by {
        lemma_extends_preserves_c_holds(m1.cs[i], m1, m2);
    }
    assert(m2.cs[m1.cs.len() as int] == c);
    assert forall|i: int| 0 <= i < m2.cs.len() implies c_wf(#[trigger] m2.cs[i], m2.vals.len()) by {
        if i < m1.cs.len() {
            assert(c_wf(m1.cs[i], m1.vals.len()));
        }
    }
    if sat(m1) && c_holds(c, m2.vals) {
        assert forall|i: int| 0 <= i < m2.cs.len() implies c_holds(#[trigger] m2.cs[i], m2.vals) by {
            if i < m1.cs.len() {
                assert(c_holds(m1.cs[i], m1.vals));
            }
        }
    }
}

/// Extending only the assignment changes no constraint's meaning.
pub proof fn lemma_vals_extend_sat(m1: CsModel, m2: CsModel)
    requires
        cs_wf(m1),
        extends(m2, m1),
        m2.cs == m1.cs,
    ensures
        cs_wf(m2),
        sat(m2) <==> sat(m1),
{
    assert forall|i: int| 0 <= i < m1.cs.len() implies c_holds(#[trigger] m2.cs[i], m2.vals)
        == c_holds(m1.cs[i], m1.vals) by {
        lemma_extends_preserves_c_holds(m1.cs[i], m1, m2);
    }
}

impl Boolean {
    /// The boolean's complement: exact under every assignment.
    pub fn not(self) -> (r: Boolean)
        ensures
            forall|vals: Seq<nat>| #[trigger] bool_value(r, vals) == !bool_value(self, vals),
            forall|n: nat| #[trigger] bool_wf(r, n) == bool_wf(self, n),
    {
        match self {
            Boolean::Constant(c) => Boolean::Constant(!c),
            Boolean::Is(i) => Boolean::Not(i),
            Boolean::Not(i) => Boolean::Is(i),
        }
    }
}

/// A constraint system with an eagerly computed witness assignment.
pub struct ConstraintSystem {
    values: Vec<Fr>,
    constraints: Vec<Constraint>,
}

impl View for ConstraintSystem {
    type V = CsModel;

    closed spec fn view(&self) -> CsModel {
        CsModel { vals: views(self.values@), cs: self.constraints@ }
    }
}

impl ConstraintSystem {
    /// An empty system: no variables, no constraints.
    pub fn new() -> (r: ConstraintSystem)
        ensures
            cs_wf(r@),
            r@.vals.len() == 0,
            r@.cs.len() == 0,
            sat(r@),
    {
        let r = ConstraintSystem { values: Vec::new(), constraints: Vec::new() };
        proof {
            assert(r@.vals =~= Seq::<nat>::empty());
        }
        r
    }

    /// Allocate a witness variable holding the given value.
    pub fn allocate_witness(&mut self, value: Fr) -> (v: FpVar)
        requires
            cs_wf(old(self)@),
        ensures
            cs_wf(final(self)@),
            extends(final(self)@, old(self)@),
            final(self)@.vals == old(self)@.vals.push(value@),
            final(self)@.cs == old(self)@.cs,
            var_ok(v, final(self)@),
            v.idx() == old(self)@.vals.len(),
            value_at(final(self)@, v) == value@,
            sat(final(self)@) <==> sat(old(self)@),
    {
        let v = FpVar { index: self.values.len() };
        self.values.push(value);
        proof {
            assert(final(self)@.vals =~= old(self)@.vals.push(value@));
            lemma_vals_extend_sat(old(self)@, final(self)@);
        }
        v
    }

    /// Allocate a variable and constrain it to the constant `k`.
    pub fn constant(&mut self, k: Fr) -> (v: FpVar)
        requires
            cs_wf(old(self)@),
        ensures
            cs_wf(final(self)@),
            extends(final(self)@, old(self)@),
            final(self)@.vals == old(self)@.vals.push(k@),
            final(self)@.cs.len() == old(self)@.cs.len() + 1,
            var_ok(v, final(self)@),
            v.idx() == old(self)@.vals.len(),
            value_at(final(self)@, v) == k@,
            sat(final(self)@) <==> sat(old(self)@),
    {
        let ghost m0 = self@;
        let v = self.allocate_witness(k);
        let ghost m1 = self@;
        let c = Constraint::Const { v: self.values.len() - 1, k };
        self.constraints.push(c);
        proof {
            lemma_push_sat(m1, self@, c);
            lemma_extends_trans(self@, m1, m0);
        }
        v
    }

    /// Allocate a boolean variable holding the given bit, constrained to
    /// be zero or one.
    pub fn alloc_bit(&mut self, b: bool) -> (r: Boolean)
        requires
            cs_wf(old(self)@),
        ensures
            cs_wf(final(self)@),
            extends(final(self)@, old(self)@),
            final(self)@.vals.len() == old(self)@.vals.len() + 1,
            final(self)@.cs.len() == old(self)@.cs.len() + 1,
            bool_wf(r, final(self)@.vals.len()),
            bool_value(r, final(self)@.vals) == b,
            sat(final(self)@) <==> sat(old(self)@),
    {
        let ghost m0 = self@;
        let idx = self.values.len();
        let v = self.allocate_witness(if b {
            Fr::one()
        } else {
            Fr::zero()
        });
        let ghost m1 = self@;
        let c = Constraint::BooleanCheck { v: idx };
        self.constraints.push(c);
        proof {
            lemma_push_sat(m1, self@, c);
            lemma_extends_trans(self@, m1, m0);
        }
        Boolean::Is(idx)
    }

    /// Allocate the sum of two variables and emit the addition constraint.
    pub fn add(&mut self, a: FpVar, b: FpVar) -> (c: FpVar)
        requires
            cs_wf(old(self)@),
            var_ok(a, old(self)@),
            var_ok(b, old(self)@),
        ensures
            cs_wf(final(self)@),
            extends(final(self)@, old(self)@),
            final(self)@.vals.len() == old(self)@.vals.len() + 1,
            final(self)@.cs.len() == old(self)@.cs.len() + 1,
            var_ok(c, final(self)@),
            value_at(final(self)@, c) == fadd(
                value_at(old(self)@, a),
                value_at(old(self)@, b),
            ),
            sat(final(self)@) <==> sat(old(self)@),
    {
        let ghost m0 = self@;
        let sum = self.values[a.index].add(self.values[b.index]);
        let idx = self.values.len();
        let v = self.allocate_witness(sum);
        let ghost m1 = self@;
        let c = Constraint::Add { a: a.index, b: b.index, c: idx };
        self.constraints.push(c);
        proof {
            lemma_push_sat(m1, self@, c);
            lemma_extends_trans(self@, m1, m0);
        }
        v
    }

    /// Allocate the sum of a variable and a constant and emit the
    /// constraint.
    pub fn add_constant(&mut self, a: FpVar, k: Fr) -> (c: FpVar)
        requires
            cs_wf(old(self)@),
            var_ok(a, old(self)@),
        ensures
            cs_wf(final(self)@),
            extends(final(self)@, old(self)@),
            final(self)@.vals.len() == old(self)@.vals.len() + 1,
            final(self)@.cs.len() == old(self)@.cs.len() + 1,
            var_ok(c, final(self)@),
            value_at(final(self)@, c) == fadd(value_at(old(self)@, a), k@),
            sat(final(self)@) <==> sat(old(self)@),
    {
        let ghost m0 = self@;
        let sum = self.values[a.index].add(k);
        let idx = self.values.len();
        let v = self.allocate_witness(sum);
        let ghost m1 = self@;
        let c = Constraint::AddConst { a: a.index, k, c: idx };
        self.constraints.push(c);
        proof {
            lemma_push_sat(m1, self@, c);
            lemma_extends_trans(self@, m1, m0);
        }
        v
    }

    /// Allocate the product of two variables and emit the multiplication
    /// gate.
    pub fn multiply(&mut self, a: FpVar, b: FpVar) -> (c: FpVar)
        requires
            cs_wf(old(self)@),
            var_ok(a, old(self)@),
            var_ok(b, old(self)@),
        ensures
            cs_wf(final(self)@),
            extends(final(self)@, old(self)@),
            final(self)@.vals.len() == old(self)@.vals.len() + 1,
            final(self)@.cs.len() == old(self)@.cs.len() + 1,
            var_ok(c, final(self)@),
            value_at(final(self)@, c) == fmul(
                value_at(old(self)@, a),
                value_at(old(self)@, b),
            ),
            sat(final(self)@) <==> sat(old(self)@),
    {
        let ghost m0 = self@;
        let prod = self.values[a.index].mul(self.values[b.index]);
        let idx = self.values.len();
        let v = self.allocate_witness(prod);
        let ghost m1 = self@;
        let c = Constraint::Mul { a: a.index, b: b.index, c: idx };
        self.constraints.push(c);
        proof {
            lemma_push_sat(m1, self@, c);
            lemma_extends_trans(self@, m1, m0);
        }
        v
    }

    /// Allocate a fresh variable constrained to equal an existing one:
    /// how the circuit sponge allocates a variable for every element it
    /// produces.
    pub fn allocate_equal(&mut self, src: FpVar) -> (r: FpVar)
        requires
            cs_wf(old(self)@),
            var_ok(src, old(self)@),
        ensures
            cs_wf(final(self)@),
            extends(final(self)@, old(self)@),
            final(self)@.vals.len() == old(self)@.vals.len() + 1,
            final(self)@.cs.len() == old(self)@.cs.len() + 1,
            var_ok(r, final(self)@),
            value_at(final(self)@, r) == value_at(old(self)@, src),
            sat(final(self)@) <==> sat(old(self)@),
    {
        let ghost m0 = self@;
        let val = self.values[src.index];
        let v = self.allocate_witness(val);
        let ghost m1 = self@;
        self.enforce_equal(v, src);
        proof {
            lemma_extends_trans(self@, m1, m0);
        }
        v
    }

    /// The truth value of a circuit boolean under the current assignment.
    fn eval_bool(&self, b: Boolean) -> (r: bool)
        requires
            bool_wf(b, self@.vals.len()),
        ensures
            r == bool_value(b, self@.vals),
    {
        match b {
            Boolean::Constant(c) => c,
            Boolean::Is(i) => self.values[i].equals(&Fr::one()),
            Boolean::Not(i) => !self.values[i].equals(&Fr::one()),
        }
    }

    /// Allocate the oblivious selection between two variables and emit
    /// the selection constraint: the result is `t` where the boolean
    /// holds and `f` where it does not.
    pub fn conditionally_select(&mut self, bit: Boolean, t: FpVar, f: FpVar) -> (r: FpVar)
        requires
            cs_wf(old(self)@),
            bool_wf(bit, old(self)@.vals.len()),
            var_ok(t, old(self)@),
            var_ok(f, old(self)@),
        ensures
            cs_wf(final(self)@),
            extends(final(self)@, old(self)@),
            final(self)@.vals.len() == old(self)@.vals.len() + 1,
            final(self)@.cs.len() == old(self)@.cs.len() + 1,
            var_ok(r, final(self)@),
            value_at(final(self)@, r) == if bool_value(bit, old(self)@.vals) {
                value_at(old(self)@, t)
            } else {
                value_at(old(self)@, f)
            },
            sat(final(self)@) <==> sat(old(self)@),
    {
        let ghost m0 = self@;
        let chosen = if self.eval_bool(bit) {
            self.values[t.index]
        } else {
            self.values[f.index]
        };
        let idx = self.values.len();
        let v = self.allocate_witness(chosen);
        let ghost m1 = self@;
        let c = Constraint::Select { bit, t: t.index, f: f.index, r: idx };
        self.constraints.push(c);
        proof {
            lemma_push_sat(m1, self@, c);
            lemma_extends_trans(self@, m1, m0);
            assert(bool_value(bit, self@.vals) == bool_value(bit, m0.vals));
        }
        v
    }

    /// Emit an equality constraint between two variables.  The system
    /// stays satisfied exactly when it was and the two values are equal.
    pub fn enforce_equal(&mut self, a: FpVar, b: FpVar)
        requires
            cs_wf(old(self)@),
            var_ok(a, old(self)@),
            var_ok(b, old(self)@),
        ensures
            cs_wf(final(self)@),
            extends(final(self)@, old(self)@),
            final(self)@.vals == old(self)@.vals,
            final(self)@.cs.len() == old(self)@.cs.len() + 1,
            sat(final(self)@) <==> (sat(old(self)@) && value_at(old(self)@, a) == value_at(
                old(self)@,
                b,
            )),
    {
        let ghost m0 = self@;
        let c = Constraint::Eq { a: a.index, b: b.index };
        self.constraints.push(c);
        proof {
            lemma_push_sat(m0, self@, c);
        }
    }

    /// The number of allocated variables.
    pub fn num_variables(&self) -> (r: usize)
        ensures
            r == self@.vals.len(),
    {
        self.values.len()
    }

    /// The number of emitted constraints.
    pub fn num_constraints(&self) -> (r: usize)
        ensures
            r == self@.cs.len(),
    {
        self.constraints.len()
    }

    /// The value a variable holds, if it is allocated.
    pub fn value_of(&self, v: FpVar) -> (r: Option<Fr>)
        ensures
            var_ok(v, self@) ==> (r matches Some(x) && x@ == value_at(self@, v)),
            !var_ok(v, self@) ==> r is None,
    {
        if v.index < self.values.len() {
            Some(self.values[v.index])
        } else {
            None
        }
    }

    /// The truth value a circuit boolean takes, if its variable is
    /// allocated.
    pub fn boolean_value_of(&self, b: Boolean) -> (r: Option<bool>)
        ensures
            bool_wf(b, self@.vals.len()) ==> (r matches Some(x) && x == bool_value(b, self@.vals)),
    {
        match b {
            Boolean::Constant(c) => Some(c),
            Boolean::Is(i) => if i < self.values.len() {
                Some(self.values[i].equals(&Fr::one()))
            } else {
                None
            },
            Boolean::Not(i) => if i < self.values.len() {
                Some(!self.values[i].equals(&Fr::one()))
            } else {
                None
            },
        }
    }

    /// Whether every emitted constraint is satisfied by the assignment.
    pub fn is_satisfied(&self) -> (r: bool)
        requires
            cs_wf(self@),
        ensures
            r == sat(self@),
    {
        let mut i: usize = 0;
        while i < self.constraints.len()
            invariant
                cs_wf(self@),
                i <= self@.cs.len(),
                forall|k: int| 0 <= k < i ==> c_holds(#[trigger] self@.cs[k], self@.vals),
            decreases self@.cs.len() - i,
        {
            let c = self.constraints[i];
            let ok = match c {
                Constraint::Const { v, k } => self.values[v].equals(&k),
                Constraint::Add { a, b, c } => self.values[c].equals(
                    &self.values[a].add(self.values[b]),
                ),
                Constraint::AddConst { a, k, c } => self.values[c].equals(
                    &self.values[a].add(k),
                ),
                Constraint::Mul { a, b, c } => self.values[c].equals(
                    &self.values[a].mul(self.values[b]),
                ),
                Constraint::Select { bit, t, f, r } => if self.eval_bool(bit) {
                    self.values[r].equals(&self.values[t])
                } else {
                    self.values[r].equals(&self.values[f])
                },
                Constraint::BooleanCheck { v } => self.values[v].equals(&Fr::zero())
                    || self.values[v].equals(&Fr::one()),
                Constraint::Eq { a, b } => self.values[a].equals(&self.values[b]),
            };
            if !ok {
                return false;
            }
            i = i + 1;
        }
        true
    }
}

} // verus!
