use vstd::prelude::*;
use vstd::string::StringExecFns;
use crate::utils::text::{decimal, decimal_text, push_char};

verus! {

/// The numbers that the coefficients, constants and bounds of a model are
/// made of. Every method is a function of its arguments.
///
/// The spec functions are what the contracts of the methods speak of; an
/// implementation gives them their bodies.
pub trait Coefficient: Copy {
    open spec fn spec_zero() -> Self {
        arbitrary()
    }

    open spec fn spec_one() -> Self {
        arbitrary()
    }

    open spec fn spec_minus_one() -> Self {
        arbitrary()
    }

    open spec fn spec_add(self, other: Self) -> Self {
        arbitrary()
    }

    open spec fn spec_mul(self, other: Self) -> Self {
        arbitrary()
    }

    open spec fn spec_abs(self) -> Self {
        arbitrary()
    }

    open spec fn spec_is_zero(self) -> bool {
        arbitrary()
    }

    open spec fn spec_is_one(self) -> bool {
        arbitrary()
    }

    open spec fn spec_is_positive(self) -> bool {
        arbitrary()
    }

    open spec fn spec_is_negative(self) -> bool {
        arbitrary()
    }

    /// The number as it is written.
    open spec fn spec_text(self) -> Seq<char> {
        arbitrary()
    }

    fn zero() -> (r: Self)
        ensures
            r == Self::spec_zero(),
    ;

    fn one() -> (r: Self)
        ensures
            r == Self::spec_one(),
    ;

    fn minus_one() -> (r: Self)
        ensures
            r == Self::spec_minus_one(),
    ;

    fn add(self, other: Self) -> (r: Self)
        ensures
            r == self.spec_add(other),
    ;

    fn mul(self, other: Self) -> (r: Self)
        ensures
            r == self.spec_mul(other),
    ;

    fn abs(self) -> (r: Self)
        ensures
            r == self.spec_abs(),
    ;

    fn is_zero(self) -> (b: bool)
        ensures
            b == self.spec_is_zero(),
    ;

    fn is_one(self) -> (b: bool)
        ensures
            b == self.spec_is_one(),
    ;

    fn is_positive(self) -> (b: bool)
        ensures
            b == self.spec_is_positive(),
    ;

    fn is_negative(self) -> (b: bool)
        ensures
            b == self.spec_is_negative(),
    ;

    fn text(self) -> (s: String)
        ensures
            s@ == self.spec_text(),
    ;
}

/// The name of a variable of a model: its place among the variables.
#[derive(Clone, Copy, Debug, PartialEq, Eq, Hash, PartialOrd, Ord)]
pub struct VariableId(pub usize);

/// The name of a constraint of a model: its place among the constraints.
#[derive(Clone, Copy, Debug, PartialEq, Eq, Hash, PartialOrd, Ord)]
pub struct ConstraintId(pub usize);

/// The variables are in strictly ascending order of their ids.
pub open spec fn ascending<C>(vars: Seq<(usize, C)>) -> bool {
    forall|i: int, j: int| 0 <= i < j < vars.len() ==> (#[trigger] vars[i]).0 < (#[trigger] vars[j]).0
}

/// The terms of a sum of two expressions whose terms are `a` and `b`, both
/// in ascending order: the terms of either, in ascending order; where both
/// hold a variable, its coefficients are added, and the term is left out if
/// the sum is zero.
pub open spec fn merged<C: Coefficient>(a: Seq<(usize, C)>, b: Seq<(usize, C)>) -> Seq<(usize, C)>
    decreases a.len() + b.len(),
{
    if a.len() == 0 {
        b
    } else if b.len() == 0 {
        a
    } else if a[0].0 < b[0].0 {
        seq![a[0]] + merged(a.skip(1), b)
    } else if a[0].0 == b[0].0 {
        let sum = a[0].1.spec_add(b[0].1);
        if sum.spec_is_zero() {
            merged(a.skip(1), b.skip(1))
        } else {
            seq![(a[0].0, sum)] + merged(a.skip(1), b.skip(1))
        }
    } else {
        seq![b[0]] + merged(a, b.skip(1))
    }
}

/// The terms `vars`, each coefficient multiplied by `factor`.
pub open spec fn scaled<C: Coefficient>(vars: Seq<(usize, C)>, factor: C) -> Seq<(usize, C)> {
    Seq::new(vars.len(), |i: int| (vars[i].0, vars[i].1.spec_mul(factor)))
}

/// The coefficient of the variable `id` among the terms `vars`, if it has a
/// term.
pub open spec fn coefficient_of<C>(vars: Seq<(usize, C)>, id: usize) -> Option<C>
    decreases vars.len(),
{
    if vars.len() == 0 {
        None
    } else if vars[0].0 == id {
        Some(vars[0].1)
    } else {
        coefficient_of(vars.skip(1), id)
    }
}

/// A variable without a term among terms in ascending order: one that lies
/// before the first term.
pub proof fn lemma_before_first_has_no_term<C>(vars: Seq<(usize, C)>, id: usize)
    requires
        ascending(vars),
        vars.len() == 0 || id < vars[0].0,
    ensures
        coefficient_of(vars, id) is None,
    decreases vars.len(),
{
    if vars.len() > 0 {
        let rest = vars.skip(1);
        assert forall|i: int, j: int| 0 <= i < j < rest.len() implies (#[trigger] rest[i]).0 < (
        #[trigger] rest[j]).0 by {
            assert(rest[i] == vars[i + 1] && rest[j] == vars[j + 1]);
        }
        if rest.len() > 0 {
            assert(rest[0] == vars[1]);
            assert(vars[0].0 < vars[1].0);
        }
        lemma_before_first_has_no_term(rest, id);
    }
}

/// What follows the first of ascending terms is ascending and begins, if at
/// all, after the first.
pub proof fn lemma_rest_ascending<C>(vars: Seq<(usize, C)>)
    requires
        ascending(vars),
        vars.len() > 0,
    ensures
        ascending(vars.skip(1)),
        vars.skip(1).len() > 0 ==> vars[0].0 < vars.skip(1)[0].0,
{
    let rest = vars.skip(1);
    assert forall|i: int, j: int| 0 <= i < j < rest.len() implies (#[trigger] rest[i]).0 < (
    #[trigger] rest[j]).0 by {
        assert(rest[i] == vars[i + 1] && rest[j] == vars[j + 1]);
    }
    if rest.len() > 0 {
        assert(rest[0] == vars[1]);
    }
}

/// The sum of ascending terms is ascending, and begins no earlier than
/// `low` if neither part does.
pub proof fn lemma_merged_ascending<C: Coefficient>(
    a: Seq<(usize, C)>,
    b: Seq<(usize, C)>,
    low: usize,
)
    requires
        ascending(a),
        ascending(b),
        a.len() == 0 || low <= a[0].0,
        b.len() == 0 || low <= b[0].0,
    ensures
        ascending(merged(a, b)),
        merged(a, b).len() == 0 || low <= merged(a, b)[0].0,
    decreases a.len() + b.len(),
{
    if a.len() > 0 && b.len() > 0 {
        lemma_rest_ascending(a);
        lemma_rest_ascending(b);
        if a[0].0 < b[0].0 {
            let next = (a[0].0 + 1) as usize;
            lemma_merged_ascending(a.skip(1), b, next);
            lemma_cons_ascending(a[0], merged(a.skip(1), b));
        } else if a[0].0 == b[0].0 {
            let rest = merged(a.skip(1), b.skip(1));
            if a[0].0 < usize::MAX {
                let next = (a[0].0 + 1) as usize;
                lemma_merged_ascending(a.skip(1), b.skip(1), next);
            } else {
                assert(a.skip(1).len() == 0 && b.skip(1).len() == 0);
                lemma_merged_ascending(a.skip(1), b.skip(1), low);
            }
            if !a[0].1.spec_add(b[0].1).spec_is_zero() {
                lemma_cons_ascending((a[0].0, a[0].1.spec_add(b[0].1)), rest);
            }
        } else {
            let next = (b[0].0 + 1) as usize;
            lemma_merged_ascending(a, b.skip(1), next);
            lemma_cons_ascending(b[0], merged(a, b.skip(1)));
        }
    }
}

/// A term before ascending terms that begin after it makes ascending terms.
pub proof fn lemma_cons_ascending<C>(first: (usize, C), rest: Seq<(usize, C)>)
    requires
        ascending(rest),
        rest.len() == 0 || first.0 < rest[0].0,
    ensures
        ascending(seq![first] + rest),
{
    let all = seq![first] + rest;
    assert forall|i: int, j: int| 0 <= i < j < all.len() implies (#[trigger] all[i]).0 < (
    #[trigger] all[j]).0 by {
        assert(all[j] == rest[j - 1]);
        if i == 0 {
            if j > 1 {
                assert(rest[0].0 < rest[j - 1].0);
            }
        } else {
            assert(all[i] == rest[i - 1]);
        }
    }
}

/// The coefficient that a variable has in a sum, from those it has in the
/// parts: that of the one part that holds it, or the sum of both unless that
/// is zero.
pub open spec fn summed<C: Coefficient>(x: Option<C>, y: Option<C>) -> Option<C> {
    match (x, y) {
        (None, None) => None,
        (Some(c), None) => Some(c),
        (None, Some(d)) => Some(d),
        (Some(c), Some(d)) => if c.spec_add(d).spec_is_zero() {
            None
        } else {
            Some(c.spec_add(d))
        },
    }
}

/// In the sum of two expressions every variable has the coefficient that
/// `summed` makes of its coefficients in the two.
pub proof fn lemma_merged_coefficients<C: Coefficient>(
    a: Seq<(usize, C)>,
    b: Seq<(usize, C)>,
    id: usize,
)
    requires
        ascending(a),
        ascending(b),
    ensures
        coefficient_of(merged(a, b), id) == summed(coefficient_of(a, id), coefficient_of(b, id)),
    decreases a.len() + b.len(),
{
    if a.len() > 0 && b.len() > 0 {
        lemma_rest_ascending(a);
        lemma_rest_ascending(b);
        let ra = a.skip(1);
        let rb = b.skip(1);
        if a[0].0 < b[0].0 {
            let rest = merged(ra, b);
            assert((seq![a[0]] + rest).skip(1) == rest);
            lemma_merged_coefficients(ra, b, id);
            if id == a[0].0 {
                lemma_before_first_has_no_term(b, id);
            }
        } else if a[0].0 == b[0].0 {
            let rest = merged(ra, rb);
            let sum = a[0].1.spec_add(b[0].1);
            assert((seq![(a[0].0, sum)] + rest).skip(1) == rest);
            lemma_merged_coefficients(ra, rb, id);
            if id == a[0].0 {
                lemma_before_first_has_no_term(ra, id);
                lemma_before_first_has_no_term(rb, id);
            }
        } else {
            let rest = merged(a, rb);
            assert((seq![b[0]] + rest).skip(1) == rest);
            lemma_merged_coefficients(a, rb, id);
            if id == b[0].0 {
                lemma_before_first_has_no_term(a, id);
            }
        }
    }
}

/// A sum of variables multiplied by some factor and a constant. Variables not
/// present are taken to be multiplied by zero.
#[derive(Clone)]
pub struct Expression<C: Coefficient> {
    /// The constant part of the sum.
    pub constant: C,
    /// Variable ids with their multiplier, in ascending order of the ids.
    pub variables: Vec<(usize, C)>,
}

/// An expression that is at most zero.
#[derive(Clone)]
pub struct Inequality<C: Coefficient>(pub Expression<C>);

impl<C: Coefficient> Expression<C> {
    /// The terms are in strictly ascending order of their variables.
    pub open spec fn wf(&self) -> bool {
        ascending(self.variables@)
    }

    /// The expression that is the constant `val`.
    pub fn cons(val: C) -> (r: Self)
        ensures
            r.constant == val,
            r.variables@.len() == 0,
            r.wf(),
    {
        Expression { constant: val, variables: Vec::new() }
    }

    /// The expression that is the variable `vid`.
    pub fn from(vid: VariableId) -> (r: Self)
        ensures
            r.constant == C::spec_zero(),
            r.variables@ == seq![(vid.0, C::spec_one())],
            r.wf(),
    {
        let mut variables: Vec<(usize, C)> = Vec::new();
        variables.push((vid.0, C::one()));
        Expression { constant: C::zero(), variables }
    }

    /// Multiplies the constant and every coefficient by `rhs`.
    pub fn mul_assign(&mut self, rhs: C)
        ensures
            final(self).constant == old(self).constant.spec_mul(rhs),
            final(self).variables@ == scaled(old(self).variables@, rhs),
            old(self).wf() ==> final(self).wf(),
    {
        self.constant = self.constant.mul(rhs);
        let mut nv: Vec<(usize, C)> = Vec::new();
        let mut i: usize = 0;
        while i < self.variables.len()
            invariant
                i <= self.variables@.len(),
                self.variables@ == old(self).variables@,
                nv@ == scaled(self.variables@, rhs).take(i as int),
            decreases self.variables@.len() - i,
        {
            let v = self.variables[i];
            nv.push((v.0, v.1.mul(rhs)));
            i += 1;
        }
        proof {
            let all = scaled(old(self).variables@, rhs);
            assert(all.take(all.len() as int) == all);
        }
        self.variables = nv;
    }

    /// The expression multiplied by `rhs`.
    pub fn mul(self, rhs: C) -> (r: Self)
        ensures
            r.constant == self.constant.spec_mul(rhs),
            r.variables@ == scaled(self.variables@, rhs),
            self.wf() ==> r.wf(),
    {
        let mut r = self;
        r.mul_assign(rhs);
        r
    }

    /// Adds `other` to the expression.
    pub fn add_assign(&mut self, other: Expression<C>)
        ensures
            final(self).constant == old(self).constant.spec_add(other.constant),
            final(self).variables@ == merged(old(self).variables@, other.variables@),
            old(self).wf() && other.wf() ==> final(self).wf(),
    {
        self.constant = self.constant.add(other.constant);
        let ghost a = self.variables@;
        let ghost b = other.variables@;
        let mut nv: Vec<(usize, C)> = Vec::new();
        let mut i0: usize = 0;
        let mut i1: usize = 0;
        proof {
            assert(a.skip(0) == a);
            assert(b.skip(0) == b);
        }
        while i0 < self.variables.len() && i1 < other.variables.len()
            invariant
                i0 <= a.len(),
                i1 <= b.len(),
                self.variables@ == a,
                other.variables@ == b,
                nv@ + merged(a.skip(i0 as int), b.skip(i1 as int)) == merged(a, b),
            decreases a.len() - i0 + b.len() - i1,
        {
            let v0 = self.variables[i0];
            let v1 = other.variables[i1];
            proof {
                assert(a.skip(i0 as int)[0] == v0);
                assert(b.skip(i1 as int)[0] == v1);
                assert(a.skip(i0 as int).skip(1) == a.skip(i0 + 1));
                assert(b.skip(i1 as int).skip(1) == b.skip(i1 + 1));
            }
            let ghost before = nv@;
            if v0.0 < v1.0 {
                nv.push(v0);
                i0 += 1;
                assert(nv@ + merged(a.skip(i0 as int), b.skip(i1 as int)) == before + (seq![v0]
                    + merged(a.skip(i0 as int), b.skip(i1 as int))));
            } else if v0.0 == v1.0 {
                let sum = v0.1.add(v1.1);
                if !sum.is_zero() {
                    nv.push((v0.0, sum));
                    assert(nv@ + merged(a.skip(i0 + 1), b.skip(i1 + 1)) == before + (seq![
                        (v0.0, sum),
                    ] + merged(a.skip(i0 + 1), b.skip(i1 + 1))));
                }
                i0 += 1;
                i1 += 1;
            } else {
                nv.push(v1);
                i1 += 1;
                assert(nv@ + merged(a.skip(i0 as int), b.skip(i1 as int)) == before + (seq![v1]
                    + merged(a.skip(i0 as int), b.skip(i1 as int))));
            }
        }
        while i0 < self.variables.len()
            invariant
                i0 <= a.len(),
                i1 <= b.len(),
                i0 == a.len() || i1 == b.len(),
                self.variables@ == a,
                other.variables@ == b,
                nv@ + merged(a.skip(i0 as int), b.skip(i1 as int)) == merged(a, b),
            decreases a.len() - i0,
        {
            let v0 = self.variables[i0];
            proof {
                assert(a.skip(i0 as int)[0] == v0);
                assert(a.skip(i0 as int) == seq![v0] + a.skip(i0 + 1));
                assert(b.skip(i1 as int).len() == 0);
            }
            let ghost before = nv@;
            nv.push(v0);
            i0 += 1;
            assert(nv@ + merged(a.skip(i0 as int), b.skip(i1 as int)) == before + (seq![v0]
                + a.skip(i0 as int)));
        }
        while i1 < other.variables.len()
            invariant
                i0 == a.len(),
                i1 <= b.len(),
                self.variables@ == a,
                other.variables@ == b,
                nv@ + merged(a.skip(i0 as int), b.skip(i1 as int)) == merged(a, b),
            decreases b.len() - i1,
        {
            let v1 = other.variables[i1];
            proof {
                assert(b.skip(i1 as int)[0] == v1);
                assert(b.skip(i1 as int) == seq![v1] + b.skip(i1 + 1));
                assert(a.skip(i0 as int).len() == 0);
            }
            let ghost before = nv@;
            nv.push(v1);
            i1 += 1;
            assert(nv@ + merged(a.skip(i0 as int), b.skip(i1 as int)) == before + (seq![v1]
                + b.skip(i1 as int)));
        }
        proof {
            assert(merged(a.skip(i0 as int), b.skip(i1 as int)).len() == 0);
            assert(nv@ == nv@ + merged(a.skip(i0 as int), b.skip(i1 as int)));
            if ascending(a) && ascending(b) {
                lemma_merged_ascending(a, b, 0);
            }
        }
        self.variables = nv;
    }

    /// The sum of the expression and `rhs`.
    pub fn add(self, rhs: Expression<C>) -> (r: Self)
        ensures
            r.constant == self.constant.spec_add(rhs.constant),
            r.variables@ == merged(self.variables@, rhs.variables@),
            self.wf() && rhs.wf() ==> r.wf(),
    {
        let mut r = self;
        r.add_assign(rhs);
        r
    }

    /// The expression multiplied by minus one.
    pub fn neg(self) -> (r: Self)
        ensures
            r.constant == self.constant.spec_mul(C::spec_minus_one()),
            r.variables@ == scaled(self.variables@, C::spec_minus_one()),
            self.wf() ==> r.wf(),
    {
        self.mul(C::minus_one())
    }

    /// Subtracts `other` from the expression: adds `other` multiplied by
    /// minus one.
    pub fn sub_assign(&mut self, other: Expression<C>)
        ensures
            final(self).constant == old(self).constant.spec_add(
                other.constant.spec_mul(C::spec_minus_one()),
            ),
            final(self).variables@ == merged(
                old(self).variables@,
                scaled(other.variables@, C::spec_minus_one()),
            ),
            old(self).wf() && other.wf() ==> final(self).wf(),
    {
        self.add_assign(other.neg());
    }

    /// The expression less `rhs`.
    pub fn sub(self, rhs: Expression<C>) -> (r: Self)
        ensures
            r.constant == self.constant.spec_add(rhs.constant.spec_mul(C::spec_minus_one())),
            r.variables@ == merged(self.variables@, scaled(rhs.variables@, C::spec_minus_one())),
            self.wf() && rhs.wf() ==> r.wf(),
    {
        let mut r = self;
        r.sub_assign(rhs);
        r
    }

    /// The constraint that the expression is at most `rhs`: their difference
    /// is at most zero.
    pub fn shl(self, rhs: Expression<C>) -> (r: Inequality<C>)
        ensures
            r.0.constant == self.constant.spec_add(rhs.constant.spec_mul(C::spec_minus_one())),
            r.0.variables@ == merged(self.variables@, scaled(rhs.variables@, C::spec_minus_one())),
            self.wf() && rhs.wf() ==> r.0.wf(),
    {
        Inequality(self.sub(rhs))
    }

    /// The constraint that the expression is at least `rhs`: `rhs` less the
    /// expression is at most zero.
    pub fn shr(self, rhs: Expression<C>) -> (r: Inequality<C>)
        ensures
            r.0.constant == rhs.constant.spec_add(self.constant.spec_mul(C::spec_minus_one())),
            r.0.variables@ == merged(rhs.variables@, scaled(self.variables@, C::spec_minus_one())),
            self.wf() && rhs.wf() ==> r.0.wf(),
    {
        Inequality(rhs.sub(self))
    }
}

/// What is known of one variable of a model.
pub struct VariableInfo<C: Coefficient> {
    /// Minimum value the variable can take.
    pub lb: C,
    /// Maximum value the variable can take.
    pub ub: C,
    /// Whether the variable is restricted to integers.
    pub integer: bool,
    /// Variable name.
    pub name: String,
}

/// A model in the making: its variables and its constraints, each named by
/// its place.
pub struct ModelBuilder<C: Coefficient> {
    pub variables: Vec<VariableInfo<C>>,
    pub constraints: Vec<Inequality<C>>,
}

/// How a variable is written: by its name, or as `var[id]` if it has none.
pub open spec fn var_text<C: Coefficient>(vars: Seq<VariableInfo<C>>, id: usize) -> Seq<char> {
    if vars[id as int].name@.len() == 0 {
        seq!['v', 'a', 'r', '['] + decimal_text(id as nat) + seq![']']
    } else {
        vars[id as int].name@
    }
}

/// How a term is written: a blank, the sign of the coefficient unless that is
/// zero, the size of the coefficient and a dot unless the size is one, and
/// the variable.
pub open spec fn term_text<C: Coefficient>(vars: Seq<VariableInfo<C>>, term: (usize, C)) -> Seq<
    char,
> {
    seq![' '] + (if term.1.spec_is_positive() {
        seq!['+']
    } else {
        Seq::empty()
    }) + (if term.1.spec_is_negative() {
        seq!['-']
    } else {
        Seq::empty()
    }) + (if term.1.spec_abs().spec_is_one() {
        Seq::empty()
    } else {
        term.1.spec_abs().spec_text() + seq!['\u{b7}']
    }) + var_text(vars, term.0)
}

/// How terms are written: one after the other.
pub open spec fn terms_text<C: Coefficient>(vars: Seq<VariableInfo<C>>, terms: Seq<(usize, C)>)
    -> Seq<char>
    decreases terms.len(),
{
    if terms.len() == 0 {
        Seq::empty()
    } else {
        terms_text(vars, terms.drop_last()) + term_text(vars, terms.last())
    }
}

/// How a constant is written: not at all if it is zero, else a blank, a plus
/// sign if it is positive, and the constant.
pub open spec fn constant_text<C: Coefficient>(constant: C) -> Seq<char> {
    if constant.spec_is_zero() {
        Seq::empty()
    } else {
        seq![' '] + (if constant.spec_is_positive() {
            seq!['+']
        } else {
            Seq::empty()
        }) + constant.spec_text()
    }
}

/// How an expression is written: its terms, then its constant.
pub open spec fn expr_text<C: Coefficient>(vars: Seq<VariableInfo<C>>, expr: Expression<C>) -> Seq<
    char,
> {
    terms_text(vars, expr.variables@) + constant_text(expr.constant)
}

/// How a constraint is written: its expression, then ` <= 0`.
pub open spec fn ineq_text<C: Coefficient>(vars: Seq<VariableInfo<C>>, ineq: Inequality<C>) -> Seq<
    char,
> {
    expr_text(vars, ineq.0) + seq![' ', '<', '=', ' ', '0']
}

/// How constraints are written: each on a line of its own.
pub open spec fn model_text<C: Coefficient>(
    vars: Seq<VariableInfo<C>>,
    constraints: Seq<Inequality<C>>,
) -> Seq<char>
    decreases constraints.len(),
{
    if constraints.len() == 0 {
        Seq::empty()
    } else {
        model_text(vars, constraints.drop_last()) + ineq_text(vars, constraints.last()) + seq!['\n']
    }
}

/// Every term names a variable of the model.
pub open spec fn names_variables<C: Coefficient>(terms: Seq<(usize, C)>, count: nat) -> bool {
    forall|i: int| 0 <= i < terms.len() ==> (#[trigger] terms[i]).0 < count
}

impl<C: Coefficient> ModelBuilder<C> {
    /// A model without variables and constraints.
    pub fn new() -> (r: Self)
        ensures
            r.variables@.len() == 0,
            r.constraints@.len() == 0,
    {
        ModelBuilder { variables: Vec::new(), constraints: Vec::new() }
    }

    /// Adds a variable and returns its id: the number of variables before.
    pub fn add_var(&mut self, lb: C, ub: C, integer: bool, name: String) -> (id: VariableId)
        ensures
            id.0 == old(self).variables@.len(),
            final(self).variables@ == old(self).variables@.push(
                (VariableInfo { lb, ub, integer, name }),
            ),
            final(self).constraints@ == old(self).constraints@,
    {
        let id = VariableId(self.variables.len());
        self.variables.push(VariableInfo { lb, ub, integer, name });
        id
    }

    /// Adds a constraint and returns its id: the number of constraints
    /// before.
    pub fn add_constraint(&mut self, constraint: Inequality<C>) -> (id: ConstraintId)
        ensures
            id.0 == old(self).constraints@.len(),
            final(self).constraints@ == old(self).constraints@.push(constraint),
            final(self).variables@ == old(self).variables@,
    {
        let id = ConstraintId(self.constraints.len());
        self.constraints.push(constraint);
        id
    }

    /// Writes a variable.
    pub fn fmt_var(&self, id: usize) -> (s: String)
        requires
            id < self.variables@.len(),
        ensures
            s@ == var_text(self.variables@, id),
    {
        if self.variables[id].name.as_str().is_empty() {
            let mut s = String::new();
            push_char(&mut s, 'v');
            push_char(&mut s, 'a');
            push_char(&mut s, 'r');
            push_char(&mut s, '[');
            let digits = decimal(id);
            s.append(digits.as_str());
            push_char(&mut s, ']');
            assert(s@ == seq!['v', 'a', 'r', '['] + decimal_text(id as nat) + seq![']']);
            s
        } else {
            self.variables[id].name.clone()
        }
    }

    /// Writes an expression.
    pub fn fmt_expr(&self, expr: &Expression<C>) -> (s: String)
        requires
            names_variables(expr.variables@, self.variables@.len()),
        ensures
            s@ == expr_text(self.variables@, *expr),
    {
        let mut s = String::new();
        let mut i: usize = 0;
        while i < expr.variables.len()
            invariant
                i <= expr.variables@.len(),
                names_variables(expr.variables@, self.variables@.len()),
                s@ == terms_text(self.variables@, expr.variables@.take(i as int)),
            decreases expr.variables@.len() - i,
        {
            let term = expr.variables[i];
            let ghost before = s@;
            push_char(&mut s, ' ');
            if term.1.is_positive() {
                push_char(&mut s, '+');
            }
            if term.1.is_negative() {
                push_char(&mut s, '-');
            }
            let size = term.1.abs();
            if !size.is_one() {
                let digits = size.text();
                s.append(digits.as_str());
                push_char(&mut s, '\u{b7}');
            }
            let name = self.fmt_var(term.0);
            s.append(name.as_str());
            proof {
                assert(expr.variables@.take(i + 1).drop_last() == expr.variables@.take(i as int));
                assert(s@ == before + term_text(self.variables@, term));
            }
            i += 1;
        }
        proof {
            assert(expr.variables@.take(i as int) == expr.variables@);
        }
        if !expr.constant.is_zero() {
            let ghost before = s@;
            push_char(&mut s, ' ');
            if expr.constant.is_positive() {
                push_char(&mut s, '+');
            }
            let digits = expr.constant.text();
            s.append(digits.as_str());
            assert(s@ == before + constant_text(expr.constant));
        }
        s
    }

    /// Writes a constraint.
    pub fn fmt_ineq(&self, ineq: &Inequality<C>) -> (s: String)
        requires
            names_variables(ineq.0.variables@, self.variables@.len()),
        ensures
            s@ == ineq_text(self.variables@, *ineq),
    {
        let mut s = self.fmt_expr(&ineq.0);
        let ghost before = s@;
        push_char(&mut s, ' ');
        push_char(&mut s, '<');
        push_char(&mut s, '=');
        push_char(&mut s, ' ');
        push_char(&mut s, '0');
        assert(s@ == before + seq![' ', '<', '=', ' ', '0']);
        s
    }

    /// Writes the constraints of the model, each on a line of its own.
    pub fn fmt(&self) -> (s: String)
        requires
            forall|k: int|
                0 <= k < self.constraints@.len() ==> names_variables(
                    (#[trigger] self.constraints@[k]).0.variables@,
                    self.variables@.len(),
                ),
        ensures
            s@ == model_text(self.variables@, self.constraints@),
    {
        let mut s = String::new();
        let mut k: usize = 0;
        while k < self.constraints.len()
            invariant
                k <= self.constraints@.len(),
                forall|j: int|
                    0 <= j < self.constraints@.len() ==> names_variables(
                        (#[trigger] self.constraints@[j]).0.variables@,
                        self.variables@.len(),
                    ),
                s@ == model_text(self.variables@, self.constraints@.take(k as int)),
            decreases self.constraints@.len() - k,
        {
            let ghost before = s@;
            let line = self.fmt_ineq(&self.constraints[k]);
            s.append(line.as_str());
            push_char(&mut s, '\n');
            proof {
                assert(self.constraints@.take(k + 1).drop_last() == self.constraints@.take(
                    k as int,
                ));
                assert(s@ == before + ineq_text(self.variables@, self.constraints@[k as int])
                    + seq!['\n']);
            }
            k += 1;
        }
        proof {
            assert(self.constraints@.take(k as int) == self.constraints@);
        }
        s
    }
}

impl<C: Coefficient> Default for ModelBuilder<C> {
    fn default() -> (r: Self)
        ensures
            r.variables@.len() == 0,
            r.constraints@.len() == 0,
    {
        Self::new()
    }
}

} // verus!
