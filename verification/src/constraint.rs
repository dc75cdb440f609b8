//! Two-sided relational constraints over linear expressions, and their
//! normalization into the single-sided form a solver expects: all variable
//! terms on the left, one folded constant on the right.

use vstd::prelude::*;
use vstd::string::*;

use crate::expression::{
    expr_render, keep_vars, neg_terms, terms_wf, Expression, Term, TermModel,
};
use crate::rat::{rat_add_fits, rat_add_s, rat_neg_s, rat_zero, Rat, RatModel};
use crate::variable::Variable;

verus! {

/// The relational operator joining the two sides of a constraint.
#[derive(Clone, Copy, PartialEq, Eq, Structural, Debug)]
pub enum Relation {
    Le,
    Eq,
    Ge,
}

/// The text of a relation between two rendered sides.
pub open spec fn rel_token(r: Relation) -> Seq<char> {
    match r {
        Relation::Le => seq![' ', '<', '=', ' '],
        Relation::Eq => seq![' ', '=', ' '],
        Relation::Ge => seq![' ', '>', '=', ' '],
    }
}

/// Folds the constant (variable-less) coefficients of a term sequence
/// left-to-right into a running sum, starting from the given accumulator.
pub open spec fn fold_consts(acc: RatModel, s: Seq<TermModel>) -> RatModel
    decreases s.len(),
{
    if s.len() == 0 {
        acc
    } else if s[0].var is None {
        fold_consts(rat_add_s(acc, s[0].coeff), s.skip(1))
    } else {
        fold_consts(acc, s.skip(1))
    }
}

/// Every addition performed while folding the constant terms fits the
/// machine representation.
pub open spec fn fold_consts_fits(acc: RatModel, s: Seq<TermModel>) -> bool
    decreases s.len(),
{
    if s.len() == 0 {
        true
    } else if s[0].var is None {
        rat_add_fits(acc, s[0].coeff) && fold_consts_fits(rat_add_s(acc, s[0].coeff), s.skip(1))
    } else {
        fold_consts_fits(acc, s.skip(1))
    }
}

/// Mathematical model of a constraint.
pub struct ConstraintModel {
    pub lhs: Seq<TermModel>,
    pub rel: Relation,
    pub rhs: Seq<TermModel>,
}

/// The term sequence of the difference `lhs - rhs` from which a constraint
/// is normalized.
pub open spec fn normal_delta(c: ConstraintModel) -> Seq<TermModel> {
    c.lhs + neg_terms(c.rhs)
}

/// The normalized left side: the variable terms of the difference, order
/// preserved, not deduplicated.
pub open spec fn normal_lhs(c: ConstraintModel) -> Seq<TermModel> {
    keep_vars(normal_delta(c))
}

/// The normalized right side's constant: the folded constant terms of the
/// difference, negated because they move across the relation.
pub open spec fn normal_rhs_const(c: ConstraintModel) -> RatModel {
    rat_neg_s(fold_consts(rat_zero(), normal_delta(c)))
}

/// The rendering of a constraint: left side, relation token, right side.
pub open spec fn constraint_render(c: ConstraintModel) -> Seq<char> {
    expr_render(c.lhs) + rel_token(c.rel) + expr_render(c.rhs)
}

/// An ordered pair of expressions joined by a relational operator. Not
/// inherently normalized; normalization is an explicit transform.
pub struct Constraint {
    pub(crate) lhs: Expression,
    pub(crate) rel: Relation,
    pub(crate) rhs: Expression,
}

impl View for Constraint {
    type V = ConstraintModel;

    closed spec fn view(&self) -> ConstraintModel {
        ConstraintModel { lhs: self.lhs@, rel: self.rel, rhs: self.rhs@ }
    }
}

impl Constraint {
    pub open spec fn wf(&self) -> bool {
        terms_wf(self@.lhs) && terms_wf(self@.rhs)
    }

    /// All the fold additions of this constraint's normalization fit the
    /// machine representation.
    pub open spec fn normalize_fits(&self) -> bool {
        fold_consts_fits(rat_zero(), normal_delta(self@))
    }

    /// Normalizes: subtracts the right side from the left, keeps the
    /// variable terms (order preserved, duplicates kept) as the new left
    /// side, folds the constant terms left-to-right and moves the sum,
    /// negated, to the right side. The relation is carried through.
    #[verifier::loop_isolation(false)]
    pub fn to_normalized(self) -> (r: Constraint)
        requires
            self.wf(),
            self.normalize_fits(),
        ensures
            r@.rel == self@.rel,
            r@.lhs == normal_lhs(self@),
            r@.rhs == seq![TermModel { coeff: normal_rhs_const(self@), var: Option::None }],
            r.wf(),
    {
        proof {
            assert forall|i: int| 0 <= i < self@.rhs.len() implies (#[trigger] self@.rhs[i]).coeff.wf() by {
            }
        }
        let Constraint { lhs, rel, rhs } = self;
        let delta = lhs.sub(rhs);
        let ghost d = delta@;
        proof {
            assert(d == normal_delta(self@));
            assert forall|i: int| 0 <= i < d.len() implies (#[trigger] d[i]).coeff.wf() by {
                if i < self@.lhs.len() {
                    assert(d[i] == self@.lhs[i]);
                } else {
                    assert(d[i] == neg_terms(self@.rhs)[i - self@.lhs.len()]);
                }
            }
        }
        let n = delta.terms.len();
        let mut kept: Vec<Term> = Vec::new();
        let mut acc = Rat::zero();
        let mut i: usize = 0;
        proof {
            delta.lemma_view();
            assert(d.len() == n);
            assert(d.skip(0) =~= d);
            assert(kept@.map_values(|t: Term| t@) =~= Seq::<TermModel>::empty());
            assert(Seq::<TermModel>::empty() + keep_vars(d) =~= keep_vars(d));
        }
        while i < n
            invariant
                i <= n,
                acc@.wf(),
                terms_wf(kept@.map_values(|t: Term| t@)),
                keep_vars(d) == kept@.map_values(|t: Term| t@) + keep_vars(d.skip(i as int)),
                fold_consts(rat_zero(), d) == fold_consts(acc@, d.skip(i as int)),
                fold_consts_fits(acc@, d.skip(i as int)),
            decreases n - i,
        {
            let t = delta.terms[i].duplicate();
            proof {
                assert(t@ == d[i as int]);
                assert(d.skip(i as int)[0] == d[i as int]);
                assert(d.skip(i as int).skip(1) =~= d.skip(i + 1));
            }
            if t.var.is_some() {
                let ghost kept_pre = kept@.map_values(|t: Term| t@);
                kept.push(t);
                proof {
                    assert(kept@.map_values(|t: Term| t@) =~= kept_pre + seq![d[i as int]]);
                    assert(keep_vars(d.skip(i as int)) == seq![d[i as int]] + keep_vars(
                        d.skip(i + 1),
                    ));
                    assert(kept_pre + seq![d[i as int]] + keep_vars(d.skip(i + 1)) =~= kept_pre
                        + keep_vars(d.skip(i as int)));
                    assert(terms_wf(kept@.map_values(|t: Term| t@)));
                }
            } else {
                proof {
                    assert(rat_add_fits(acc@, d[i as int].coeff));
                    assert(fold_consts(acc@, d.skip(i as int)) == fold_consts(
                        rat_add_s(acc@, d[i as int].coeff),
                        d.skip(i + 1),
                    ));
                }
                acc = acc.add(t.coeff);
            }
            i = i + 1;
        }
        proof {
            assert(d.skip(n as int) =~= Seq::<TermModel>::empty());
            assert(kept@.map_values(|t: Term| t@) + keep_vars(d.skip(n as int))
                =~= kept@.map_values(|t: Term| t@));
        }
        let folded = acc.neg();
        let new_lhs = Expression { terms: kept };
        let new_rhs = Expression::from_const(folded);
        proof {
            new_lhs.lemma_view();
        }
        Constraint { lhs: new_lhs, rel, rhs: new_rhs }
    }

    /// An explicit copy, proved to denote the same constraint.
    pub fn duplicate(&self) -> (r: Constraint)
        ensures
            r@ == self@,
    {
        Constraint { lhs: self.lhs.duplicate(), rel: self.rel, rhs: self.rhs.duplicate() }
    }

    /// Renders the constraint: left side, relation token, right side.
    pub fn render(&self) -> (s: String)
        requires
            self.wf(),
        ensures
            s@ == constraint_render(self@),
    {
        proof {
            reveal_strlit(" <= ");
            reveal_strlit(" = ");
            reveal_strlit(" >= ");
        }
        let mut s = self.lhs.render();
        match self.rel {
            Relation::Le => s.append(" <= "),
            Relation::Eq => s.append(" = "),
            Relation::Ge => s.append(" >= "),
        }
        let right = self.rhs.render();
        s.append(right.as_str());
        proof {
            assert(s@ =~= constraint_render(self@));
        }
        s
    }
}

impl Expression {
    /// A `lhs <= rhs` constraint from the two operands, in call order.
    pub fn le(self, rhs: Expression) -> (r: Constraint)
        ensures
            r@ == (ConstraintModel { lhs: self@, rel: Relation::Le, rhs: rhs@ }),
    {
        Constraint { lhs: self, rel: Relation::Le, rhs }
    }

    /// A `lhs = rhs` constraint from the two operands, in call order.
    pub fn eq(self, rhs: Expression) -> (r: Constraint)
        ensures
            r@ == (ConstraintModel { lhs: self@, rel: Relation::Eq, rhs: rhs@ }),
    {
        Constraint { lhs: self, rel: Relation::Eq, rhs }
    }

    /// A `lhs >= rhs` constraint from the two operands, in call order.
    pub fn ge(self, rhs: Expression) -> (r: Constraint)
        ensures
            r@ == (ConstraintModel { lhs: self@, rel: Relation::Ge, rhs: rhs@ }),
    {
        Constraint { lhs: self, rel: Relation::Ge, rhs }
    }
}

impl Variable {
    /// A `self <= rhs` constraint, the variable promoted to an expression.
    pub fn le(self, rhs: Expression) -> (r: Constraint)
        ensures
            r@ == (ConstraintModel {
                lhs: seq![
                    TermModel { coeff: crate::rat::rat_one(), var: Option::Some(self@) },
                ],
                rel: Relation::Le,
                rhs: rhs@,
            }),
    {
        Expression::from_var(self).le(rhs)
    }

    /// A `self = rhs` constraint, the variable promoted to an expression.
    pub fn eq(self, rhs: Expression) -> (r: Constraint)
        ensures
            r@ == (ConstraintModel {
                lhs: seq![
                    TermModel { coeff: crate::rat::rat_one(), var: Option::Some(self@) },
                ],
                rel: Relation::Eq,
                rhs: rhs@,
            }),
    {
        Expression::from_var(self).eq(rhs)
    }

    /// A `self >= rhs` constraint, the variable promoted to an expression.
    pub fn ge(self, rhs: Expression) -> (r: Constraint)
        ensures
            r@ == (ConstraintModel {
                lhs: seq![
                    TermModel { coeff: crate::rat::rat_one(), var: Option::Some(self@) },
                ],
                rel: Relation::Ge,
                rhs: rhs@,
            }),
    {
        Expression::from_var(self).ge(rhs)
    }
}

/// Normalization is idempotent: a constraint whose left side holds only
/// variable terms and whose right side is one constant normalizes to
/// exactly the same left side and the same right-side constant, whatever
/// the relation.
pub proof fn lemma_normalize_idempotent(l: Seq<TermModel>, c: RatModel, rel: Relation)
    requires
        forall|i: int| 0 <= i < l.len() ==> (#[trigger] l[i]).var is Some,
    ensures
        normal_lhs(
            ConstraintModel {
                lhs: l,
                rel,
                rhs: seq![TermModel { coeff: c, var: Option::None }],
            },
        ) == l,
        normal_rhs_const(
            ConstraintModel {
                lhs: l,
                rel,
                rhs: seq![TermModel { coeff: c, var: Option::None }],
            },
        ) == c,
{
    let rhs = seq![TermModel { coeff: c, var: Option::None }];
    let neg_rhs = neg_terms(rhs);
    let x = TermModel { coeff: RatModel { n: (-1) * c.n, d: 1 * c.d }, var: Option::None };
    assert(neg_rhs =~= seq![x]);
    assert(seq![x].skip(1) =~= Seq::<TermModel>::empty());
    lemma_keep_vars_var_prefix(l, neg_rhs);
    assert(keep_vars(seq![x]) == keep_vars(Seq::<TermModel>::empty()));
    assert(keep_vars(Seq::<TermModel>::empty()) == Seq::<TermModel>::empty());
    assert(l + keep_vars(neg_rhs) =~= l);
    lemma_fold_consts_var_prefix(rat_zero(), l, neg_rhs);
    assert(fold_consts(rat_zero(), seq![x]) == fold_consts(
        rat_add_s(rat_zero(), x.coeff),
        Seq::<TermModel>::empty(),
    ));
    assert(fold_consts(rat_add_s(rat_zero(), x.coeff), Seq::<TermModel>::empty()) == rat_add_s(
        rat_zero(),
        x.coeff,
    ));
    let folded = rat_add_s(rat_zero(), x.coeff);
    let cn = c.n;
    let cd = c.d;
    assert(folded.n == 0 * ((1) * cd) + ((-1) * cn) * 1);
    assert(folded.d == 1 * ((1) * cd));
    assert(0 * ((1) * cd) + ((-1) * cn) * 1 == -cn) by (nonlinear_arith);
    assert(1 * ((1) * cd) == cd) by (nonlinear_arith);
    assert(rat_neg_s(folded).n == cn);
    assert(rat_neg_s(folded).d == cd);
    assert(rat_neg_s(folded) == c);
}


/// Every term the variable-keeping pass keeps is variable-bound.
pub proof fn lemma_keep_vars_all_vars(s: Seq<TermModel>)
    ensures
        forall|i: int| 0 <= i < keep_vars(s).len() ==> (#[trigger] keep_vars(s)[i]).var is Some,
    decreases s.len(),
{
    if s.len() != 0 {
        lemma_keep_vars_all_vars(s.skip(1));
        if s[0].var is Some {
            assert forall|i: int| 0 <= i < keep_vars(s).len() implies (#[trigger] keep_vars(
                s,
            )[i]).var is Some by {
                if i > 0 {
                    assert(keep_vars(s)[i] == keep_vars(s.skip(1))[i - 1]);
                }
            }
        }
    }
}

/// Folding constants skips over a prefix made only of variable terms.
proof fn lemma_fold_consts_var_prefix(acc: RatModel, l: Seq<TermModel>, s: Seq<TermModel>)
    requires
        forall|i: int| 0 <= i < l.len() ==> (#[trigger] l[i]).var is Some,
    ensures
        fold_consts(acc, l + s) == fold_consts(acc, s),
    decreases l.len(),
{
    if l.len() == 0 {
        assert(l + s =~= s);
    } else {
        assert((l + s).skip(1) =~= l.skip(1) + s);
        lemma_fold_consts_var_prefix(acc, l.skip(1), s);
    }
}

/// Keeping variable terms passes a prefix made only of variable terms
/// through unchanged.
proof fn lemma_keep_vars_var_prefix(l: Seq<TermModel>, s: Seq<TermModel>)
    requires
        forall|i: int| 0 <= i < l.len() ==> (#[trigger] l[i]).var is Some,
    ensures
        keep_vars(l + s) == l + keep_vars(s),
    decreases l.len(),
{
    if l.len() == 0 {
        assert(l + s =~= s);
        assert(l + keep_vars(s) =~= keep_vars(s));
    } else {
        assert((l + s).skip(1) =~= l.skip(1) + s);
        lemma_keep_vars_var_prefix(l.skip(1), s);
        assert(seq![(l + s)[0]] + (l.skip(1) + keep_vars(s)) =~= l + keep_vars(s));
    }
}

} // verus!
