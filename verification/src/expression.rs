//! Sparse linear combinations: an ordered sequence of (coefficient,
//! optional variable) terms, where a term without a variable is a constant
//! bias. The algebra never merges or reorders terms — addition concatenates,
//! negation and scaling act coefficient-wise — so composition is fully
//! predictable; folding happens only during constraint normalization.

use vstd::prelude::*;
use vstd::string::*;

use crate::rat::{
    rat_abs_s, rat_equiv, rat_inv_s, rat_is_neg, rat_mul_fits, rat_mul_s, rat_one, rat_render,
    Rat, RatModel,
};
use crate::variable::{var_display, VarModel, Variable};

verus! {

/// Mathematical model of one term of a linear expression.
pub struct TermModel {
    pub coeff: RatModel,
    pub var: Option<VarModel>,
}

/// One term: a coefficient and, unless the term is a constant bias, the
/// variable it multiplies.
pub struct Term {
    pub coeff: Rat,
    pub var: Option<Variable>,
}

impl View for Term {
    type V = TermModel;

    open spec fn view(&self) -> TermModel {
        TermModel {
            coeff: self.coeff@,
            var: match self.var {
                Option::Some(v) => Option::Some(v@),
                Option::None => Option::None,
            },
        }
    }
}

impl Term {
    /// An explicit copy of the term, proved to denote the same term.
    pub fn duplicate(&self) -> (r: Term)
        ensures
            r@ == self@,
    {
        let var: Option<Variable> = match &self.var {
            Option::Some(v) => Option::Some(v.duplicate()),
            Option::None => Option::None,
        };
        Term { coeff: self.coeff, var }
    }
}

/// The variable-bound terms of a sequence, in their original relative
/// order; constant terms are dropped.
pub open spec fn keep_vars(s: Seq<TermModel>) -> Seq<TermModel>
    decreases s.len(),
{
    if s.len() == 0 {
        Seq::<TermModel>::empty()
    } else if s[0].var is Some {
        seq![s[0]] + keep_vars(s.skip(1))
    } else {
        keep_vars(s.skip(1))
    }
}

/// Keeping only the variable-bound terms preserves coefficient
/// well-formedness.
pub proof fn lemma_keep_vars_wf(s: Seq<TermModel>)
    requires
        terms_wf(s),
    ensures
        terms_wf(keep_vars(s)),
    decreases s.len(),
{
    if s.len() != 0 {
        assert(terms_wf(s.skip(1))) by {
            assert forall|i: int| 0 <= i < s.skip(1).len() implies (#[trigger] s.skip(
                1,
            )[i]).coeff.wf() by {
                assert(s.skip(1)[i] == s[i + 1]);
            }
        }
        lemma_keep_vars_wf(s.skip(1));
        if s[0].var is Some {
            assert forall|i: int| 0 <= i < keep_vars(s).len() implies (#[trigger] keep_vars(
                s,
            )[i]).coeff.wf() by {
                if i == 0 {
                    assert(keep_vars(s)[0] == s[0]);
                } else {
                    assert(keep_vars(s)[i] == keep_vars(s.skip(1))[i - 1]);
                }
            }
        }
    }
}

/// All coefficients of a term sequence are well-formed rationals.
pub open spec fn terms_wf(s: Seq<TermModel>) -> bool {
    forall|i: int| 0 <= i < s.len() ==> (#[trigger] s[i]).coeff.wf()
}

/// Every term's coefficient multiplied by the scalar fits the machine
/// representation.
pub open spec fn scale_fits(s: Seq<TermModel>, k: RatModel) -> bool {
    forall|i: int| 0 <= i < s.len() ==> rat_mul_fits(k, (#[trigger] s[i]).coeff)
}

/// Scaling a term sequence: every coefficient is multiplied by the scalar;
/// variables and order are untouched.
pub open spec fn scale_terms(s: Seq<TermModel>, k: RatModel) -> Seq<TermModel> {
    s.map_values(|t: TermModel| TermModel { coeff: rat_mul_s(k, t.coeff), var: t.var })
}

/// Negation is scaling by minus one: every numerator flips sign.
pub open spec fn neg_terms(s: Seq<TermModel>) -> Seq<TermModel> {
    scale_terms(s, RatModel { n: -1, d: 1 })
}

/// The rendering of a variable reference after a coefficient: a space and
/// the display name. A constant term contributes nothing.
pub open spec fn var_suffix(v: Option<VarModel>) -> Seq<char> {
    match v {
        Option::Some(vm) => seq![' '] + var_display(vm),
        Option::None => Seq::<char>::empty(),
    }
}

/// The leading term renders as its signed coefficient followed by its
/// variable's display name, if any.
pub open spec fn term_first_render(t: TermModel) -> Seq<char> {
    rat_render(t.coeff) + var_suffix(t.var)
}

/// Every subsequent term renders with an explicit sign chosen by the term's
/// sign, then the absolute value of the coefficient, then the variable.
pub open spec fn term_follow_render(t: TermModel) -> Seq<char> {
    (if rat_is_neg(t.coeff) {
        seq![' ', '-', ' ']
    } else {
        seq![' ', '+', ' ']
    }) + rat_render(rat_abs_s(t.coeff)) + var_suffix(t.var)
}

/// The concatenated renderings of the terms after the first.
pub open spec fn expr_render_terms(s: Seq<TermModel>) -> Seq<char>
    decreases s.len(),
{
    if s.len() == 0 {
        Seq::<char>::empty()
    } else {
        term_follow_render(s[0]) + expr_render_terms(s.skip(1))
    }
}

/// The rendering of a whole expression; an empty expression renders as
/// empty text.
pub open spec fn expr_render(s: Seq<TermModel>) -> Seq<char> {
    if s.len() == 0 {
        Seq::<char>::empty()
    } else {
        term_first_render(s[0]) + expr_render_terms(s.skip(1))
    }
}

/// A sparse linear combination of variables and constant bias terms.
pub struct Expression {
    pub(crate) terms: Vec<Term>,
}

impl View for Expression {
    type V = Seq<TermModel>;

    closed spec fn view(&self) -> Seq<TermModel> {
        self.terms@.map_values(|t: Term| t@)
    }
}

impl Default for Expression {
    /// The zero expression: no terms at all.
    fn default() -> (r: Expression)
        ensures
            r@ == Seq::<TermModel>::empty(),
    {
        Expression { terms: Vec::new() }
    }
}

impl Expression {
    pub open spec fn wf(&self) -> bool {
        terms_wf(self@)
    }

    /// Crate-internal: the view is the term-wise view of the backing vector.
    pub(crate) proof fn lemma_view(&self)
        ensures
            self@ == self.terms@.map_values(|t: Term| t@),
    {
    }

    /// The zero expression: no terms at all.
    pub fn new() -> (r: Expression)
        ensures
            r@ == Seq::<TermModel>::empty(),
    {
        Expression { terms: Vec::new() }
    }

    /// A single constant bias term.
    pub fn from_const(v: Rat) -> (r: Expression)
        ensures
            r@ == seq![TermModel { coeff: v@, var: Option::None }],
    {
        let mut terms: Vec<Term> = Vec::new();
        terms.push(Term { coeff: v, var: Option::None });
        let r = Expression { terms };
        proof {
            assert(r@ =~= seq![TermModel { coeff: v@, var: Option::None }]);
        }
        r
    }

    /// A single unit-coefficient term for the given variable.
    pub fn from_var(v: Variable) -> (r: Expression)
        ensures
            r@ == seq![TermModel { coeff: rat_one(), var: Option::Some(v@) }],
    {
        let mut terms: Vec<Term> = Vec::new();
        terms.push(Term { coeff: Rat::one(), var: Option::Some(v) });
        let r = Expression { terms };
        proof {
            assert(r@ =~= seq![TermModel { coeff: rat_one(), var: Option::Some(v@) }]);
        }
        r
    }

    /// An explicit copy, proved to denote the same term sequence.
    #[verifier::loop_isolation(false)]
    pub fn duplicate(&self) -> (r: Expression)
        ensures
            r@ == self@,
    {
        let mut terms: Vec<Term> = Vec::new();
        let n = self.terms.len();
        let mut i: usize = 0;
        while i < n
            invariant
                i <= n,
                terms@.map_values(|t: Term| t@) == self@.take(i as int),
            decreases n - i,
        {
            let t = self.terms[i].duplicate();
            proof {
                assert(t@ == self@[i as int]);
            }
            terms.push(t);
            proof {
                assert(terms@.map_values(|t: Term| t@) =~= self@.take(i + 1));
            }
            i = i + 1;
        }
        let r = Expression { terms };
        proof {
            assert(self@.take(n as int) =~= self@);
        }
        r
    }

    /// How many terms the expression holds.
    pub fn term_count(&self) -> (n: usize)
        ensures
            n == self@.len(),
    {
        proof {
            self.lemma_view();
        }
        self.terms.len()
    }

    /// The term at a position.
    pub fn term_at(&self, i: usize) -> (t: &Term)
        requires
            i < self@.len(),
        ensures
            t@ == self@[i as int],
    {
        proof {
            self.lemma_view();
        }
        &self.terms[i]
    }

    /// The variable-bound terms only, in their original order: the form the
    /// objective takes in the exported text.
    #[verifier::loop_isolation(false)]
    pub fn var_terms_only(&self) -> (r: Expression)
        ensures
            r@ == keep_vars(self@),
    {
        let mut terms: Vec<Term> = Vec::new();
        let n = self.terms.len();
        let mut i: usize = 0;
        proof {
            self.lemma_view();
            assert(self@.len() == n);
            assert(self@.skip(0) =~= self@);
            assert(terms@.map_values(|t: Term| t@) =~= Seq::<TermModel>::empty());
            assert(Seq::<TermModel>::empty() + keep_vars(self@) =~= keep_vars(self@));
        }
        while i < n
            invariant
                i <= n,
                keep_vars(self@) == terms@.map_values(|t: Term| t@) + keep_vars(
                    self@.skip(i as int),
                ),
            decreases n - i,
        {
            let t = self.terms[i].duplicate();
            proof {
                assert(t@ == self@[i as int]);
                assert(self@.skip(i as int)[0] == self@[i as int]);
                assert(self@.skip(i as int).skip(1) =~= self@.skip(i + 1));
            }
            if t.var.is_some() {
                let ghost kept_pre = terms@.map_values(|t: Term| t@);
                terms.push(t);
                proof {
                    assert(terms@.map_values(|t: Term| t@) =~= kept_pre + seq![
                        self@[i as int],
                    ]);
                    assert(keep_vars(self@.skip(i as int)) == seq![self@[i as int]]
                        + keep_vars(self@.skip(i + 1)));
                    assert(kept_pre + seq![self@[i as int]] + keep_vars(self@.skip(i + 1))
                        =~= kept_pre + keep_vars(self@.skip(i as int)));
                }
            }
            i = i + 1;
        }
        proof {
            assert(self@.skip(n as int) =~= Seq::<TermModel>::empty());
            assert(terms@.map_values(|t: Term| t@) + keep_vars(self@.skip(n as int))
                =~= terms@.map_values(|t: Term| t@));
        }
        let r = Expression { terms };
        proof {
            r.lemma_view();
        }
        r
    }

    /// Concatenates the two term sequences: the left operand's terms come
    /// first, nothing is folded, merged or reordered.
    pub fn add(self, other: Expression) -> (r: Expression)
        ensures
            r@ == self@ + other@,
    {
        let mut terms = self.terms;
        let mut tail = other.terms;
        terms.append(&mut tail);
        let r = Expression { terms };
        proof {
            assert(r@ =~= self@ + other@);
        }
        r
    }

    /// Scales every coefficient by the scalar; classification of terms as
    /// constant or variable-bound is untouched.
    #[verifier::loop_isolation(false)]
    pub fn mul(self, k: Rat) -> (r: Expression)
        requires
            k@.wf(),
            self.wf(),
            scale_fits(self@, k@),
        ensures
            r@ == scale_terms(self@, k@),
    {
        let n = self.terms.len();
        let mut terms: Vec<Term> = Vec::new();
        let mut i: usize = 0;
        while i < n
            invariant
                i <= n,
                terms@.map_values(|t: Term| t@) == scale_terms(self@, k@).take(i as int),
            decreases n - i,
        {
            let t = self.terms[i].duplicate();
            proof {
                assert(t@ == self@[i as int]);
                assert(self@[i as int].coeff.wf());
                assert(rat_mul_fits(k@, self@[i as int].coeff));
            }
            let coeff = k.mul(t.coeff);
            let scaled = Term { coeff, var: t.var };
            proof {
                assert(scaled@ == scale_terms(self@, k@)[i as int]);
            }
            terms.push(scaled);
            proof {
                assert(terms@.map_values(|t: Term| t@) =~= scale_terms(self@, k@).take(i + 1));
            }
            i = i + 1;
        }
        let r = Expression { terms };
        proof {
            assert(scale_terms(self@, k@).take(n as int) =~= scale_terms(self@, k@));
        }
        r
    }

    /// Negation is scaling by minus one, so it composes with further
    /// scaling.
    pub fn neg(self) -> (r: Expression)
        requires
            self.wf(),
        ensures
            r@ == neg_terms(self@),
    {
        let minus_one = Rat::zero().sub(Rat::one());
        proof {
            assert(minus_one@ == (RatModel { n: -1, d: 1 }));
            assert forall|i: int| 0 <= i < self@.len() implies rat_mul_fits(
                minus_one@,
                (#[trigger] self@[i]).coeff,
            ) by {
                assert(self@[i].coeff.wf());
            }
        }
        self.mul(minus_one)
    }

    /// Subtraction appends the negation of the right operand's terms.
    pub fn sub(self, other: Expression) -> (r: Expression)
        requires
            other.wf(),
        ensures
            r@ == self@ + neg_terms(other@),
    {
        self.add(other.neg())
    }

    /// Division by a scalar is scaling by its reciprocal; a scalar whose
    /// value is zero is outside the domain, as in the underlying field.
    pub fn div(self, k: Rat) -> (r: Expression)
        requires
            k@.wf(),
            k@.n != 0,
            self.wf(),
            scale_fits(self@, rat_inv_s(k@)),
        ensures
            r@ == scale_terms(self@, rat_inv_s(k@)),
    {
        self.mul(k.inv())
    }

    /// Renders the expression: the first term signed, every further term
    /// with an explicit `+` or `-` by its sign and the coefficient's
    /// absolute value; an empty expression renders as empty text.
    #[verifier::loop_isolation(false)]
    pub fn render(&self) -> (s: String)
        requires
            self.wf(),
        ensures
            s@ == expr_render(self@),
    {
        proof {
            reveal_strlit(" + ");
            reveal_strlit(" - ");
            reveal_strlit(" ");
        }
        let n = self.terms.len();
        if n == 0 {
            return String::new();
        }
        let first = &self.terms[0];
        proof {
            assert(first@ == self@[0]);
            assert(self@[0].coeff.wf());
        }
        let mut s = first.coeff.to_text();
        if let Option::Some(v) = &first.var {
            s.append(" ");
            let name = v.name();
            s.append(name.as_str());
        }
        proof {
            assert(s@ =~= term_first_render(self@[0]));
            assert(expr_render(self@) == term_first_render(self@[0]) + expr_render_terms(
                self@.skip(1),
            ));
        }
        let mut i: usize = 1;
        while i < n
            invariant
                n == self.terms.len(),
                1 <= i <= n,
                self.wf(),
                expr_render(self@) == s@ + expr_render_terms(self@.skip(i as int)),
            decreases n - i,
        {
            let t = &self.terms[i];
            proof {
                assert(t@ == self@[i as int]);
                assert(self@[i as int].coeff.wf());
            }
            let mut piece: String = if t.coeff.is_negative() {
                String::from_str(" - ")
            } else {
                String::from_str(" + ")
            };
            let mag = t.coeff.abs().to_text();
            piece.append(mag.as_str());
            if let Option::Some(v) = &t.var {
                piece.append(" ");
                let name = v.name();
                piece.append(name.as_str());
            }
            proof {
                assert(piece@ =~= term_follow_render(self@[i as int]));
                assert(self@.skip(i as int).skip(1) =~= self@.skip(i + 1));
                assert(expr_render_terms(self@.skip(i as int)) == term_follow_render(
                    self@[i as int],
                ) + expr_render_terms(self@.skip(i + 1)));
            }
            s.append(piece.as_str());
            proof {
                assert(s@ + expr_render_terms(self@.skip(i + 1)) =~= expr_render(self@));
            }
            i = i + 1;
        }
        proof {
            assert(self@.skip(n as int) =~= Seq::<TermModel>::empty());
            assert(s@ =~= expr_render(self@));
        }
        s
    }
}

impl Variable {
    /// The singleton unit-coefficient term sequence this variable promotes
    /// to.
    pub open spec fn as_terms(self_v: VarModel) -> Seq<TermModel> {
        seq![TermModel { coeff: rat_one(), var: Option::Some(self_v) }]
    }

    /// Promotion followed by expression addition: the variable's unit term,
    /// then the right operand's terms.
    pub fn add(self, rhs: Expression) -> (r: Expression)
        ensures
            r@ == Variable::as_terms(self@) + rhs@,
    {
        Expression::from_var(self).add(rhs)
    }

    /// Promotion followed by expression subtraction.
    pub fn sub(self, rhs: Expression) -> (r: Expression)
        requires
            rhs.wf(),
        ensures
            r@ == Variable::as_terms(self@) + neg_terms(rhs@),
    {
        Expression::from_var(self).sub(rhs)
    }

    /// Promotion followed by negation: one term with coefficient minus one.
    pub fn neg(self) -> (r: Expression)
        ensures
            r@ == neg_terms(Variable::as_terms(self@)),
    {
        let e = Expression::from_var(self);
        proof {
            assert forall|i: int| 0 <= i < e@.len() implies (#[trigger] e@[i]).coeff.wf() by {
            }
        }
        e.neg()
    }

    /// Promotion followed by scaling: one term with the scalar as its
    /// coefficient.
    pub fn mul(self, k: Rat) -> (r: Expression)
        requires
            k@.wf(),
        ensures
            r@ == scale_terms(Variable::as_terms(self@), k@),
    {
        let e = Expression::from_var(self);
        proof {
            assert forall|i: int| 0 <= i < e@.len() implies (#[trigger] e@[i]).coeff.wf() by {
            }
            assert forall|i: int| 0 <= i < e@.len() implies rat_mul_fits(
                k@,
                (#[trigger] e@[i]).coeff,
            ) by {
            }
        }
        e.mul(k)
    }

    /// Promotion followed by division by a nonzero scalar.
    pub fn div(self, k: Rat) -> (r: Expression)
        requires
            k@.wf(),
            k@.n != 0,
        ensures
            r@ == scale_terms(Variable::as_terms(self@), rat_inv_s(k@)),
    {
        let e = Expression::from_var(self);
        proof {
            assert forall|i: int| 0 <= i < e@.len() implies (#[trigger] e@[i]).coeff.wf() by {
            }
            assert forall|i: int| 0 <= i < e@.len() implies rat_mul_fits(
                rat_inv_s(k@),
                (#[trigger] e@[i]).coeff,
            ) by {
            }
        }
        e.div(k)
    }
}

/// A bare scalar, ready to multiply an expression from the left.
pub struct Constant(pub Rat);

impl Constant {
    /// Scales the expression by the held scalar.
    pub fn mul(self, e: Expression) -> (r: Expression)
        requires
            self.0@.wf(),
            e.wf(),
            scale_fits(e@, self.0@),
        ensures
            r@ == scale_terms(e@, self.0@),
    {
        e.mul(self.0)
    }
}

/// A convenience constructor: the integer as a constant scalar.
pub fn c(v: i128) -> (r: Constant)
    requires
        v > i128::MIN,
    ensures
        r.0@ == crate::rat::rat_from_int(v as int),
        r.0@.wf(),
{
    Constant(Rat::from_int(v))
}

/// The rendered text of each term, were it rendered in follow position.
pub open spec fn term_texts(s: Seq<TermModel>) -> Seq<Seq<char>> {
    s.map_values(|t: TermModel| term_follow_render(t))
}

/// Adding two expressions concatenates their term sequences, so the
/// rendered term sequence of the sum is the first operand's rendered terms
/// followed by the second's: order preserved, nothing deduplicated.
pub proof fn lemma_add_render_term_sequence(a: Seq<TermModel>, b: Seq<TermModel>)
    ensures
        term_texts(a + b) == term_texts(a) + term_texts(b),
{
    assert(term_texts(a + b) =~= term_texts(a) + term_texts(b));
}

/// Negating twice gives back exactly the original term sequence.
pub proof fn lemma_negate_negate(s: Seq<TermModel>)
    ensures
        neg_terms(neg_terms(s)) == s,
{
    assert(neg_terms(neg_terms(s)) =~= s);
}

/// Dividing by a nonzero scalar and scaling back by the same scalar yields
/// a term-wise equal expression: same variables in the same order, each
/// coefficient equal in value to the original.
pub proof fn lemma_div_then_mul_roundtrip(s: Seq<TermModel>, k: RatModel)
    requires
        k.wf(),
        k.n != 0,
    ensures
        scale_terms(scale_terms(s, rat_inv_s(k)), k).len() == s.len(),
        forall|i: int|
            0 <= i < s.len() ==> (#[trigger] scale_terms(scale_terms(s, rat_inv_s(k)), k)[i]).var
                == s[i].var,
        forall|i: int|
            0 <= i < s.len() ==> rat_equiv(
                (#[trigger] scale_terms(scale_terms(s, rat_inv_s(k)), k)[i]).coeff,
                s[i].coeff,
            ),
{
    let inv = rat_inv_s(k);
    assert forall|i: int| 0 <= i < s.len() implies rat_equiv(
        (#[trigger] scale_terms(scale_terms(s, inv), k)[i]).coeff,
        s[i].coeff,
    ) by {
        let c = s[i].coeff;
        let back = rat_mul_s(k, rat_mul_s(inv, c));
        assert(back.n * c.d == c.n * back.d) by (nonlinear_arith)
            requires
                back.n == k.n * (inv.n * c.n),
                back.d == k.d * (inv.d * c.d),
                inv == rat_inv_s(k),
        ;
    }
}

} // verus!
