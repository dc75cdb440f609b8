//! The model: objective, optimization direction, the variable-metadata
//! table, the constraint list, and free-form backend directive lines. The
//! model is the only mutable root; it only grows, and every mutation is
//! specified exactly.

use vstd::prelude::*;
use vstd::string::*;

use crate::constraint::{
    constraint_render, fold_consts_fits, normal_delta, normal_lhs, normal_rhs_const, Constraint,
    ConstraintModel,
};
use crate::expression::{expr_render, keep_vars, terms_wf, Expression, TermModel};
use crate::num_text::{dec_seq, u128_to_string};
use crate::rat::{rat_render, rat_zero, Rat, RatModel};
use crate::solution::{parse_lines, Solution};
use crate::variable::{opt_str_view, var_display, VarModel, Variable};

verus! {

/// The optimization direction of a model's objective.
#[derive(Clone, Copy, PartialEq, Eq, Structural, Debug)]
pub enum OptimizationDirection {
    Maximize,
    Minimize,
}

impl Default for OptimizationDirection {
    /// Models minimize unless told otherwise.
    fn default() -> (r: OptimizationDirection)
        ensures
            r == OptimizationDirection::Minimize,
    {
        OptimizationDirection::Minimize
    }
}

/// The integrality kind of a declared variable.
#[derive(Clone, Copy, PartialEq, Eq, Structural, Debug)]
pub enum VarKind {
    Continuous,
    Integer,
    Binary,
}

/// Mathematical model of one row of the variable-metadata table.
pub struct VarDataModel {
    pub kind: VarKind,
    pub name: Option<Seq<char>>,
    pub lb: Option<RatModel>,
    pub ub: Option<RatModel>,
}

/// The view of an optional rational.
pub open spec fn opt_rat_view(o: Option<Rat>) -> Option<RatModel> {
    match o {
        Option::Some(r) => Option::Some(r@),
        Option::None => Option::None,
    }
}

/// One row of the variable-metadata table, created by the builder and
/// finalized at `build`.
struct VarData {
    kind: VarKind,
    name: Option<String>,
    lb: Option<Rat>,
    ub: Option<Rat>,
}

impl View for VarData {
    type V = VarDataModel;

    closed spec fn view(&self) -> VarDataModel {
        VarDataModel {
            kind: self.kind,
            name: opt_str_view(self.name),
            lb: opt_rat_view(self.lb),
            ub: opt_rat_view(self.ub),
        }
    }
}

/// Mathematical model of a whole optimization model.
pub struct ModelView {
    pub commands: Seq<Seq<char>>,
    pub objective: Seq<TermModel>,
    pub direction: OptimizationDirection,
    pub variables: Seq<VarDataModel>,
    pub constraints: Seq<ConstraintModel>,
}

/// The aggregate root: objective, direction, variable table, constraints,
/// and backend directive lines.
pub struct Model {
    commands: Vec<String>,
    objective: Expression,
    direction: OptimizationDirection,
    variables: Vec<VarData>,
    constraints: Vec<Constraint>,
}

impl View for Model {
    type V = ModelView;

    closed spec fn view(&self) -> ModelView {
        ModelView {
            commands: self.commands@.map_values(|s: String| s@),
            objective: self.objective@,
            direction: self.direction,
            variables: self.variables@.map_values(|v: VarData| v@),
            constraints: self.constraints@.map_values(|c: Constraint| c@),
        }
    }
}

/// All coefficients and bounds of a model are well-formed rationals.
pub open spec fn model_wf(m: ModelView) -> bool {
    &&& terms_wf(m.objective)
    &&& forall|i: int|
        0 <= i < m.constraints.len() ==> terms_wf((#[trigger] m.constraints[i]).lhs) && terms_wf(
            m.constraints[i].rhs,
        )
    &&& forall|i: int|
        0 <= i < m.variables.len() ==> bound_wf((#[trigger] m.variables[i]).lb) && bound_wf(
            m.variables[i].ub,
        )
}

/// An absent bound is fine; a present one must be a well-formed rational.
pub open spec fn bound_wf(o: Option<RatModel>) -> bool {
    match o {
        Option::Some(r) => r.wf(),
        Option::None => true,
    }
}

impl Default for Model {
    /// An empty model: no variables, no constraints, zero objective,
    /// minimizing.
    fn default() -> (r: Model)
        ensures
            r@.commands == Seq::<Seq<char>>::empty(),
            r@.objective == Seq::<TermModel>::empty(),
            r@.direction == OptimizationDirection::Minimize,
            r@.variables == Seq::<VarDataModel>::empty(),
            r@.constraints == Seq::<ConstraintModel>::empty(),
    {
        let r = Model {
            commands: Vec::new(),
            objective: Expression::new(),
            direction: OptimizationDirection::Minimize,
            variables: Vec::new(),
            constraints: Vec::new(),
        };
        proof {
            assert(r@.commands =~= Seq::<Seq<char>>::empty());
            assert(r@.variables =~= Seq::<VarDataModel>::empty());
            assert(r@.constraints =~= Seq::<ConstraintModel>::empty());
        }
        r
    }
}

impl Model {
    /// An empty model: no variables, no constraints, zero objective,
    /// minimizing.
    pub fn new() -> (r: Model)
        ensures
            r@.commands == Seq::<Seq<char>>::empty(),
            r@.objective == Seq::<TermModel>::empty(),
            r@.direction == OptimizationDirection::Minimize,
            r@.variables == Seq::<VarDataModel>::empty(),
            r@.constraints == Seq::<ConstraintModel>::empty(),
    {
        Model::default()
    }

    /// Switches the optimization direction to maximize.
    pub fn maximize(&mut self)
        ensures
            final(self)@ == (ModelView {
                direction: OptimizationDirection::Maximize,
                ..old(self)@
            }),
    {
        self.direction = OptimizationDirection::Maximize;
    }

    /// Switches the optimization direction to minimize.
    pub fn minimize(&mut self)
        ensures
            final(self)@ == (ModelView {
                direction: OptimizationDirection::Minimize,
                ..old(self)@
            }),
    {
        self.direction = OptimizationDirection::Minimize;
    }

    /// Appends one free-form backend directive line, passed through opaque
    /// to the solver.
    pub fn add_command(&mut self, command: &str)
        ensures
            final(self)@ == (ModelView {
                commands: old(self)@.commands.push(command@),
                ..old(self)@
            }),
    {
        let owned = String::from_str(command);
        self.commands.push(owned);
        proof {
            assert(self@.commands =~= old(self)@.commands.push(command@));
        }
    }

    /// A fresh builder for declaring one variable; nothing is committed
    /// until its terminal `build`.
    pub fn add_var(&self) -> (b: VariableBuilder)
        ensures
            b@ == (VarDataModel {
                kind: VarKind::Continuous,
                name: Option::None,
                lb: Option::None,
                ub: Option::None,
            }),
    {
        VariableBuilder::new()
    }

    /// Appends a constraint; constraints are never mutated or removed.
    pub fn add_const(&mut self, c: Constraint)
        ensures
            final(self)@ == (ModelView {
                constraints: old(self)@.constraints.push(c@),
                ..old(self)@
            }),
    {
        self.constraints.push(c);
        proof {
            assert(self@.constraints =~= old(self)@.constraints.push(c@));
        }
    }

    /// Replaces the objective; no accumulation.
    pub fn set_objective(&mut self, obj: Expression)
        ensures
            final(self)@ == (ModelView { objective: obj@, ..old(self)@ }),
    {
        self.objective = obj;
    }
}

/// The direction keyword line of the exported text.
pub open spec fn dir_line(d: OptimizationDirection) -> Seq<char> {
    match d {
        OptimizationDirection::Maximize => "Maximize\n"@,
        OptimizationDirection::Minimize => "Minimize\n"@,
    }
}

/// The objective line: only the variable-bound terms are exported.
pub open spec fn obj_line(objective: Seq<TermModel>) -> Seq<char> {
    " obj: "@ + expr_render(keep_vars(objective)) + "\n"@
}

/// The normalized form of a constraint, as the exporter renders it: the
/// stored constraint itself stays untouched.
pub open spec fn normalized_view(c: ConstraintModel) -> ConstraintModel {
    ConstraintModel {
        lhs: normal_lhs(c),
        rel: c.rel,
        rhs: seq![TermModel { coeff: normal_rhs_const(c), var: Option::None }],
    }
}


/// Normalization is idempotent for every constraint: the normalized form
/// the exporter renders, normalized again, is itself — same variable
/// terms, same relation, same right-side constant.
pub proof fn lemma_normalized_view_idempotent(c: ConstraintModel)
    ensures
        normalized_view(normalized_view(c)) == normalized_view(c),
{
    let nv = normalized_view(c);
    crate::constraint::lemma_keep_vars_all_vars(normal_delta(c));
    crate::constraint::lemma_normalize_idempotent(nv.lhs, normal_rhs_const(c), c.rel);
    assert(normalized_view(nv).rhs =~= nv.rhs);
}

/// The constraint lines from position `i` on, each normalized on the fly
/// and numbered by its position in the constraint list.
pub open spec fn constraints_text(cs: Seq<ConstraintModel>, i: int) -> Seq<char>
    decreases cs.len() - i,
{
    if i < 0 || i >= cs.len() {
        Seq::<char>::empty()
    } else {
        " c"@ + dec_seq(i as nat) + ": "@ + constraint_render(normalized_view(cs[i])) + "\n"@
            + constraints_text(cs, i + 1)
    }
}

/// The bounds line of one variable: one of four forms, by which bounds are
/// present.
pub open spec fn bound_line(v: VarDataModel, i: int) -> Seq<char> {
    let name = var_display(VarModel { id: i, name: v.name });
    match (v.lb, v.ub) {
        (Option::Some(lb), Option::Some(ub)) => " "@ + rat_render(lb) + " <= "@ + name + " <= "@
            + rat_render(ub) + "\n"@,
        (Option::Some(lb), Option::None) => " "@ + rat_render(lb) + " <= "@ + name
            + " <= +inf\n"@,
        (Option::None, Option::Some(ub)) => " -inf <= "@ + name + " <= "@ + rat_render(ub)
            + "\n"@,
        (Option::None, Option::None) => " "@ + name + " free\n"@,
    }
}

/// The bounds lines from variable `i` on, in declaration order.
pub open spec fn bounds_text(vs: Seq<VarDataModel>, i: int) -> Seq<char>
    decreases vs.len() - i,
{
    if i < 0 || i >= vs.len() {
        Seq::<char>::empty()
    } else {
        bound_line(vs[i], i) + bounds_text(vs, i + 1)
    }
}

/// The name line of one variable in the integrality sections: a stored name
/// stands alone, the fallback name is indented.
pub open spec fn kind_line(v: VarDataModel, i: int) -> Seq<char> {
    match v.name {
        Option::Some(n) => n + "\n"@,
        Option::None => " v"@ + dec_seq(i as nat) + "\n"@,
    }
}

/// The name lines, from variable `i` on, of the variables of the given
/// kind.
pub open spec fn kind_lines(vs: Seq<VarDataModel>, i: int, k: VarKind) -> Seq<char>
    decreases vs.len() - i,
{
    if i < 0 || i >= vs.len() {
        Seq::<char>::empty()
    } else {
        (if vs[i].kind == k {
            kind_line(vs[i], i)
        } else {
            Seq::<char>::empty()
        }) + kind_lines(vs, i + 1, k)
    }
}

/// The whole exported problem text: direction, objective, constraints,
/// bounds, integer names, binary names, terminator — a fixed external
/// contract.
pub open spec fn export_spec(m: ModelView) -> Seq<char> {
    dir_line(m.direction) + obj_line(m.objective) + "Subject To\n"@ + constraints_text(
        m.constraints,
        0,
    ) + "Bounds\n"@ + bounds_text(m.variables, 0) + "General\n"@ + kind_lines(
        m.variables,
        0,
        VarKind::Integer,
    ) + "Binary\n"@ + kind_lines(m.variables, 0, VarKind::Binary) + "End\n"@
}

/// Every constant fold performed by the exporter's on-the-fly normalization
/// fits the machine representation.
pub open spec fn export_fits(m: ModelView) -> bool {
    forall|i: int|
        0 <= i < m.constraints.len() ==> fold_consts_fits(
            rat_zero(),
            normal_delta(#[trigger] m.constraints[i]),
        )
}

/// The display name of the variable at table position `i`: its stored name
/// or the positional fallback.
fn display_name_at(name: &Option<String>, i: usize) -> (r: String)
    ensures
        r@ == var_display(VarModel { id: i as int, name: opt_str_view(*name) }),
{
    match name {
        Option::Some(s) => s.clone(),
        Option::None => {
            let mut t = String::from_str("v");
            let digits = u128_to_string(i as u128);
            t.append(digits.as_str());
            proof {
                reveal_strlit("v");
                assert(t@ =~= var_display(VarModel { id: i as int, name: opt_str_view(*name) }));
            }
            t
        },
    }
}

impl Model {
    /// The constraint section's lines, each constraint normalized on the
    /// fly, numbered by position from zero.
    #[verifier::loop_isolation(false)]
    fn constraints_section(&self) -> (s: String)
        requires
            model_wf(self@),
            export_fits(self@),
        ensures
            s@ == constraints_text(self@.constraints, 0),
    {
        let mut s = String::new();
        let n = self.constraints.len();
        let mut i: usize = 0;
        proof {
            assert(self@.constraints.len() == n);
            assert(s@ + constraints_text(self@.constraints, 0) =~= constraints_text(
                self@.constraints,
                0,
            ));
        }
        while i < n
            invariant
                i <= n,
                constraints_text(self@.constraints, 0) == s@ + constraints_text(
                    self@.constraints,
                    i as int,
                ),
            decreases n - i,
        {
            let c = self.constraints[i].duplicate();
            proof {
                assert(c@ == self@.constraints[i as int]);
                assert(terms_wf(c@.lhs) && terms_wf(c@.rhs));
                assert(fold_consts_fits(rat_zero(), normal_delta(c@)));
            }
            let nc = c.to_normalized();
            let mut line = String::from_str(" c");
            let digits = u128_to_string(i as u128);
            line.append(digits.as_str());
            line.append(": ");
            let body = nc.render();
            line.append(body.as_str());
            line.append("\n");
            proof {
                assert(nc@ == normalized_view(self@.constraints[i as int]));
                assert(line@ =~= " c"@ + dec_seq(i as nat) + ": "@ + constraint_render(
                    normalized_view(self@.constraints[i as int]),
                ) + "\n"@);
            }
            s.append(line.as_str());
            proof {
                assert(s@ + constraints_text(self@.constraints, i + 1) =~= constraints_text(
                    self@.constraints,
                    0,
                ));
            }
            i = i + 1;
        }
        proof {
            assert(s@ =~= constraints_text(self@.constraints, 0));
        }
        s
    }

    /// The bounds section's lines, one per variable in declaration order.
    #[verifier::loop_isolation(false)]
    fn bounds_section(&self) -> (s: String)
        requires
            model_wf(self@),
        ensures
            s@ == bounds_text(self@.variables, 0),
    {
        let mut s = String::new();
        let n = self.variables.len();
        let mut i: usize = 0;
        proof {
            assert(self@.variables.len() == n);
            assert(s@ + bounds_text(self@.variables, 0) =~= bounds_text(self@.variables, 0));
        }
        while i < n
            invariant
                i <= n,
                bounds_text(self@.variables, 0) == s@ + bounds_text(self@.variables, i as int),
            decreases n - i,
        {
            let vd = &self.variables[i];
            proof {
                assert(vd@ == self@.variables[i as int]);
                assert(bound_wf(vd@.lb) && bound_wf(vd@.ub));
            }
            let name_text = display_name_at(&vd.name, i);
            let mut line = String::new();
            match (vd.lb, vd.ub) {
                (Option::Some(lb), Option::Some(ub)) => {
                    line.append(" ");
                    let lbt = lb.to_text();
                    line.append(lbt.as_str());
                    line.append(" <= ");
                    line.append(name_text.as_str());
                    line.append(" <= ");
                    let ubt = ub.to_text();
                    line.append(ubt.as_str());
                    line.append("\n");
                },
                (Option::Some(lb), Option::None) => {
                    line.append(" ");
                    let lbt = lb.to_text();
                    line.append(lbt.as_str());
                    line.append(" <= ");
                    line.append(name_text.as_str());
                    line.append(" <= +inf\n");
                },
                (Option::None, Option::Some(ub)) => {
                    line.append(" -inf <= ");
                    line.append(name_text.as_str());
                    line.append(" <= ");
                    let ubt = ub.to_text();
                    line.append(ubt.as_str());
                    line.append("\n");
                },
                (Option::None, Option::None) => {
                    line.append(" ");
                    line.append(name_text.as_str());
                    line.append(" free\n");
                },
            }
            proof {
                assert(line@ =~= bound_line(self@.variables[i as int], i as int));
            }
            s.append(line.as_str());
            proof {
                assert(s@ + bounds_text(self@.variables, i + 1) =~= bounds_text(
                    self@.variables,
                    0,
                ));
            }
            i = i + 1;
        }
        proof {
            assert(s@ =~= bounds_text(self@.variables, 0));
        }
        s
    }

    /// The name lines of the variables of one integrality kind, in
    /// declaration order.
    #[verifier::loop_isolation(false)]
    fn kind_section(&self, k: VarKind) -> (s: String)
        ensures
            s@ == kind_lines(self@.variables, 0, k),
    {
        let mut s = String::new();
        let n = self.variables.len();
        let mut i: usize = 0;
        proof {
            assert(self@.variables.len() == n);
            assert(s@ + kind_lines(self@.variables, 0, k) =~= kind_lines(self@.variables, 0, k));
        }
        while i < n
            invariant
                i <= n,
                kind_lines(self@.variables, 0, k) == s@ + kind_lines(
                    self@.variables,
                    i as int,
                    k,
                ),
            decreases n - i,
        {
            let vd = &self.variables[i];
            proof {
                assert(vd@ == self@.variables[i as int]);
            }
            if vd.kind == k {
                let mut line: String = match &vd.name {
                    Option::Some(nm) => nm.clone(),
                    Option::None => {
                        let mut t = String::from_str(" v");
                        let digits = u128_to_string(i as u128);
                        t.append(digits.as_str());
                        t
                    },
                };
                line.append("\n");
                proof {
                    assert(line@ =~= kind_line(self@.variables[i as int], i as int));
                }
                s.append(line.as_str());
            }
            proof {
                assert(s@ + kind_lines(self@.variables, i + 1, k) =~= kind_lines(
                    self@.variables,
                    0,
                    k,
                ));
            }
            i = i + 1;
        }
        proof {
            assert(s@ =~= kind_lines(self@.variables, 0, k));
        }
        s
    }

    /// Serializes the model to the canonical problem text: direction
    /// keyword, labeled objective with constant terms filtered out, one
    /// numbered line per constraint (normalized on the fly, the stored
    /// constraint untouched), the bounds section, the integer and binary
    /// name sections, and the terminating marker.
    pub fn export(&self) -> (out: String)
        requires
            model_wf(self@),
            export_fits(self@),
        ensures
            out@ == export_spec(self@),
    {
        let mut out: String = match self.direction {
            OptimizationDirection::Maximize => String::from_str("Maximize\n"),
            OptimizationDirection::Minimize => String::from_str("Minimize\n"),
        };
        out.append(" obj: ");
        let obj = self.objective.var_terms_only();
        proof {
            crate::expression::lemma_keep_vars_wf(self@.objective);
        }
        let obj_text = obj.render();
        out.append(obj_text.as_str());
        out.append("\n");
        out.append("Subject To\n");
        let cs = self.constraints_section();
        out.append(cs.as_str());
        out.append("Bounds\n");
        let bs = self.bounds_section();
        out.append(bs.as_str());
        out.append("General\n");
        let gs = self.kind_section(VarKind::Integer);
        out.append(gs.as_str());
        out.append("Binary\n");
        let bns = self.kind_section(VarKind::Binary);
        out.append(bns.as_str());
        out.append("End\n");
        proof {
            assert(out@ =~= export_spec(self@));
        }
        out
    }

    /// The free-form backend directive lines, in the order they were
    /// added.
    pub fn commands(&self) -> (r: &Vec<String>)
        ensures
            r@.map_values(|s: String| s@) == self@.commands,
    {
        &self.commands
    }

    /// Parses solver result text into a solution keyed to this model's
    /// numeric type: each matching line binds a variable display name to an
    /// exact rational; unmatched lines are skipped silently.
    pub fn import(&self, text: &str) -> (s: Solution)
        ensures
            s@ == parse_lines(text@),
            s.wf(),
    {
        Solution::from_result_text(text)
    }
}

/// A fluent builder for one variable declaration: kind, name and bounds are
/// chained, and the terminal `build` commits the row to the model and hands
/// back the variable's handle.
pub struct VariableBuilder {
    kind: VarKind,
    name: Option<String>,
    lb: Option<Rat>,
    ub: Option<Rat>,
}

impl View for VariableBuilder {
    type V = VarDataModel;

    closed spec fn view(&self) -> VarDataModel {
        VarDataModel {
            kind: self.kind,
            name: opt_str_view(self.name),
            lb: opt_rat_view(self.lb),
            ub: opt_rat_view(self.ub),
        }
    }
}

impl VariableBuilder {
    /// A continuous, unnamed, unbounded variable until configured.
    pub fn new() -> (b: VariableBuilder)
        ensures
            b@ == (VarDataModel {
                kind: VarKind::Continuous,
                name: Option::None,
                lb: Option::None,
                ub: Option::None,
            }),
    {
        VariableBuilder { kind: VarKind::Continuous, name: Option::None, lb: Option::None, ub: Option::None }
    }

    /// Marks the variable binary.
    pub fn binary(self) -> (b: VariableBuilder)
        ensures
            b@ == (VarDataModel { kind: VarKind::Binary, ..self@ }),
    {
        VariableBuilder { kind: VarKind::Binary, ..self }
    }

    /// Marks the variable integer.
    pub fn integer(self) -> (b: VariableBuilder)
        ensures
            b@ == (VarDataModel { kind: VarKind::Integer, ..self@ }),
    {
        VariableBuilder { kind: VarKind::Integer, ..self }
    }

    /// Sets the display name.
    pub fn name(self, name: &str) -> (b: VariableBuilder)
        ensures
            b@ == (VarDataModel { name: Option::Some(name@), ..self@ }),
    {
        VariableBuilder { name: Option::Some(String::from_str(name)), ..self }
    }

    /// Sets the lower bound.
    pub fn lb(self, lb: Rat) -> (b: VariableBuilder)
        ensures
            b@ == (VarDataModel { lb: Option::Some(lb@), ..self@ }),
    {
        VariableBuilder { lb: Option::Some(lb), ..self }
    }

    /// Sets the upper bound.
    pub fn ub(self, ub: Rat) -> (b: VariableBuilder)
        ensures
            b@ == (VarDataModel { ub: Option::Some(ub@), ..self@ }),
    {
        VariableBuilder { ub: Option::Some(ub), ..self }
    }

    /// Commits the declaration: appends the metadata row to the model and
    /// returns the handle, whose id is the row's position — the variable's
    /// creation order.
    pub fn build(self, model: &mut Model) -> (v: Variable)
        ensures
            final(model)@ == (ModelView {
                variables: old(model)@.variables.push(self@),
                ..old(model)@
            }),
            v@ == (VarModel { id: old(model)@.variables.len() as int, name: self@.name }),
    {
        let VariableBuilder { kind, name, lb, ub } = self;
        let id = model.variables.len();
        proof {
            assert(model.variables@.map_values(|v: VarData| v@).len() == model.variables@.len());
        }
        let handle_name: Option<String> = match &name {
            Option::Some(s) => Option::Some(s.clone()),
            Option::None => Option::None,
        };
        let v = Variable::new(id, handle_name);
        model.variables.push(VarData { kind, name, lb, ub });
        proof {
            assert(model@.variables =~= old(model)@.variables.push(self@));
        }
        v
    }
}

} // verus!
