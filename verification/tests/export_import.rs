//! The two text boundaries: exporting a model to problem text and parsing
//! solver result text back into a solution.

use lp_model::{c, Expression, Model, Rat};

#[test]
fn test_export_and_import() {
    let mut model = Model::new();
    let bx = model.add_var().name("x").lb(Rat::new(0, 1));
    let x = bx.build(&mut model);
    let by = model.add_var().name("y").lb(Rat::new(0, 1));
    let y = by.build(&mut model);

    model.maximize();
    model.set_objective(x.clone().mul(Rat::new(2, 1)).add(y.clone().mul(Rat::new(5, 1))));

    model.add_const(
        x.clone()
            .add(c(4).mul(Expression::from_var(y.clone())))
            .le(Expression::from_const(Rat::new(24, 1))),
    );
    model.add_const(
        c(3).mul(Expression::from_var(x.clone()))
            .add(Expression::from_var(y.clone()))
            .le(Expression::from_const(Rat::new(21, 1))),
    );
    model.add_const(
        x.clone()
            .add(Expression::from_var(y.clone()))
            .le(Expression::from_const(Rat::new(9, 1))),
    );

    let text = model.export();
    assert!(text.contains("24"));
    assert!(text.contains("21"));

    // The external solver boundary, mocked: this model's optimum.
    let solution = model.import("x 4\ny 5\n");
    assert_eq!(solution.get_value(&Expression::from_var(x)), Rat::new(4, 1));
    assert_eq!(solution.get_value(&Expression::from_var(y)), Rat::new(5, 1));
}

#[test]
fn export_produces_the_full_problem_text() {
    let mut model = Model::new();
    let bx = model.add_var().name("x").lb(Rat::from_int(0));
    let x = bx.build(&mut model);
    let by = model.add_var().name("y").lb(Rat::from_int(0));
    let y = by.build(&mut model);
    model.maximize();
    model.set_objective(x.clone().mul(Rat::from_int(2)).add(y.clone().mul(Rat::from_int(5))));
    model.add_const(
        x.clone()
            .add(y.clone().mul(Rat::from_int(4)))
            .le(Expression::from_const(Rat::from_int(24))),
    );
    model.add_const(
        x.add(Expression::from_var(y)).le(Expression::from_const(Rat::from_int(9))),
    );
    let expected = "Maximize\n obj: 2 x + 5 y\nSubject To\n c0: 1 x + 4 y <= 24\n c1: 1 x + 1 y <= 9\nBounds\n 0 <= x <= +inf\n 0 <= y <= +inf\nGeneral\nBinary\nEnd\n";
    assert_eq!(model.export(), expected);
}

#[test]
fn export_bound_forms_and_sections() {
    let mut model = Model::new();
    let b0 = model.add_var().name("a").lb(Rat::from_int(0)).ub(Rat::from_int(10)).integer();
    b0.build(&mut model);
    let b1 = model.add_var().name("flag").binary();
    b1.build(&mut model);
    let b2 = model.add_var().ub(Rat::new(1, 2));
    b2.build(&mut model);
    let b3 = model.add_var();
    b3.build(&mut model);
    let text = model.export();
    assert!(text.starts_with("Minimize\n obj: \nSubject To\nBounds\n 0 <= a <= 10\n"));
    assert!(text.contains(" flag free\n"));
    assert!(text.contains(" -inf <= v2 <= 1/2\n"));
    assert!(text.contains(" v3 free\n"));
    assert!(text.contains("General\na\nBinary\nflag\nEnd\n"));
}

#[test]
fn export_objective_filters_constant_terms() {
    let mut model = Model::new();
    let bx = model.add_var().name("x");
    let x = bx.build(&mut model);
    model.set_objective(
        Expression::from_var(x).add(Expression::from_const(Rat::from_int(7))),
    );
    let text = model.export();
    assert!(text.contains(" obj: 1 x\n"));
}

#[test]
fn unnamed_variable_uses_fallback_in_bounds_section() {
    // A variable created with no name and ordinal id 3 appears as `v3` in
    // the bounds section.
    let mut model = Model::new();
    for _ in 0..4 {
        let b = model.add_var();
        b.build(&mut model);
    }
    let text = model.export();
    assert!(text.contains(" v3 free\n"));
}

#[test]
fn import_reads_integers_and_fractions() {
    let model = Model::new();
    let sol = model.import("a 4\nb 3/4\n");
    let a = lp_model::Variable::new(0, Some(String::from("a")));
    let b = lp_model::Variable::new(1, Some(String::from("b")));
    assert_eq!(sol.get_value(&Expression::from_var(a)), Rat::from_int(4));
    assert_eq!(sol.get_value(&Expression::from_var(b)), Rat::new(3, 4));
}

#[test]
fn import_skips_unmatched_lines() {
    // Banner and status lines must not alter the mapping.
    let model = Model::new();
    let noisy = model.import(
        "solution status: optimal\nobjective value: 33\nx 4\ny 5\nEnd of solution\n",
    );
    let clean = model.import("x 4\ny 5\n");
    let x = lp_model::Variable::new(0, Some(String::from("x")));
    let y = lp_model::Variable::new(1, Some(String::from("y")));
    let banner_word = lp_model::Variable::new(2, Some(String::from("solution")));
    assert_eq!(
        noisy.get_value(&Expression::from_var(x.clone())),
        clean.get_value(&Expression::from_var(x))
    );
    assert_eq!(
        noisy.get_value(&Expression::from_var(y.clone())),
        clean.get_value(&Expression::from_var(y))
    );
    assert_eq!(noisy.get_value(&Expression::from_var(banner_word)), Rat::zero());
}

#[test]
fn import_last_line_wins_for_a_repeated_name() {
    let model = Model::new();
    let sol = model.import("x 4\nx 7\n");
    let x = lp_model::Variable::new(0, Some(String::from("x")));
    assert_eq!(sol.get_value(&Expression::from_var(x)), Rat::from_int(7));
}

#[test]
fn import_tolerates_trailing_text_and_crlf() {
    let model = Model::new();
    let sol = model.import("x 4 (obj: 8)\r\ny 5\r\n");
    let x = lp_model::Variable::new(0, Some(String::from("x")));
    let y = lp_model::Variable::new(1, Some(String::from("y")));
    assert_eq!(sol.get_value(&Expression::from_var(x)), Rat::from_int(4));
    assert_eq!(sol.get_value(&Expression::from_var(y)), Rat::from_int(5));
}

#[test]
fn import_skips_a_zero_denominator() {
    // A numeral with denominator zero denotes no rational; the line is
    // treated as unmatched.
    let model = Model::new();
    let sol = model.import("x 4/0\n");
    let x = lp_model::Variable::new(0, Some(String::from("x")));
    assert_eq!(sol.get_value(&Expression::from_var(x)), Rat::zero());
}

#[test]
fn unreported_variable_reads_as_zero() {
    let model = Model::new();
    let sol = model.import("x 4\n");
    let ghosted = lp_model::Variable::new(1, Some(String::from("y")));
    assert_eq!(sol.get_value(&Expression::from_var(ghosted)), Rat::zero());
    // An empty expression also reads as exact zero.
    assert_eq!(sol.get_value(&Expression::new()), Rat::zero());
}

#[test]
fn get_value_mixes_constants_and_variables() {
    let model = Model::new();
    let sol = model.import("x 4\ny 5\n");
    let x = lp_model::Variable::new(0, Some(String::from("x")));
    let y = lp_model::Variable::new(1, Some(String::from("y")));
    // 2x + 5y + 3 under x = 4, y = 5 is 36.
    let e = x
        .mul(Rat::from_int(2))
        .add(y.mul(Rat::from_int(5)))
        .add(Expression::from_const(Rat::from_int(3)));
    assert!(sol.get_value(&e).eq_value(&Rat::from_int(36)));
}

#[test]
fn roundtrip_with_an_integer_variable() {
    // One integer variable bounded [0, 10], one constraint x + y <= 9,
    // a crafted result text, and the values read back exactly.
    let mut model = Model::new();
    let bx = model.add_var().name("x").integer().lb(Rat::from_int(0)).ub(Rat::from_int(10));
    let x = bx.build(&mut model);
    let by = model.add_var().name("y");
    let y = by.build(&mut model);
    model.add_const(
        x.clone()
            .add(Expression::from_var(y.clone()))
            .le(Expression::from_const(Rat::from_int(9))),
    );
    let text = model.export();
    assert!(text.contains(" 0 <= x <= 10\n"));
    assert!(text.contains("General\nx\n"));
    let sol = model.import("x 4\ny 5\n");
    assert_eq!(sol.get_value(&Expression::from_var(x.clone())), Rat::from_int(4));
    assert_eq!(sol.get_value(&Expression::from_var(y.clone())), Rat::from_int(5));
    let sum = x.add(Expression::from_var(y));
    assert!(sol.get_value(&sum).eq_value(&Rat::from_int(9)));
}

#[test]
fn directives_pass_through_to_the_command_list() {
    let mut model = Model::new();
    model.add_command("set limits time 60");
    model.add_command("set display verblevel 0");
    let commands = model.commands();
    assert_eq!(commands.len(), 2);
    assert_eq!(commands[0], "set limits time 60");
    assert_eq!(commands[1], "set display verblevel 0");
}
