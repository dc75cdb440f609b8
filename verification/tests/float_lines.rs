//! The decimal result-line lexer: the grammar used by solvers that report
//! float values with a trailing objective annotation.

use lp_model::parse_float_solution;

#[test]
fn float_lines_capture_the_decimal_before_the_annotation() {
    let entries = parse_float_solution("x 2.75 \t(obj:5.5)\ny -3e-1 (obj:1)\n");
    assert_eq!(entries.len(), 2);
    assert_eq!(entries[0].name, "x");
    assert_eq!(entries[0].value_text, "2.75");
    assert_eq!(entries[1].name, "y");
    assert_eq!(entries[1].value_text, "-3e-1");
    assert_eq!(entries[0].value_text.parse::<f64>().unwrap(), 2.75);
    assert_eq!(entries[1].value_text.parse::<f64>().unwrap(), -0.3);
}

#[test]
fn float_lines_without_the_annotation_are_skipped() {
    let entries = parse_float_solution("SCIP version 8\nobjective value: 33\nx 4\n");
    assert_eq!(entries.len(), 0);
}

#[test]
fn float_line_takes_the_last_annotation() {
    let entries = parse_float_solution("x 1.5 (obj: note) more (obj:2)\n");
    assert_eq!(entries.len(), 1);
    assert_eq!(entries[0].value_text, "1.5 (obj: note) more");
}

#[test]
fn float_line_with_nothing_before_the_annotation_is_skipped() {
    let entries = parse_float_solution("x (obj:2)\n");
    assert_eq!(entries.len(), 0);
}
