use epitech_style_checker::rules::c_l::{check_brace_placement, check_line_breaks, check_line_indentation, check_multiple_statements, check_spaces, check_variable_declarations};

#[test]
fn c_l1_triggers_on_multiple_statements_per_line() {
    let content = "int f(void)\n{\n    int a; a = 1;\n    return a;\n}\n";
    let diags = check_multiple_statements("test.c", content);
    assert!(diags.iter().any(|d| d.code == "C-L1"));
}

#[test]
fn c_l1_does_not_trigger_with_one_statement_per_line() {
    let content = "int f(void)\n{\n    int a;\n    a = 1;\n    return a;\n}\n";
    let diags = check_multiple_statements("test.c", content);
    assert!(!diags.iter().any(|d| d.code == "C-L1"));
}

#[test]
fn c_l1_triggers_on_assignment_in_condition() {
    let content = "int f(int a)\n{\n    if ((a = 1)) {\n        return a;\n    }\n    return 0;\n}\n";
    let diags = check_multiple_statements("test.c", content);
    assert!(diags.iter().any(|d| d.code == "C-L1"));
}

#[test]
fn c_l2_triggers_on_bad_indentation() {
    let content = "int f(void)\n{\n  return 0;\n}\n";
    let diags = check_line_indentation("test.c", content);
    assert!(diags.iter().any(|d| d.code == "C-L2"));
}

#[test]
fn c_l2_does_not_trigger_on_four_space_indentation() {
    let content = "int f(void)\n{\n    return 0;\n}\n";
    let diags = check_line_indentation("test.c", content);
    assert!(!diags.iter().any(|d| d.code == "C-L2"));
}

#[test]
fn c_l3_triggers_on_missing_space_before_brace() {
    let content = "int f(void)\n{\n    if(1) {\n        return 1;\n    }\n    return 0;\n}\n";
    let diags = check_spaces("test.c", content);
    assert!(diags.iter().any(|d| d.code == "C-L3"));
}

#[test]
fn c_l3_triggers_on_space_before_semicolon() {
    let content = "int f(void)\n{\n    return 0 ;\n}\n";
    let diags = check_spaces("test.c", content);
    assert!(diags.iter().any(|d| d.code == "C-L3"));
}

#[test]
fn c_l3_does_not_trigger_on_correct_spacing() {
    let content = "int f(void)\n{\n    if (1) {\n        return 1;\n    }\n    return 0;\n}\n";
    let diags = check_spaces("test.c", content);
    assert!(!diags.iter().any(|d| d.code == "C-L3"));
}

#[test]
fn c_l4_triggers_on_brace_not_on_own_line_for_function() {
    let content = "int f(void) {\n    return 0;\n}\n";
    let diags = check_brace_placement("test.c", content);
    assert!(diags.iter().any(|d| d.code == "C-L4"));
}

#[test]
fn c_l4_does_not_trigger_on_correct_function_brace() {
    let content = "int f(void)\n{\n    return 0;\n}\n";
    let diags = check_brace_placement("test.c", content);
    assert!(!diags.iter().any(|d| d.code == "C-L4"));
}

#[test]
fn c_l5_triggers_on_multiple_declarations_per_line() {
    let content = "int f(void)\n{\n    int a, b;\n    return a + b;\n}\n";
    let diags = check_variable_declarations("test.c", content);
    assert!(diags.iter().any(|d| d.code == "C-L5"));
}

#[test]
fn c_l5_triggers_on_declaration_after_statement() {
    let content = "int f(void)\n{\n    int a;\n\n    a = 1;\n    int b;\n    return a + b;\n}\n";
    let diags = check_variable_declarations("test.c", content);
    assert!(diags.iter().any(|d| d.code == "C-L5"));
}

#[test]
fn c_l5_does_not_trigger_on_single_declarations_at_top() {
    let content = "int f(void)\n{\n    int a;\n    int b;\n\n    a = 1;\n    return a + b;\n}\n";
    let diags = check_variable_declarations("test.c", content);
    assert!(!diags.iter().any(|d| d.code == "C-L5"));
}

#[test]
fn c_l6_triggers_on_missing_blank_line_after_declarations() {
    let content = "int f(void)\n{\n    int a;\n    a = 1;\n    return a;\n}\n";
    let diags = check_line_breaks("test.c", content);
    assert!(diags.iter().any(|d| d.code == "C-L6"));
}

#[test]
fn c_l6_triggers_on_unnecessary_blank_line() {
    let content = "int f(void)\n{\n    int a;\n\n    a = 1;\n\n    return a;\n}\n";
    let diags = check_line_breaks("test.c", content);
    assert!(diags.iter().any(|d| d.code == "C-L6"));
}

#[test]
fn c_l6_does_not_trigger_on_correct_blank_line_usage() {
    let content = "int f(void)\n{\n    int a;\n\n    a = 1;\n    return a;\n}\n";
    let diags = check_line_breaks("test.c", content);
    assert!(!diags.iter().any(|d| d.code == "C-L6"));
}

#[test]
fn c_l1_reports_the_second_statement_line() {
    let content = "int f(void)\n{\n    int a; a = 1;\n    return a;\n}\n";
    let diags = check_multiple_statements("test.c", content);
    assert_eq!(diags.len(), 1);
    assert_eq!(diags[0].line, 3);
}

#[test]
fn c_l2_unindented_line_in_a_function() {
    let content = "int f(void)\n{\nreturn 0;\n}\n";
    let diags = check_line_indentation("test.c", content);
    assert_eq!(diags.len(), 1);
    assert_eq!(diags[0].line, 3);
    assert_eq!(diags[0].message, "Line is not indented with 4-space groups");
}

#[test]
fn c_l3_comma_without_space() {
    let content = "int f(int a,int b)\n{\n    return a;\n}\n";
    let diags = check_spaces("test.c", content);
    assert_eq!(diags.len(), 1);
    assert_eq!(diags[0].line, 1);
    assert_eq!(diags[0].message, "Incorrect spacing around an operator or keyword");
}

#[test]
fn c_l4_else_after_closing_bracket_is_accepted() {
    let content = "int f(int a)\n{\n    if (a) {\n        a = 1;\n    } else {\n        a = 2;\n    }\n    return a;\n}\n";
    let diags = check_brace_placement("test.c", content);
    assert!(diags.is_empty());
}

#[test]
fn c_l6_missing_blank_line_is_reported_on_the_first_statement() {
    let content = "int f(void)\n{\n    int a;\n    a = 1;\n    return a;\n}\n";
    let diags = check_line_breaks("test.c", content);
    assert_eq!(diags.len(), 1);
    assert_eq!(diags[0].line, 4);
    assert_eq!(diags[0].message, "Missing blank line after variable declarations");
}

#[test]
fn c_l6_only_the_extra_blank_line_is_reported() {
    let content = "int f(void)\n{\n    int a;\n\n    a = 1;\n\n    return a;\n}\n";
    let diags = check_line_breaks("test.c", content);
    assert_eq!(diags.len(), 1);
    assert_eq!(diags[0].line, 6);
    assert_eq!(diags[0].message, "Unnecessary blank line inside function");
}
