use epitech_style_checker::rules::c_c::{
    check, check_conditional_branching, check_goto, check_ternary_operator,
};

#[test]
fn c_c3_triggers_on_goto() {
    let content = "int main(void)\n{\n    goto end;\nend:\n    return 0;\n}\n";
    let diags = check_goto("test.c", content);
    assert!(diags.iter().any(|d| d.code == "C-C3"));
}

#[test]
fn c_c3_does_not_trigger_without_goto() {
    let content = "int main(void)\n{\n    return 0;\n}\n";
    let diags = check_goto("test.c", content);
    assert!(!diags.iter().any(|d| d.code == "C-C3"));
}

#[test]
fn c_c1_triggers_when_nesting_exceeds_two() {
    let content = "int f(int a)\n{\n    if (a) {\n        if (a) {\n            if (a) {\n                a = 1;\n            }\n        }\n    }\n    return a;\n}\n";
    let diags = check_conditional_branching("test.c", content);
    assert!(diags.iter().any(|d| d.code == "C-C1"));
}

#[test]
fn c_c1_does_not_trigger_at_exactly_two_levels() {
    let content = "int f(int a)\n{\n    if (a) {\n        if (a) {\n            a = 1;\n        }\n    }\n    return a;\n}\n";
    let diags = check_conditional_branching("test.c", content);
    assert!(!diags.iter().any(|d| d.code == "C-C1"));
}

#[test]
fn c_c2_triggers_on_ternary_as_statement() {
    let content = "int f(int a)\n{\n    a ? f(1) : f(0);\n    return a;\n}\n";
    let diags = check_ternary_operator("test.c", content);
    assert!(diags.iter().any(|d| d.code == "C-C2"));
}

#[test]
fn c_c2_triggers_on_nested_ternary() {
    let content = "int f(int a)\n{\n    return a ? (a ? 1 : 2) : 0;\n}\n";
    let diags = check_ternary_operator("test.c", content);
    assert!(diags.iter().any(|d| d.code == "C-C2"));
}

#[test]
fn c_c2_does_not_trigger_on_simple_ternary_in_return() {
    let content = "int f(int a)\n{\n    return a ? 1 : 0;\n}\n";
    let diags = check_ternary_operator("test.c", content);
    assert!(!diags.iter().any(|d| d.code == "C-C2"));
}

#[test]
fn c_c3_reports_each_line_with_goto() {
    let content = "int f(void)\n{\nx:\n    goto x;\n}\n";
    let diags = check_goto("test.c", content);
    assert_eq!(diags.len(), 1);
    assert_eq!(diags[0].line, 4);
    assert_eq!(diags[0].message, "goto keyword is forbidden");
}

#[test]
fn c_c1_reports_only_the_third_level() {
    let content = "int f(int a)\n{\n    if (a) {\n        if (a) {\n            if (a) {\n                a = 1;\n            }\n        }\n    }\n    return a;\n}\n";
    let diags = check_conditional_branching("test.c", content);
    assert_eq!(diags.len(), 1);
    assert_eq!(diags[0].line, 5);
}

#[test]
fn c_c2_triggers_on_equal_branches() {
    let content = "int f(int a)\n{\n    return a ? 1 : 1;\n}\n";
    let diags = check_ternary_operator("test.c", content);
    assert_eq!(diags.len(), 1);
    assert_eq!(diags[0].line, 3);
    assert_eq!(diags[0].message, "Misuse of the ternary operator");
}

#[test]
fn c_c_check_runs_every_rule() {
    let content = "int f(int a)\n{\n    goto e;\ne:\n    a ? f(1) : f(0);\n    return a;\n}\n";
    let diags = check("test.c", content);
    assert_eq!(diags[0].code, "C-C3");
    assert!(diags.iter().any(|d| d.code == "C-C2"));
}

#[test]
fn c_c3_only_the_keyword_counts() {
    let call = "int f(void)\n{\n    gotoxy(1, 2);\n    return 0;\n}\n";
    assert!(check_goto("test.c", call).is_empty());
    let comment = "int f(void)\n{\n    /* no goto here */\n    return 0;\n}\n";
    assert!(check_goto("test.c", comment).is_empty());
    let jump = "int f(void)\n{\n    goto end;\nend:\n    return 0;\n}\n";
    let diags = check_goto("test.c", jump);
    assert_eq!(diags.len(), 1);
    assert_eq!(diags[0].line, 3);
}

#[test]
fn c_c_results_do_not_depend_on_the_file_name() {
    let content = "int f(int a)\n{\n    if (a)\n        goto end;\n    else if (a > 1)\n        a = 2;\n    else if (a > 2)\n        a = 3;\n    else\n        a = 4;\nend:\n    return a ? 1 : 0;\n}\n";
    let one = check("one.c", content);
    let two = check("dir/two.h", content);
    assert!(!one.is_empty());
    assert_eq!(one.len(), two.len());
    for (x, y) in one.iter().zip(two.iter()) {
        assert_eq!(x.line, y.line);
        assert_eq!(x.code, y.code);
        assert_eq!(x.message, y.message);
        assert_eq!(x.file, "one.c");
        assert_eq!(y.file, "dir/two.h");
    }
}
