use epitech_style_checker::diagnostic::Severity;
use epitech_style_checker::rules::c_g::{
    DirectiveLine, preprocessor_indentation_of, classify_line,
    check, check_function_separation, check_global_variable_constness, check_header,
    check_inline_assembly, check_leading_trailing_lines, check_line_endings,
    check_non_header_inclusion, check_preprocessor_indentation, check_trailing_spaces,
};

const VALID_HEADER: &str =
    "/*\n** EPITECH PROJECT, 2024\n** my_project\n** File description:\n** some description\n*/\n";

#[test]
fn c_g1_triggers_on_missing_header() {
    let content = "int main(void)\n{\n    return 0;\n}\n";
    let diags = check_header("test.c", content);
    assert!(diags.iter().any(|d| d.code == "C-G1"));
}

#[test]
fn c_g1_does_not_trigger_on_valid_header() {
    let content = format!("{}int main(void)\n{{\n    return 0;\n}}\n", VALID_HEADER);
    let diags = check_header("test.c", &content);
    assert!(!diags.iter().any(|d| d.code == "C-G1"));
}

#[test]
fn c_g2_triggers_when_extra_blank_lines_between_functions() {
    let content = "int f(void)\n{\n    return 0;\n}\n\n\nint g(void)\n{\n    return 0;\n}\n";
    let diags = check_function_separation("test.c", content);
    assert!(diags.iter().any(|d| d.code == "C-G2"));
}

#[test]
fn c_g2_does_not_trigger_with_one_blank_line() {
    let content = "int f(void)\n{\n    return 0;\n}\n\nint g(void)\n{\n    return 0;\n}\n";
    let diags = check_function_separation("test.c", content);
    assert!(!diags.iter().any(|d| d.code == "C-G2"));
}

#[test]
fn c_g2_reports_the_line_after_the_gap() {
    let content = "}\n\n\nint g;\n";
    let diags = check_function_separation("test.c", content);
    assert_eq!(diags.len(), 1);
    assert_eq!(diags[0].line, 4);
    assert_eq!(diags[0].severity, Severity::Major);
}

#[test]
fn c_g6_triggers_on_cr_line_ending() {
    let content = "int main(void)\r\n{\n    return 0;\n}\n";
    let diags = check_line_endings("test.c", content);
    assert!(diags.iter().any(|d| d.code == "C-G6"));
}

#[test]
fn c_g6_does_not_trigger_on_plain_lf() {
    let content = "int main(void)\n{\n    return 0;\n}\n";
    let diags = check_line_endings("test.c", content);
    assert!(!diags.iter().any(|d| d.code == "C-G6"));
}

#[test]
fn c_g6_triggers_on_trailing_backslash() {
    let diags = check_line_endings("test.c", "a\nb \\\n");
    assert_eq!(diags.len(), 1);
    assert_eq!(diags[0].line, 2);
}

#[test]
fn c_g7_triggers_on_trailing_space() {
    let content = "int main(void) \n{\n    return 0;\n}\n";
    let diags = check_trailing_spaces("test.c", content);
    assert!(diags.iter().any(|d| d.code == "C-G7"));
}

#[test]
fn c_g7_does_not_trigger_without_trailing_space() {
    let content = "int main(void)\n{\n    return 0;\n}\n";
    let diags = check_trailing_spaces("test.c", content);
    assert!(!diags.iter().any(|d| d.code == "C-G7"));
}

#[test]
fn c_g8_triggers_on_leading_empty_line() {
    let content = "\nint main(void)\n{\n    return 0;\n}\n";
    let diags = check_leading_trailing_lines("test.c", content);
    assert!(diags.iter().any(|d| d.code == "C-G8"));
}

#[test]
fn c_g8_triggers_on_multiple_trailing_empty_lines() {
    let content = "int main(void)\n{\n    return 0;\n}\n\n\n";
    let diags = check_leading_trailing_lines("test.c", content);
    assert!(diags.iter().any(|d| d.code == "C-G8"));
}

#[test]
fn c_g8_does_not_trigger_on_clean_file() {
    let content = "int main(void)\n{\n    return 0;\n}\n";
    let diags = check_leading_trailing_lines("test.c", content);
    assert!(!diags.iter().any(|d| d.code == "C-G8"));
}

#[test]
fn c_g8_trailing_report_is_on_the_last_piece() {
    assert!(check_leading_trailing_lines("test.c", "}\n\n").is_empty());
    let diags = check_leading_trailing_lines("test.c", "x\n\n\n");
    assert_eq!(diags.len(), 1);
    assert_eq!(diags[0].line, 4);
    assert_eq!(diags[0].message, "No more than 1 trailing empty line");
}

#[test]
fn c_g3_triggers_on_misindented_directive() {
    let content = "#if 1\n#define FOO 1\n#endif\n";
    let diags = check_preprocessor_indentation("test.c", content);
    assert!(diags.iter().any(|d| d.code == "C-G3"));
}

#[test]
fn c_g3_does_not_trigger_on_properly_indented_directives() {
    let content = "#if 1\n    #define FOO 1\n#endif\n";
    let diags = check_preprocessor_indentation("test.c", content);
    assert!(!diags.iter().any(|d| d.code == "C-G3"));
}

#[test]
fn c_g5_triggers_on_non_header_include() {
    let content = "#include \"foo.c\"\n";
    let diags = check_non_header_inclusion("test.c", content);
    assert!(diags.iter().any(|d| d.code == "C-G5"));
    assert_eq!(diags[0].message, "Included file 'foo.c' should be a header");
}

#[test]
fn c_g5_does_not_trigger_on_header_include() {
    let content = "#include \"foo.h\"\n";
    let diags = check_non_header_inclusion("test.c", content);
    assert!(!diags.iter().any(|d| d.code == "C-G5"));
}

#[test]
fn c_g10_triggers_on_inline_assembly() {
    let content = "void f(void)\n{\n    asm(\"nop\");\n}\n";
    let diags = check_inline_assembly("test.c", content);
    assert!(diags.iter().any(|d| d.code == "C-G10"));
}

#[test]
fn c_g10_does_not_trigger_without_assembly() {
    let content = "void f(void)\n{\n    return;\n}\n";
    let diags = check_inline_assembly("test.c", content);
    assert!(!diags.iter().any(|d| d.code == "C-G10"));
}

#[test]
fn c_g4_triggers_on_non_const_global_with_initializer() {
    let content = "int x = 5;\n";
    let diags = check_global_variable_constness("test.c", content);
    assert!(diags.iter().any(|d| d.code == "C-G4"));
}

#[test]
fn c_g4_does_not_trigger_on_const_global() {
    let content = "const int x = 5;\n";
    let diags = check_global_variable_constness("test.c", content);
    assert!(!diags.iter().any(|d| d.code == "C-G4"));
}

#[test]
fn c_g_check_runs_every_rule() {
    let diags = check("test.c", "int x = 5; \n");
    assert!(diags.iter().any(|d| d.code == "C-G1"));
    assert!(diags.iter().any(|d| d.code == "C-G7"));
    assert!(diags.iter().any(|d| d.code == "C-G4"));
}

fn directive(indent: usize, open: bool, branch: bool, close: bool) -> DirectiveLine {
    DirectiveLine { blank: false, indent, open, branch, close, any: true }
}

#[test]
fn c_g3_fold_on_given_lines() {
    let lines = vec![
        directive(0, true, false, false),
        directive(0, false, false, false),
        directive(0, false, false, true),
    ];
    let diags = preprocessor_indentation_of("t.c", &lines);
    assert_eq!(diags.len(), 1);
    assert_eq!(diags[0].line, 2);
    let nested = vec![
        directive(0, true, false, false),
        directive(4, false, false, false),
        directive(4, false, true, false),
        directive(0, false, false, true),
    ];
    let diags = preprocessor_indentation_of("t.c", &nested);
    assert_eq!(diags.len(), 1);
    assert_eq!(diags[0].line, 3);
}

#[test]
fn c_g3_classifies_lines() {
    let c = classify_line(b"  #  ifdef X");
    assert!(!c.blank && c.open && c.any && !c.branch && !c.close);
    assert_eq!(c.indent, 2);
    let c = classify_line(b"   ");
    assert!(c.blank);
    let c = classify_line(b"int x;");
    assert!(!c.any && !c.open);
}

#[test]
fn c_g2_triggers_when_functions_touch() {
    let content = "int f(void)\n{\n    return 0;\n}\nint g(void)\n{\n    return 0;\n}\n";
    let diags = check_function_separation("test.c", content);
    assert_eq!(diags.len(), 1);
    assert_eq!(diags[0].line, 5);
    let nested = "int f(int a)\n{\n    if (a) {\n        a = 1;\n    }\n    return a;\n}\n";
    assert!(check_function_separation("test.c", nested).is_empty());
}
