use epitech_style_checker::rules::c_f::{check_comments_in_functions, check_empty_params, check_function_length, check_function_names, check_function_params, check_line_length, check_nested_functions, check_struct_by_copy};

#[test]
fn c_f3_triggers_on_long_line() {
    let long_line = "int a = ".to_string() + &"1".repeat(80) + ";";
    let content = format!("{}\n", long_line);
    let diags = check_line_length("test.c", &content);
    assert!(diags.iter().any(|d| d.code == "C-F3"));
}

#[test]
fn c_f3_does_not_trigger_on_short_line() {
    let content = "int a = 1;\n";
    let diags = check_line_length("test.c", content);
    assert!(!diags.iter().any(|d| d.code == "C-F3"));
}

#[test]
fn c_f2_triggers_on_uppercase_name() {
    let content = "int Foo(void)\n{\n    return 0;\n}\n";
    let diags = check_function_names("test.c", content);
    assert!(diags.iter().any(|d| d.code == "C-F2"));
}

#[test]
fn c_f2_triggers_on_too_short_name() {
    let content = "int ab(void)\n{\n    return 0;\n}\n";
    let diags = check_function_names("test.c", content);
    assert!(diags.iter().any(|d| d.code == "C-F2"));
}

#[test]
fn c_f2_does_not_trigger_on_valid_snake_case() {
    let content = "int foo_bar(void)\n{\n    return 0;\n}\n";
    let diags = check_function_names("test.c", content);
    assert!(!diags.iter().any(|d| d.code == "C-F2"));
}

#[test]
fn c_f4_triggers_when_function_too_long() {
    let mut body = String::new();
    for _ in 0..22 {
        body.push_str("    a = a + 1;\n");
    }
    let content = format!("int f(int a)\n{{\n{}    return a;\n}}\n", body);
    let diags = check_function_length("test.c", &content);
    assert!(diags.iter().any(|d| d.code == "C-F4"));
}

#[test]
fn c_f4_does_not_trigger_when_function_short() {
    let mut body = String::new();
    for _ in 0..5 {
        body.push_str("    a = a + 1;\n");
    }
    let content = format!("int f(int a)\n{{\n{}    return a;\n}}\n", body);
    let diags = check_function_length("test.c", &content);
    assert!(!diags.iter().any(|d| d.code == "C-F4"));
}

#[test]
fn c_f5_triggers_with_too_many_params() {
    let content = "int f(int a, int b, int c, int d, int e)\n{\n    return a;\n}\n";
    let diags = check_function_params("test.c", content);
    assert!(diags.iter().any(|d| d.code == "C-F5"));
}

#[test]
fn c_f5_does_not_trigger_with_four_params() {
    let content = "int f(int a, int b, int c, int d)\n{\n    return a;\n}\n";
    let diags = check_function_params("test.c", content);
    assert!(!diags.iter().any(|d| d.code == "C-F5"));
}

#[test]
fn c_f6_triggers_on_empty_parameter_list() {
    let content = "int f()\n{\n    return 0;\n}\n";
    let diags = check_empty_params("test.c", content);
    assert!(diags.iter().any(|d| d.code == "C-F6"));
}

#[test]
fn c_f6_does_not_trigger_with_void() {
    let content = "int f(void)\n{\n    return 0;\n}\n";
    let diags = check_empty_params("test.c", content);
    assert!(!diags.iter().any(|d| d.code == "C-F6"));
}

#[test]
fn c_f9_triggers_on_nested_function() {
    let content = "int f(void)\n{\n    int g(void) { return 1; }\n    return g();\n}\n";
    let diags = check_nested_functions("test.c", content);
    assert!(diags.iter().any(|d| d.code == "C-F9"));
}

#[test]
fn c_f9_does_not_trigger_without_nested_function() {
    let content = "int f(void)\n{\n    return 0;\n}\n";
    let diags = check_nested_functions("test.c", content);
    assert!(!diags.iter().any(|d| d.code == "C-F9"));
}

#[test]
fn c_f8_triggers_on_comment_in_function() {
    let content = "int f(void)\n{\n    // comment\n    return 0;\n}\n";
    let diags = check_comments_in_functions("test.c", content);
    assert!(diags.iter().any(|d| d.code == "C-F8"));
}

#[test]
fn c_f8_does_not_trigger_without_comment() {
    let content = "int f(void)\n{\n    return 0;\n}\n";
    let diags = check_comments_in_functions("test.c", content);
    assert!(!diags.iter().any(|d| d.code == "C-F8"));
}

#[test]
fn c_f7_triggers_on_struct_by_copy() {
    let content = "int f(struct point p)\n{\n    return 0;\n}\n";
    let diags = check_struct_by_copy("test.c", content);
    assert!(diags.iter().any(|d| d.code == "C-F7"));
}

#[test]
fn c_f7_does_not_trigger_on_struct_pointer() {
    let content = "int f(struct point *p)\n{\n    return 0;\n}\n";
    let diags = check_struct_by_copy("test.c", content);
    assert!(!diags.iter().any(|d| d.code == "C-F7"));
}

#[test]
fn c_f3_line_of_exactly_eighty_columns_is_accepted() {
    let content = format!("{}\n", "x".repeat(80));
    let diags = check_line_length("test.c", &content);
    assert!(diags.is_empty());
}

#[test]
fn c_f3_message_gives_the_length() {
    let content = format!("a\n{}\n", "x".repeat(81));
    let diags = check_line_length("test.c", &content);
    assert_eq!(diags.len(), 1);
    assert_eq!(diags[0].line, 2);
    assert_eq!(diags[0].message, "Line exceeds 80 columns (81)");
}

#[test]
fn c_f5_message_gives_the_count() {
    let content = "int f(int a, int b, int c, int d, int e)\n{\n    return a;\n}\n";
    let diags = check_function_params("test.c", content);
    assert_eq!(diags.len(), 1);
    assert_eq!(diags[0].message, "Function has too many parameters (5)");
}

#[test]
fn c_f3_counts_characters_not_bytes() {
    let fits = format!("{}\n", "é".repeat(41));
    assert!(check_line_length("test.c", &fits).is_empty());
    let edge = format!("{}\n", "é".repeat(80));
    assert!(check_line_length("test.c", &edge).is_empty());
    let long = format!("{}\n", "é".repeat(81));
    let diags = check_line_length("test.c", &long);
    assert_eq!(diags.len(), 1);
    assert_eq!(diags[0].line, 1);
    assert_eq!(diags[0].message, "Line exceeds 80 columns (81)");
}

#[test]
fn c_f4_one_line_function_is_not_reported() {
    assert!(check_function_length("test.c", "int main(void) { return 0; }\n").is_empty());
}

#[test]
fn c_f4_counts_the_lines_between_the_brackets() {
    let twenty = format!("int f(int a)\n{{\n{}    return a;\n}}\n", "    a = a + 1;\n".repeat(19));
    assert!(check_function_length("test.c", &twenty).is_empty());
    let twenty_one = format!("int f(int a)\n{{\n{}    return a;\n}}\n", "    a = a + 1;\n".repeat(20));
    let diags = check_function_length("test.c", &twenty_one);
    assert_eq!(diags.len(), 1);
    assert_eq!(diags[0].line, 1);
    assert_eq!(diags[0].message, "Function exceeds 20 lines (21)");
}

#[test]
fn c_f3_message_gives_the_width_in_decimal() {
    let content = format!("{}\n", "x".repeat(100));
    let diags = check_line_length("test.c", &content);
    assert_eq!(diags.len(), 1);
    assert_eq!(diags[0].message, "Line exceeds 80 columns (100)");
}
