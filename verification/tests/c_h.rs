use epitech_style_checker::rules::c_h::{check_forbidden_directives, check_functions_placement, check_include_guard, check_macro_size};

#[test]
fn c_h2_triggers_on_missing_include_guard() {
    let content = "void f(void);\n";
    let diags = check_include_guard("test.h", content);
    assert!(diags.iter().any(|d| d.code == "C-H2"));
}

#[test]
fn c_h2_does_not_trigger_with_include_guard() {
    let content = "#ifndef TEST_H\n#define TEST_H\n\nvoid f(void);\n\n#endif\n";
    let diags = check_include_guard("test.h", content);
    assert!(!diags.iter().any(|d| d.code == "C-H2"));
}

#[test]
fn c_h2_ignored_for_c_files() {
    let content = "void f(void);\n";
    let diags = check_include_guard("test.c", content);
    assert!(diags.is_empty());
}

#[test]
fn c_h1_triggers_on_non_empty_macro_in_source() {
    let content = "#define MAX 42\n\nint main(void)\n{\n    return 0;\n}\n";
    let diags = check_forbidden_directives("test.c", content);
    assert!(diags.iter().any(|d| d.code == "C-H1"));
}

#[test]
fn c_h1_triggers_on_typedef_in_source() {
    let content = "typedef int myint;\n\nint main(void)\n{\n    return 0;\n}\n";
    let diags = check_forbidden_directives("test.c", content);
    assert!(diags.iter().any(|d| d.code == "C-H1"));
}

#[test]
fn c_h1_does_not_trigger_on_empty_macro_in_source() {
    let content = "#define MAX\n\nint main(void)\n{\n    return 0;\n}\n";
    let diags = check_forbidden_directives("test.c", content);
    assert!(!diags.iter().any(|d| d.code == "C-H1"));
}

#[test]
fn c_h1_triggers_on_static_inline_in_source() {
    let content = "static inline int f(void)\n{\n    return 0;\n}\n";
    let diags = check_functions_placement("test.c", content);
    assert!(diags.iter().any(|d| d.code == "C-H1"));
}

#[test]
fn c_h1_does_not_trigger_on_plain_function_in_source() {
    let content = "int f(void)\n{\n    return 0;\n}\n";
    let diags = check_functions_placement("test.c", content);
    assert!(!diags.iter().any(|d| d.code == "C-H1"));
}

#[test]
fn c_h1_triggers_on_non_static_inline_function_in_header() {
    let content = "int f(void)\n{\n    return 0;\n}\n";
    let diags = check_functions_placement("test.h", content);
    assert!(diags.iter().any(|d| d.code == "C-H1"));
}

#[test]
fn c_h1_does_not_trigger_on_static_inline_function_in_header() {
    let content = "static inline int f(void)\n{\n    return 0;\n}\n";
    let diags = check_functions_placement("test.h", content);
    assert!(!diags.iter().any(|d| d.code == "C-H1"));
}

#[test]
fn c_h1_triggers_on_prototype_in_source() {
    let content = "int f(void);\n";
    let diags = check_functions_placement("test.c", content);
    assert!(diags.iter().any(|d| d.code == "C-H1"));
}

#[test]
fn c_h3_triggers_on_multiline_macro() {
    let content = "#define FOO(x) \\\n    do { x; } while (0)\n";
    let diags = check_macro_size("test.c", content);
    assert!(diags.iter().any(|d| d.code == "C-H3"));
}

#[test]
fn c_h3_triggers_on_macro_with_multiple_statements() {
    let content = "#define FOO(x) a = 1; b = 2;\n";
    let diags = check_macro_size("test.c", content);
    assert!(diags.iter().any(|d| d.code == "C-H3"));
}

#[test]
fn c_h3_does_not_trigger_on_single_statement_macro() {
    let content = "#define FOO(x) (x + 1)\n";
    let diags = check_macro_size("test.c", content);
    assert!(!diags.iter().any(|d| d.code == "C-H3"));
}

#[test]
fn c_h2_message_and_line() {
    let diags = check_include_guard("inc/test.h", "void f(void);\n");
    assert_eq!(diags.len(), 1);
    assert_eq!(diags[0].line, 1);
    assert_eq!(diags[0].file, "inc/test.h");
    assert_eq!(diags[0].message, "Header must be protected by include guard");
}

#[test]
fn c_h1_define_with_only_a_comment_is_empty() {
    let diags = check_forbidden_directives("test.c", "#define FOO /* a b */\n#define BAR // x y\n");
    assert!(diags.is_empty());
}

#[test]
fn c_h1_define_with_parameters_is_not_empty() {
    let diags = check_forbidden_directives("test.c", "#define FOO(x)\n");
    assert_eq!(diags.len(), 1);
    assert_eq!(diags[0].message, "Non-empty macro definitions are forbidden in source files");
}

#[test]
fn c_h1_typedef_must_be_a_whole_word() {
    let diags = check_forbidden_directives("test.c", "int x = my_typedef_count;\n");
    assert!(diags.is_empty());
    let diags = check_forbidden_directives("test.c", "x;\ntypedef int t;\n");
    assert_eq!(diags.len(), 1);
    assert_eq!(diags[0].line, 2);
    assert_eq!(diags[0].message, "typedef is forbidden in source files");
}

#[test]
fn c_h1_prototype_message() {
    let diags = check_functions_placement("test.c", "int f(void);\n");
    assert_eq!(diags.len(), 1);
    assert_eq!(diags[0].message, "Function prototypes are forbidden in source files");
}

#[test]
fn c_h3_semicolon_inside_a_string_is_accepted() {
    let diags = check_macro_size("test.c", "#define S \"a;b\"\n");
    assert!(diags.is_empty());
}

#[test]
fn c_h3_spaced_define_is_checked() {
    let diags = check_macro_size("test.h", "# define F(x) x;\n");
    assert_eq!(diags.len(), 1);
    assert_eq!(diags[0].line, 1);
}

#[test]
fn c_h3_other_files_are_not_checked() {
    let diags = check_macro_size("notes.txt", "#define F(x) x;\n");
    assert!(diags.is_empty());
}

#[test]
fn c_h1_reads_the_specifiers_not_the_name() {
    let named = "static int inline_count(void)\n{\n    return 0;\n}\n";
    assert!(check_functions_placement("test.c", named).is_empty());
    let diags = check_functions_placement("test.h", named);
    assert_eq!(diags.len(), 1);
    assert_eq!(diags[0].message, "Only static inline function definitions are allowed in headers");
    let real = "static inline int count(void)\n{\n    return 0;\n}\n";
    assert!(check_functions_placement("test.h", real).is_empty());
    let diags = check_functions_placement("test.c", real);
    assert_eq!(diags.len(), 1);
    assert_eq!(diags[0].line, 1);
    assert_eq!(diags[0].message, "static inline functions are forbidden in source files");
}
