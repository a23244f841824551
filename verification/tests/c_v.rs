use epitech_style_checker::rules::c_v::{check_enum_members, check_function_return_type, check_macro_names, check_pointer_attachments, check_typedef_names};

#[test]
fn c_v1_triggers_on_non_snake_case_return_type_from_typedef() {
    let content = "typedef struct MyType { int x; } MyType_t;\n\nMyType_t f(void)\n{\n    MyType_t t;\n    return t;\n}\n";
    let diags = check_function_return_type("test.c", content);
    assert!(diags.iter().any(|d| d.code == "C-V1"));
}

#[test]
fn c_v1_does_not_trigger_on_snake_case_return_type() {
    let content = "int f(void)\n{\n    return 0;\n}\n";
    let diags = check_function_return_type("test.c", content);
    assert!(!diags.iter().any(|d| d.code == "C-V1"));
}

#[test]
fn c_v1_triggers_on_lowercase_macro_name() {
    let content = "#define max_val 42\n";
    let diags = check_macro_names("test.c", content);
    assert!(diags.iter().any(|d| d.code == "C-V1"));
}

#[test]
fn c_v1_does_not_trigger_on_upper_case_macro_name() {
    let content = "#define MAX_VAL 42\n";
    let diags = check_macro_names("test.c", content);
    assert!(!diags.iter().any(|d| d.code == "C-V1"));
}

#[test]
fn c_v1_triggers_on_typedef_name_without_t_suffix() {
    let content = "typedef struct point { int x; int y; } point;\n";
    let diags = check_typedef_names("test.c", content);
    assert!(diags.iter().any(|d| d.code == "C-V1"));
}

#[test]
fn c_v1_does_not_trigger_on_typedef_name_ending_in_t() {
    let content = "typedef struct point { int x; int y; } point_t;\n";
    let diags = check_typedef_names("test.c", content);
    assert!(!diags.iter().any(|d| d.code == "C-V1"));
}

#[test]
fn c_v1_triggers_on_lowercase_enum_member() {
    let content = "enum color { red, green, blue };\n";
    let diags = check_enum_members("test.c", content);
    assert!(diags.iter().any(|d| d.code == "C-V1"));
}

#[test]
fn c_v1_does_not_trigger_on_uppercase_enum_member() {
    let content = "enum color { RED, GREEN, BLUE };\n";
    let diags = check_enum_members("test.c", content);
    assert!(!diags.iter().any(|d| d.code == "C-V1"));
}

#[test]
fn c_v3_triggers_on_star_attached_to_type() {
    let content = "int f(void)\n{\n    int* p;\n    return 0;\n}\n";
    let diags = check_pointer_attachments("test.c", content);
    assert!(diags.iter().any(|d| d.code == "C-V3"));
}

#[test]
fn c_v3_does_not_trigger_on_star_attached_to_name() {
    let content = "int f(void)\n{\n    int *p;\n    return 0;\n}\n";
    let diags = check_pointer_attachments("test.c", content);
    assert!(!diags.iter().any(|d| d.code == "C-V3"));
}

#[test]
fn c_v3_does_not_trigger_on_dereference_after_unary_operator() {
    let content = "void f(int *sign)\n{\n    *sign = -*sign;\n}\n";
    let diags = check_pointer_attachments("test.c", content);
    assert!(!diags.iter().any(|d| d.code == "C-V3"));
}

#[test]
fn c_v1_return_type_message() {
    let content = "typedef struct MyType { int x; } MyType_t;\n\nMyType_t f(void)\n{\n    MyType_t t;\n    return t;\n}\n";
    let diags = check_function_return_type("test.c", content);
    assert_eq!(diags.len(), 1);
    assert_eq!(diags[0].line, 3);
    assert_eq!(diags[0].message, "Return type 'MyType_t' is not in snake_case");
}

#[test]
fn c_v1_listed_library_types_are_accepted() {
    let content = "sfVector2f f(void)\n{\n    sfVector2f v;\n    return v;\n}\n";
    assert!(check_function_return_type("test.c", content).is_empty());
}

#[test]
fn c_v1_macro_name_message() {
    let diags = check_macro_names("test.c", "int a;\n#define max_val 42\n");
    assert_eq!(diags.len(), 1);
    assert_eq!(diags[0].line, 2);
    assert_eq!(diags[0].message, "Macro name 'max_val' should be in UPPER_CASE");
}

#[test]
fn c_v1_whole_macro_name_must_be_upper_case() {
    assert!(check_macro_names("test.c", "#define F(x) x\n").is_empty());
    let diags = check_macro_names("test.c", "#define MAX_val 42\n");
    assert_eq!(diags.len(), 1);
    assert_eq!(diags[0].line, 1);
    assert_eq!(diags[0].message, "Macro name 'MAX_val' should be in UPPER_CASE");
}

#[test]
fn c_v1_typedef_message() {
    let content = "typedef struct point { int x; int y; } point;\n";
    let diags = check_typedef_names("test.c", content);
    assert_eq!(diags.len(), 1);
    assert_eq!(diags[0].message, "Typedef name 'point' must end with '_t'");
}

#[test]
fn c_v1_enum_member_without_letters_is_accepted() {
    let diags = check_enum_members("test.c", "enum e { A_1, _2, b2 };\n");
    assert_eq!(diags.len(), 1);
    assert_eq!(diags[0].message, "Enum member 'b2' must be uppercase");
}

#[test]
fn c_v3_double_pointer_and_detached_star() {
    let ok = "int f(void)\n{\n    int **p;\n    return 0;\n}\n";
    assert!(check_pointer_attachments("test.c", ok).is_empty());
    let bad = "int f(void)\n{\n    int * p;\n    return 0;\n}\n";
    let diags = check_pointer_attachments("test.c", bad);
    assert_eq!(diags.len(), 1);
    assert_eq!(diags[0].line, 3);
    assert_eq!(diags[0].message, "Pointer '*' must be attached to the variable name");
}
