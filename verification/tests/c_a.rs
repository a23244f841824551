use epitech_style_checker::diagnostic::Severity;
use epitech_style_checker::rules::c_a::{
    check, check_const_pointers, check_file_end, check_static_usage, check_typing,
    definitions_in_tree, unused_definitions, used_in_other_files, Definition,
};
use epitech_style_checker::syntax::{fits, parse};

#[test]
fn c_a3_triggers_when_no_trailing_newline() {
    let content = "int main(void)\n{\n    return 0;\n}";
    let diags = check("test.c", content);
    assert!(diags.iter().any(|d| d.code == "C-A3"));
}

#[test]
fn c_a3_does_not_trigger_with_trailing_newline() {
    let content = "int main(void)\n{\n    return 0;\n}\n";
    let diags = check("test.c", content);
    assert!(!diags.iter().any(|d| d.code == "C-A3"));
}

#[test]
fn c_a1_triggers_when_pointer_param_never_written_or_passed() {
    let content = "int f(int *ptr)\n{\n    return *ptr;\n}\n";
    let diags = check_const_pointers("test.c", content);
    assert!(diags.iter().any(|d| d.code == "C-A1"));
}

#[test]
fn c_a1_does_not_trigger_when_pointer_is_written() {
    let content = "int f(int *ptr)\n{\n    *ptr = 1;\n    return 0;\n}\n";
    let diags = check_const_pointers("test.c", content);
    assert!(!diags.iter().any(|d| d.code == "C-A1"));
}

#[test]
fn c_a1_does_not_trigger_when_already_const() {
    let content = "int f(const int *ptr)\n{\n    return *ptr;\n}\n";
    let diags = check_const_pointers("test.c", content);
    assert!(!diags.iter().any(|d| d.code == "C-A1"));
}

#[test]
fn c_a1_does_not_trigger_when_passed_to_another_call() {
    let content = "int f(int *ptr)\n{\n    bar(ptr);\n    return 0;\n}\n";
    let diags = check_const_pointers("test.c", content);
    assert!(!diags.iter().any(|d| d.code == "C-A1"));
}

#[test]
fn c_a1_does_not_trigger_on_void_pointer() {
    let content = "int f(void *data)\n{\n    return 0;\n}\n";
    let diags = check_const_pointers("test.c", content);
    assert!(!diags.iter().any(|d| d.code == "C-A1"));
}

#[test]
fn c_a2_triggers_on_counter_variable() {
    let content = "int f(void)\n{\n    int counter;\n    counter = 0;\n    return counter;\n}\n";
    let diags = check_typing("test.c", content);
    assert!(diags.iter().any(|d| d.code == "C-A2"));
}

#[test]
fn c_a2_does_not_trigger_on_regular_int() {
    let content = "int f(void)\n{\n    int result;\n    result = 0;\n    return result;\n}\n";
    let diags = check_typing("test.c", content);
    assert!(!diags.iter().any(|d| d.code == "C-A2"));
}

#[test]
fn c_a2_triggers_on_size_like_function_returning_int() {
    let content = "int get_size(void)\n{\n    return 0;\n}\n";
    let diags = check_typing("test.c", content);
    assert!(diags.iter().any(|d| d.code == "C-A2"));
}

#[test]
fn c_a2_does_not_trigger_on_regular_function() {
    let content = "int compute(void)\n{\n    return 0;\n}\n";
    let diags = check_typing("test.c", content);
    assert!(!diags.iter().any(|d| d.code == "C-A2"));
}

#[test]
fn c_a4_triggers_on_unused_non_static_function() {
    let files = vec![
        (
            "a.c".to_string(),
            "int helper(void)\n{\n    return 0;\n}\n\nint main(void)\n{\n    return helper();\n}\n"
                .to_string(),
        ),
        ("b.c".to_string(), "int other(void)\n{\n    return 1;\n}\n".to_string()),
    ];
    let diags = check_static_usage(&files);
    assert!(diags.iter().any(|d| d.code == "C-A4" && d.file == "a.c"));
}

#[test]
fn c_a4_does_not_trigger_when_used_in_another_file() {
    let files = vec![
        (
            "a.c".to_string(),
            "int helper(void)\n{\n    return 0;\n}\n".to_string(),
        ),
        (
            "b.c".to_string(),
            "int main(void)\n{\n    return helper();\n}\n".to_string(),
        ),
    ];
    let diags = check_static_usage(&files);
    assert!(!diags.iter().any(|d| d.code == "C-A4" && d.file == "a.c"));
}

#[test]
fn c_a4_does_not_trigger_when_already_static() {
    let files = vec![
        (
            "a.c".to_string(),
            "static int helper(void)\n{\n    return 0;\n}\n".to_string(),
        ),
        ("b.c".to_string(), "int main(void)\n{\n    return 0;\n}\n".to_string()),
    ];
    let diags = check_static_usage(&files);
    assert!(!diags.iter().any(|d| d.code == "C-A4"));
}

#[test]
fn c_a3_reports_the_last_line() {
    let diags = check_file_end("t.c", "a\nb");
    assert_eq!(diags.len(), 1);
    assert_eq!(diags[0].line, 2);
    assert_eq!(diags[0].severity, Severity::Info);
    assert_eq!(diags[0].message, "File must end with a line break");
}

#[test]
fn c_a3_empty_file_is_reported_on_line_one() {
    let diags = check_file_end("t.c", "");
    assert_eq!(diags.len(), 1);
    assert_eq!(diags[0].line, 1);
}

#[test]
fn c_a1_message_names_the_parameter() {
    let content = "int f(int *ptr)\n{\n    return *ptr;\n}\n";
    let diags = check_const_pointers("test.c", content);
    assert_eq!(diags.len(), 1);
    assert_eq!(diags[0].line, 1);
    assert_eq!(diags[0].code, "C-A1");
    assert_eq!(diags[0].message, "Pointer parameter 'ptr' should be const");
}

#[test]
fn c_a1_write_through_arrow_counts() {
    let content = "void f(struct s *p)\n{\n    p->x = 1;\n}\n";
    let diags = check_const_pointers("test.c", content);
    assert!(diags.is_empty());
}

#[test]
fn c_a2_counter_message_and_line() {
    let content = "int f(void)\n{\n    int nb_items;\n    return nb_items;\n}\n";
    let diags = check_typing("test.c", content);
    assert_eq!(diags.len(), 1);
    assert_eq!(diags[0].line, 3);
    assert_eq!(
        diags[0].message,
        "Variable 'nb_items' looks like a counter and should use an unsigned type"
    );
}

#[test]
fn c_a2_size_function_returning_unsigned_int() {
    let content = "unsigned int my_len(void)\n{\n    return 0;\n}\n";
    let diags = check_typing("test.c", content);
    assert_eq!(diags.len(), 1);
    assert_eq!(
        diags[0].message,
        "Function 'my_len' returns a size-like value and should return size_t"
    );
}

#[test]
fn c_a4_reports_name_line_and_file() {
    let files = vec![
        ("a.c".to_string(), "int helper(void)\n{\n    return 0;\n}\n".to_string()),
        ("b.c".to_string(), "int main(void)\n{\n    return 0;\n}\n".to_string()),
    ];
    let diags = check_static_usage(&files);
    assert_eq!(diags.len(), 1);
    assert_eq!(diags[0].file, "a.c");
    assert_eq!(diags[0].line, 1);
    assert_eq!(diags[0].severity, Severity::Info);
    assert_eq!(
        diags[0].message,
        "'helper' is not used outside this file and should be marked static"
    );
}

#[test]
fn c_a4_skips_headers_and_extern_declarations() {
    let files = vec![
        ("a.h".to_string(), "int helper(void)\n{\n    return 0;\n}\n".to_string()),
        ("c.c".to_string(), "extern int g;\n".to_string()),
    ];
    let diags = check_static_usage(&files);
    assert!(diags.is_empty());
}

#[test]
fn c_a4_global_used_elsewhere_is_not_reported() {
    let files = vec![
        ("a.c".to_string(), "int shared_value = 0;\n".to_string()),
        ("b.c".to_string(), "int get_it(void)\n{\n    return shared_value;\n}\n".to_string()),
    ];
    let diags = check_static_usage(&files);
    assert!(!diags.iter().any(|d| d.file == "a.c"));
    assert!(diags.iter().any(|d| d.file == "b.c"));
}

#[test]
fn used_in_other_files_escapes_the_name() {
    let files = vec![
        ("x.c".to_string(), "int q;\n".to_string()),
        ("y.c".to_string(), "axb\n".to_string()),
    ];
    assert!(!used_in_other_files(b"a.b", &files, 0));
    assert!(used_in_other_files(b"axb", &files, 0));
    assert!(!used_in_other_files(b"axb", &files, 1));
    assert!(used_in_other_files(b"", &files, 0));
}

#[test]
fn c_a4_definitions_of_a_file() {
    let content = "static int a;\nint b, *c;\nint main(void)\n{\n    return 0;\n}\nint f(void);\n";
    let t = parse(content).unwrap();
    assert!(fits(&t));
    let defs = definitions_in_tree(content, &t);
    let got: Vec<(usize, Vec<u8>)> = defs.iter().map(|d| (d.line, d.name.clone())).collect();
    assert_eq!(got, vec![(2, b"b".to_vec()), (2, b"c".to_vec())]);
}

#[test]
fn c_a4_reports_the_definitions_used_nowhere_else() {
    let defs = vec![
        Definition { line: 3, name: b"x".to_vec() },
        Definition { line: 7, name: b"y".to_vec() },
    ];
    let diags = unused_definitions("a.c", &defs, &vec![true, false]);
    assert_eq!(diags.len(), 1);
    assert_eq!(diags[0].line, 7);
    assert_eq!(diags[0].code, "C-A4");
    assert_eq!(
        diags[0].message,
        "'y' is not used outside this file and should be marked static"
    );
}

#[test]
fn c_a1_increments_through_the_pointer_are_writes() {
    let post = "int f(int *p)\n{\n    (*p)++;\n    return 0;\n}\n";
    assert!(check_const_pointers("test.c", post).is_empty());
    let indexed = "int f(int *p, int i)\n{\n    p[i]--;\n    return 0;\n}\n";
    assert!(check_const_pointers("test.c", indexed).is_empty());
    let read_only = "int f(int *p)\n{\n    return *p + 1;\n}\n";
    let diags = check_const_pointers("test.c", read_only);
    assert_eq!(diags.len(), 1);
    assert_eq!(diags[0].line, 1);
    assert_eq!(diags[0].message, "Pointer parameter 'p' should be const");
}

#[test]
fn c_a4_a_new_header_clears_what_it_mentions() {
    let files = vec![
        ("a.c".to_string(), "int helper(void)\n{\n    return 0;\n}\n\nint other(void)\n{\n    return 1;\n}\n".to_string()),
        ("b.c".to_string(), "int main(void)\n{\n    return 0;\n}\n".to_string()),
    ];
    let before = check_static_usage(&files);
    assert!(before.iter().any(|d| d.message.contains("'helper'")));
    assert!(before.iter().any(|d| d.message.contains("'other'")));
    let mut with_header = files.clone();
    with_header.push(("a.h".to_string(), "int helper(void);\n".to_string()));
    let after = check_static_usage(&with_header);
    assert!(!after.iter().any(|d| d.message.contains("'helper'")));
    assert!(after.iter().any(|d| d.message.contains("'other'")));
    assert!(!after.iter().any(|d| d.file == "a.h"));
    assert_eq!(after.len() + 1, before.len());
}
