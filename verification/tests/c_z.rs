use epitech_style_checker::rules::c_z::check;

#[test]
fn c_z1_triggers_on_null_character() {
    let content = "int main(void)\n{\0\n    return 0;\n}\n";
    let diags = check("test.c", content);
    assert!(diags.iter().any(|d| d.code == "C-Z1"));
}

#[test]
fn c_z1_does_not_trigger_without_null_character() {
    let content = "int main(void)\n{\n    return 0;\n}\n";
    let diags = check("test.c", content);
    assert!(!diags.iter().any(|d| d.code == "C-Z1"));
}

#[test]
fn c_z1_reports_the_line_of_the_first_null() {
    let content = "a\nb\0\n\0";
    let diags = check("t.c", content);
    assert_eq!(diags.len(), 1);
    assert_eq!(diags[0].line, 2);
    assert_eq!(diags[0].file, "t.c");
    assert_eq!(diags[0].message, "File contains a null character");
}
