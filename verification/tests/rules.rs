use epitech_style_checker::rules::check;

#[test]
fn every_diagnostic_names_the_file_and_a_line() {
    let content = "int Foo(int *p,int b) {\n  int a, c;\n    goto x;\nx:\n    return a ? 1 : 1 ;\n}";
    let diags = check("dir/Bad.c", content);
    assert!(!diags.is_empty());
    for d in &diags {
        assert_eq!(d.file, "dir/Bad.c");
        assert!(d.line >= 1);
    }
}

#[test]
fn families_come_in_order() {
    let content = "int x = 5;\n\0";
    let diags = check("test.c", content);
    assert_eq!(diags[0].code, "C-G1");
    assert_eq!(diags[diags.len() - 1].code, "C-Z1");
    let order = ["C-G", "C-A", "C-C", "C-F", "C-O", "C-H", "C-L", "C-V", "C-Z"];
    let ranks: Vec<usize> = diags
        .iter()
        .map(|d| order.iter().position(|p| d.code.starts_with(p)).unwrap())
        .collect();
    assert!(ranks.windows(2).all(|w| w[0] <= w[1]));
}

#[test]
fn a_clean_file_has_no_diagnostics() {
    let content = "/*\n** EPITECH PROJECT, 2024\n** my_project\n** File description:\n** tools\n*/\n\nint compute_sum(int a, int b)\n{\n    return a + b;\n}\n";
    let diags = check("compute.c", content);
    assert!(diags.is_empty(), "{:?}", diags);
}

#[test]
fn an_empty_file_is_checked() {
    let diags = check("empty.c", "");
    assert!(diags.iter().any(|d| d.code == "C-G1"));
    assert!(diags.iter().any(|d| d.code == "C-A3" && d.line == 1));
    assert!(diags.iter().all(|d| d.line >= 1 && d.file == "empty.c"));
}
