use epitech_style_checker::rules::c_o::{check, check_delivery_files, check_extension, check_functions_count, check_snake_case};

#[test]
fn c_o4_triggers_on_uppercase_filename() {
    let diags = check_snake_case("MyFile.c", "");
    assert!(diags.iter().any(|d| d.code == "C-O4"));
}

#[test]
fn c_o4_does_not_trigger_on_snake_case_filename() {
    let diags = check_snake_case("my_file.c", "");
    assert!(!diags.iter().any(|d| d.code == "C-O4"));
}

#[test]
fn c_o1_triggers_on_binary_magic() {
    let content = "\u{7f}ELFrest of a fake binary";
    let diags = check_delivery_files("a.out", content);
    assert!(diags.iter().any(|d| d.code == "C-O1"));
}

#[test]
fn c_o1_triggers_on_unwanted_extension() {
    let diags = check_delivery_files("main.o", "");
    assert!(diags.iter().any(|d| d.code == "C-O1"));
}

#[test]
fn c_o1_does_not_trigger_on_normal_source_file() {
    let diags = check_delivery_files("main.c", "int main(void) { return 0; }\n");
    assert!(!diags.iter().any(|d| d.code == "C-O1"));
}

#[test]
fn c_o3_triggers_on_too_many_functions() {
    let mut content = String::new();
    for i in 0..11 {
        content.push_str(&format!("static int f{}(void)\n{{\n    return 0;\n}}\n\n", i));
    }
    let diags = check_functions_count("test.c", &content);
    assert!(diags.iter().any(|d| d.code == "C-O3"));
}

#[test]
fn c_o3_triggers_on_too_many_non_static_functions() {
    let mut content = String::new();
    for i in 0..6 {
        content.push_str(&format!("int f{}(void)\n{{\n    return 0;\n}}\n\n", i));
    }
    let diags = check_functions_count("test.c", &content);
    assert!(diags.iter().any(|d| d.code == "C-O3"));
}

#[test]
fn c_o3_does_not_trigger_with_few_functions() {
    let content = "int f(void)\n{\n    return 0;\n}\n\nint g(void)\n{\n    return 0;\n}\n";
    let diags = check_functions_count("test.c", content);
    assert!(!diags.iter().any(|d| d.code == "C-O3"));
}

fn functions(count: usize, prefix: &str) -> String {
    let mut content = String::new();
    for i in 0..count {
        content.push_str(&format!("{}int f{}(void)\n{{\n    return 0;\n}}\n\n", prefix, i));
    }
    content
}

#[test]
fn c_o3_ten_static_functions_are_accepted() {
    let diags = check_functions_count("test.c", &functions(10, "static "));
    assert!(diags.is_empty());
}

#[test]
fn c_o3_the_eleventh_function_is_reported() {
    let diags = check_functions_count("test.c", &functions(11, "static "));
    assert_eq!(diags.len(), 1);
    assert_eq!(diags[0].line, 51);
    assert_eq!(diags[0].message, "Too many functions in the file");
}

#[test]
fn c_o3_the_sixth_non_static_function_is_reported() {
    let diags = check_functions_count("test.c", &functions(6, ""));
    assert_eq!(diags.len(), 1);
    assert_eq!(diags[0].line, 26);
    assert_eq!(diags[0].message, "Too many non-static functions in the file");
}

#[test]
fn c_o3_each_function_is_reported_once() {
    let diags = check_functions_count("test.c", &functions(12, ""));
    assert_eq!(diags.len(), 7);
    assert!(diags.iter().all(|d| d.message == "Too many non-static functions in the file"));
}

#[test]
fn c_o1_unwanted_names() {
    for name in ["libx.so.1", "vgcore.123", "notes#", "dir/main.o", "a.out", "Module.symvers"] {
        let diags = check_delivery_files(name, "");
        assert_eq!(diags.len(), 1, "{}", name);
        assert_eq!(diags[0].message, "Unwanted file must not be delivered");
    }
    for name in ["main.c", "vgcore.abc", "dir/util.h"] {
        assert!(check_delivery_files(name, "").is_empty(), "{}", name);
    }
}

#[test]
fn c_o1_dos_executable() {
    let diags = check_delivery_files("prog", "MZ\u{0}\u{1}");
    assert_eq!(diags.len(), 1);
    assert_eq!(diags[0].message, "Binary files must not be delivered");
}

#[test]
fn c_o4_only_the_file_stem_is_checked() {
    assert!(check_snake_case("src/My_Dir/file_2.c", "").is_empty());
    let diags = check_snake_case("dir/File.c", "");
    assert_eq!(diags.len(), 1);
    assert_eq!(diags[0].line, 1);
    assert_eq!(diags[0].message, "Filename must be in snake_case");
}

#[test]
fn c_o1_only_the_file_name_is_matched() {
    assert!(check_delivery_files("backup~/main.c", "").is_empty());
    assert!(check_delivery_files("#old/util.h", "").is_empty());
}

#[test]
fn c_o2_reports_other_source_extensions() {
    let diags = check_extension("main.cpp");
    assert_eq!(diags.len(), 1);
    assert_eq!(diags[0].code, "C-O2");
    assert_eq!(diags[0].line, 1);
    assert_eq!(diags[0].message, "Source files must have the .c or .h extension");
    assert!(check_extension("main.c").is_empty());
    assert!(check_extension("main.h").is_empty());
    assert!(check_extension("Makefile").is_empty());
    let all = check("main.cpp", "int main(void)\n{\n    return 0;\n}\n");
    assert!(all.iter().any(|d| d.code == "C-O2"));
    assert!(!check("main.c", "int main(void)\n{\n    return 0;\n}\n").iter().any(|d| d.code == "C-O2"));
}

#[test]
fn c_o3_reads_the_storage_class_not_the_name() {
    let content: String = (0..6)
        .map(|i| format!("int get_static_{}(void)\n{{\n    return 0;\n}}\n\n", i))
        .collect();
    let diags = check_functions_count("test.c", &content);
    assert_eq!(diags.len(), 1);
    assert_eq!(diags[0].line, 26);
    assert_eq!(diags[0].message, "Too many non-static functions in the file");
}
