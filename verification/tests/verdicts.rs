use epitech_style_checker::rules::c_a::usage_verdict;
use epitech_style_checker::rules::c_g::{assembly_verdict, header_verdict, inclusion_verdict};
use epitech_style_checker::rules::c_l::spacing_verdict;
use epitech_style_checker::rules::c_o::{delivery_verdict, extension_verdict, snake_case_verdict};
use epitech_style_checker::rules::c_v::macro_name_verdict;
use epitech_style_checker::rules::check;

#[test]
fn header_verdict_reports_unless_the_pattern_matched() {
    assert!(header_verdict("a.c", Some(true)).is_empty());
    let diags = header_verdict("a.c", Some(false));
    assert_eq!(diags.len(), 1);
    assert_eq!(diags[0].code, "C-G1");
    assert_eq!(diags[0].line, 1);
    assert_eq!(header_verdict("a.c", None).len(), 1);
}

#[test]
fn inclusion_verdict_reports_a_captured_non_header() {
    let diags = inclusion_verdict("a.c", 3, Some(Some(b"util.c".to_vec())));
    assert_eq!(diags.len(), 1);
    assert_eq!(diags[0].line, 3);
    assert_eq!(diags[0].code, "C-G5");
    assert_eq!(diags[0].message, "Included file 'util.c' should be a header");
    assert!(inclusion_verdict("a.c", 3, Some(Some(b"util.h".to_vec()))).is_empty());
    assert!(inclusion_verdict("a.c", 3, Some(None)).is_empty());
    assert!(inclusion_verdict("a.c", 3, None).is_empty());
}

#[test]
fn assembly_verdict_reports_a_match() {
    let diags = assembly_verdict("a.c", 4, Some(true));
    assert_eq!(diags.len(), 1);
    assert_eq!(diags[0].line, 4);
    assert_eq!(diags[0].code, "C-G10");
    assert!(assembly_verdict("a.c", 4, Some(false)).is_empty());
    assert!(assembly_verdict("a.c", 4, None).is_empty());
}

#[test]
fn snake_case_verdict_reads_the_given_stem() {
    let diags = snake_case_verdict("src/my_file.c", Some("MyFile".to_string()));
    assert_eq!(diags.len(), 1);
    assert_eq!(diags[0].code, "C-O4");
    assert!(snake_case_verdict("src/MyFile.c", Some("my_file".to_string())).is_empty());
    assert!(snake_case_verdict("src/MyFile.c", None).is_empty());
}

#[test]
fn delivery_verdict_puts_binaries_first() {
    let diags = delivery_verdict("main.o", true, &vec![Some(true)]);
    assert_eq!(diags.len(), 1);
    assert_eq!(diags[0].message, "Binary files must not be delivered");
    let diags = delivery_verdict("main.o", false, &vec![None, Some(false), Some(true)]);
    assert_eq!(diags.len(), 1);
    assert_eq!(diags[0].message, "Unwanted file must not be delivered");
    assert!(delivery_verdict("main.c", false, &vec![None, Some(false)]).is_empty());
}

#[test]
fn extension_verdict_reads_the_given_extension() {
    let diags = extension_verdict("main.c", Some("hpp".to_string()));
    assert_eq!(diags.len(), 1);
    assert_eq!(diags[0].code, "C-O2");
    assert!(extension_verdict("main.cpp", Some("c".to_string())).is_empty());
    assert!(extension_verdict("main.cpp", None).is_empty());
}

#[test]
fn macro_name_verdict_reports_unless_the_pattern_matched() {
    let diags = macro_name_verdict("a.h", 2, b"MAX_val", Some(false));
    assert_eq!(diags.len(), 1);
    assert_eq!(diags[0].line, 2);
    assert_eq!(diags[0].message, "Macro name 'MAX_val' should be in UPPER_CASE");
    assert!(macro_name_verdict("a.h", 2, b"MAX", Some(true)).is_empty());
    assert!(macro_name_verdict("a.h", 2, b"", None).is_empty());
    assert_eq!(macro_name_verdict("a.h", 2, b"MAX", None).len(), 1);
}

#[test]
fn spacing_verdict_reports_a_match() {
    let diags = spacing_verdict("a.c", 5, Some(true));
    assert_eq!(diags.len(), 1);
    assert_eq!(diags[0].line, 5);
    assert_eq!(diags[0].code, "C-L3");
    assert!(spacing_verdict("a.c", 5, Some(false)).is_empty());
}

#[test]
fn usage_verdict_ignores_the_own_file() {
    let answers = vec![Some(true), Some(false), None];
    assert!(!usage_verdict(false, true, &answers, 0));
    assert!(usage_verdict(false, true, &answers, 1));
    assert!(usage_verdict(true, true, &answers, 0));
    assert!(usage_verdict(false, false, &answers, 0));
}

#[test]
fn every_line_lies_within_the_file() {
    let texts = [
        "int Foo(int *p,int b) {\n  int a, c;\n    goto x;\nx:\n    return a ? 1 : 1 ;\n}",
        "\n\n\nint x = 1;\n\n\n\n",
        "#include \"a.c\"\n#define max_v 3\nint f(void) { return 0; }\n",
        "int f(void)\n{\0\n    return 0;\n}\n",
        "",
    ];
    for text in texts.iter() {
        let pieces = text.split('\n').count();
        for d in check("dir/Bad_Name.c", text) {
            assert_eq!(d.file, "dir/Bad_Name.c");
            assert!(d.line >= 1 && d.line <= pieces, "{} on line {}", d.code, d.line);
        }
    }
}
