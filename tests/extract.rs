use include_doc::decl::{DeclKind, Declaration};
use include_doc::error::{ExtractError, Location};
use include_doc::extract::{doc_function_body, is_dependency, is_type_dependency};
use include_doc::my_function;
use include_doc::request::{check_usage, extract_from_source, function_body, source_file};
use include_doc::syntax::parse_file;
use include_doc::text::{hide_in_doc, include_always, indent_size, remove_indent};

fn names(v: &[&str]) -> Vec<String> {
    v.iter().map(|s| s.to_string()).collect()
}

fn named(kind: DeclKind, name: &str, text: &str) -> Declaration {
    Declaration {
        kind,
        name: Some(name.to_string()),
        text: text.to_string(),
        is_async: false,
        body: None,
        self_ty: None,
        trait_ty: None,
    }
}

#[test]
fn syntax_error() {
    let r = function_body("fn f() {}", "f", names(&["f"]));
    assert!(matches!(r, Err(ExtractError::Usage)));
    let r = source_file("fn main() {");
    assert!(matches!(r, Err(ExtractError::Syntax)));
    let e = ExtractError::Syntax;
    assert_eq!(e.message(), "Errors in source file");
    assert_eq!(e.location(), Location::PathLiteral);
    let e = ExtractError::FileRead { message: "No such file or directory (os error 2)".to_string() };
    assert_eq!(e.message(), "No such file or directory (os error 2)");
    assert_eq!(e.location(), Location::PathLiteral);
}

#[test]
fn whole_file_hides_imports_and_dedents_main() {
    let src = "use std::fmt;\n\nfn main() {\n    let x = 1;\n    println!(\"{x}\");\n}\n";
    let r = source_file(src).unwrap();
    assert_eq!(r, "#\n# use std::fmt;\n\nlet x = 1;\nprintln!(\"{x}\");\n");
}

#[test]
fn whole_file_without_main_fails() {
    let r = source_file("fn other() {}\n");
    match r {
        Err(ExtractError::FunctionNotFound { name }) => assert_eq!(name, "main"),
        _ => panic!("expected a missing target"),
    }
}

#[test]
fn missing_dependency_is_named() {
    let src = "struct A;\nfn target() { let _ = A; }\n";
    let r = function_body(src, "target", names(&["A", "B"]));
    match r {
        Err(e) => {
            assert_eq!(e.message(), "Not all dependencies were found: [B]");
            assert_eq!(e.location(), Location::CallSite);
            match e {
                ExtractError::DependencyNotFound { missing } => assert_eq!(missing, names(&["B"])),
                _ => panic!("wrong error"),
            }
        }
        Ok(_) => panic!("expected an error"),
    }
}

#[test]
fn missing_dependencies_are_sorted() {
    let src = "fn target() {}\n";
    let r = function_body(src, "target", names(&["Z", "A", "Z"]));
    match r {
        Err(e) => assert_eq!(e.message(), "Not all dependencies were found: [A, Z]"),
        Ok(_) => panic!("expected an error"),
    }
    let r = function_body(src, "target", names(&["ab", "B", "a"]));
    match r {
        Err(e) => assert_eq!(e.message(), "Not all dependencies were found: [B, a, ab]"),
        Ok(_) => panic!("expected an error"),
    }
}

#[test]
fn request_order_does_not_change_the_result() {
    let src = "struct A;\nstruct B;\nfn f() {\n    g();\n}\n";
    let one = function_body(src, "f", names(&["B", "A", "Q", "P"]));
    let two = function_body(src, "f", names(&["P", "A", "B", "Q", "A"]));
    assert_eq!(one.unwrap_err().message(), two.unwrap_err().message());
    let one = function_body(src, "f", names(&["B", "A"])).unwrap();
    let two = function_body(src, "f", names(&["A", "B", "A"])).unwrap();
    assert_eq!(one, two);
    assert_eq!(one, "struct A;\n\nstruct B;\n\ng();\n");
}

#[test]
fn only_the_enclosing_braces_are_stripped() {
    let r = function_body("fn foo() {{ a }}\n", "foo", vec![]).unwrap();
    assert_eq!(r, "{ a }\n");
}

#[test]
fn blank_lines_at_the_ends_are_dropped() {
    assert_eq!(remove_indent("        \n    a"), "a");
    assert_eq!(remove_indent("  \n    a\n      b\n \t \n"), "a\n  b");
}

#[test]
fn target_in_dependencies_is_a_usage_error() {
    let r = check_usage("foo", &names(&["foo"]));
    assert!(matches!(r, Err(ExtractError::Usage)));
    assert!(check_usage("foo", &names(&["bar"])).is_ok());
    let e = function_body("this is not rust", "foo", names(&["foo"])).unwrap_err();
    assert!(matches!(e, ExtractError::Usage));
    assert_eq!(e.message(), "Function body can't be in dependencies");
    assert_eq!(e.location(), Location::TargetIdent);
}

#[test]
fn impl_taken_in_through_its_self_type() {
    let src = "trait Tr {}\nstruct Ty;\nimpl Tr for Ty {}\nfn f() {\n    let _ = Ty;\n}\n";
    let r = function_body(src, "f", names(&["Ty"])).unwrap();
    assert_eq!(r, "struct Ty;\n\nimpl Tr for Ty {}\n\nlet _ = Ty;\n");
}

#[test]
fn impl_taken_in_through_its_trait() {
    let src = "trait Tr {}\nstruct Ty;\nimpl Tr for Ty {}\nfn f() {}\n";
    let r = function_body(src, "f", names(&["Tr"])).unwrap();
    assert_eq!(r, "trait Tr {}\n\nimpl Tr for Ty {}\n\n\n");
}

#[test]
fn async_body_is_kept_whole() {
    let src = "async fn foo() { bar().await }\n";
    let r = function_body(src, "foo", vec![]).unwrap();
    assert_eq!(r, "async { bar().await };\n");
}

#[test]
fn first_of_two_same_named_functions_wins() {
    let src = "fn foo() { a(); }\nfn foo() { b(); }\n";
    let r = function_body(src, "foo", vec![]).unwrap();
    assert_eq!(r, "a(); \n");
    let r = source_file("fn main() { a(); }\nfn main() { b(); }\n").unwrap();
    assert_eq!(r, "a(); \n");
}

#[test]
fn declarations_keep_file_order() {
    let src = "struct B;\nstruct A;\nstruct C;\nfn f() {\n    x();\n}\n";
    let r = function_body(src, "f", names(&["A", "B"])).unwrap();
    assert_eq!(r, "struct B;\n\nstruct A;\n\nx();\n");
}

#[test]
fn always_taken_declarations() {
    let src = "extern crate core;\nextern \"C\" {}\nthread_local! {}\nconst K: u8 = 1;\nfn f() {}\n";
    let r = function_body(src, "f", vec![]).unwrap();
    assert_eq!(r, "extern crate core;\n\nextern \"C\" {}\n\nthread_local! {}\n\n\n");
}

#[test]
fn whole_file_takes_every_named_declaration() {
    let src = "const K: u8 = 1;\nfn helper() {}\nfn main() {\n    helper();\n}\n";
    let r = source_file(src).unwrap();
    assert_eq!(r, "const K: u8 = 1;\n\nfn helper() {}\n\nhelper();\n");
}

#[test]
fn function_without_target_fails_with_its_name() {
    let r = extract_from_source("fn a() {}\n", "nope", &Some(vec![]));
    match r {
        Err(e) => {
            assert_eq!(e.message(), "nope not found");
            assert_eq!(e.location(), Location::TargetIdent);
        }
        Ok(_) => panic!("expected an error"),
    }
}

#[test]
fn dependency_check_comes_before_target_check() {
    let r = function_body("fn a() {}\n", "nope", names(&["X"]));
    assert!(matches!(r, Err(ExtractError::DependencyNotFound { .. })));
}

#[test]
fn remove_indent_strips_shared_indentation() {
    assert_eq!(remove_indent("    a\n      b\n"), "a\n  b");
    assert_eq!(remove_indent("\n\n\ta\n\tb\n\n"), "a\nb");
    assert_eq!(remove_indent("  a\n\n  b"), "a\n\nb");
    assert_eq!(remove_indent("  a\r\n  b"), "a\nb");
    assert_eq!(remove_indent(""), "");
}

#[test]
fn remove_indent_is_a_no_op_on_unindented_text() {
    assert_eq!(remove_indent("a\n  b\nc"), "a\n  b\nc");
}

#[test]
fn remove_indent_twice_is_once() {
    let once = remove_indent("\n    let a = 1;\n        nested();\n    done();\n");
    assert_eq!(once, "let a = 1;\n    nested();\ndone();");
    assert_eq!(remove_indent(&once), once);
}

#[test]
fn indent_size_counts_spaces_and_tabs() {
    assert_eq!(indent_size("  \tx"), Some(3));
    assert_eq!(indent_size("x"), Some(0));
    assert_eq!(indent_size("   "), None);
    assert_eq!(indent_size(""), None);
    assert_eq!(indent_size("\u{3000}"), None);
}

#[test]
fn hide_in_doc_marks_every_line() {
    assert_eq!(hide_in_doc("use a::b;"), "#\n# use a::b;\n");
    assert_eq!(hide_in_doc("use a::{\n    b,\n};"), "#\n# use a::{\n#     b,\n# };\n");
}

#[test]
fn include_always_adds_a_newline() {
    assert_eq!(include_always("struct S;"), "struct S;\n");
}

#[test]
fn is_dependency_records_requested_names() {
    let mut tracker = Vec::new();
    assert!(is_dependency(&"A".to_string(), &None, &mut tracker));
    assert!(tracker.is_empty());
    let deps = Some(names(&["A"]));
    assert!(is_dependency(&"A".to_string(), &deps, &mut tracker));
    assert_eq!(tracker, names(&["A"]));
    assert!(!is_dependency(&"B".to_string(), &deps, &mut tracker));
    assert_eq!(tracker, names(&["A"]));
}

#[test]
fn is_type_dependency_records_first_match() {
    let mut tracker = Vec::new();
    let ty = Some(names(&["Vec", "<", "A", ",", "B", ">"]));
    let deps = Some(names(&["A", "B"]));
    assert!(is_type_dependency(&ty, &deps, &mut tracker));
    assert_eq!(tracker, names(&["A"]));
    assert!(!is_type_dependency(&None, &deps, &mut tracker));
}

#[test]
fn engine_on_plain_declarations() {
    let mut f = named(DeclKind::Function, "go", "fn go() {\n    run();\n}");
    f.body = Some("{\n    run();\n}".to_string());
    let mut imp = named(DeclKind::Impl, "", "impl Shape for Circle {}");
    imp.name = None;
    imp.self_ty = Some(names(&["Circle"]));
    imp.trait_ty = Some(names(&["Shape"]));
    let decls = vec![
        named(DeclKind::Struct, "Circle", "struct Circle;"),
        named(DeclKind::Trait, "Shape", "trait Shape {}"),
        imp,
        f,
    ];
    let r = doc_function_body(&decls, "go", &Some(names(&["Circle"]))).unwrap();
    assert_eq!(r, "struct Circle;\n\nimpl Shape for Circle {}\n\nrun();\n");
    let r = doc_function_body(&decls, "go", &None).unwrap();
    assert_eq!(r, "struct Circle;\n\ntrait Shape {}\n\nimpl Shape for Circle {}\n\nrun();\n");
}

#[test]
fn parse_file_reads_kinds_names_and_types() {
    let src = "use a::b;\nasync fn f() {}\nimpl T for S<X> {}\nstruct S<X>(X);\n";
    let ds = parse_file(src).unwrap();
    assert_eq!(ds.len(), 4);
    assert_eq!(ds[0].kind, DeclKind::Import);
    assert_eq!(ds[0].text, "use a::b;");
    assert_eq!(ds[1].kind, DeclKind::Function);
    assert_eq!(ds[1].name.as_deref(), Some("f"));
    assert!(ds[1].is_async);
    assert_eq!(ds[1].body.as_deref(), Some("{}"));
    assert_eq!(ds[2].kind, DeclKind::Impl);
    assert_eq!(ds[2].self_ty, Some(names(&["S", "<", "X", ">"])));
    assert_eq!(ds[2].trait_ty, Some(names(&["T"])));
    assert_eq!(ds[3].kind, DeclKind::Struct);
    assert_eq!(ds[3].name.as_deref(), Some("S"));
    assert!(parse_file("struct").is_err());
}

#[test]
fn example_function_runs() {
    my_function();
}

#[test]
fn documented_example_takes_its_own_dependencies() {
    let src = "use include_doc_example::doc_with_tests::my_function;\n\nstruct MyFirstStruct;\nstruct MySecondStruct;\n\nfn setup_first_example(_: MyFirstStruct) {}\n\nfn setup_second_example(_: MySecondStruct) {}\n\npub fn my_first_example() {\n    setup_first_example(MyFirstStruct);\n    my_function();\n}\n\npub fn my_second_example() {\n    setup_second_example(MySecondStruct);\n    my_function();\n}\n";
    let r = function_body(src, "my_first_example", names(&["MyFirstStruct", "setup_first_example"])).unwrap();
    assert_eq!(
        r,
        "#\n# use include_doc_example::doc_with_tests::my_function;\n\nstruct MyFirstStruct;\n\nfn setup_first_example(_: MyFirstStruct) {}\n\nsetup_first_example(MyFirstStruct);\nmy_function();\n"
    );
}
