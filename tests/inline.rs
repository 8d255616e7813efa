use rust_pack::inline::{inline_module, InlineErrorKind, SourceTree};

fn tree(files: &[(&str, &str)]) -> SourceTree {
    let mut t = SourceTree::new();
    for (p, s) in files {
        t.add_file(p, s);
    }
    t
}

#[test]
fn file_without_declarations_is_unchanged() {
    let src = "use std::fmt;\n// mod x;\nfn main() {}\n\n";
    let t = tree(&[("/r/lib.rs", src)]);
    assert_eq!(inline_module(&t, "/r/lib.rs", 10).ok().unwrap(), src);
}

#[test]
fn missing_final_newline_is_added() {
    let t = tree(&[("/r/lib.rs", "fn main() {}")]);
    assert_eq!(inline_module(&t, "/r/lib.rs", 10).ok().unwrap(), "fn main() {}\n");
}

#[test]
fn two_level_tree() {
    let t = tree(&[
        ("/r/lib.rs", "use x;\nmod a;\nfn f() {}\n"),
        ("/r/a.rs", "pub fn g() {}\n"),
    ]);
    assert_eq!(
        inline_module(&t, "/r/lib.rs", 10).ok().unwrap(),
        "use x;\nmod a {\npub fn g() {}\n}\nfn f() {}\n"
    );
}

#[test]
fn same_level_file_wins_over_folder() {
    let t = tree(&[
        ("/r/lib.rs", "mod a;\n"),
        ("/r/a/mod.rs", "folder\n"),
        ("/r/a.rs", "same level\n"),
    ]);
    assert_eq!(inline_module(&t, "/r/lib.rs", 10).ok().unwrap(), "mod a {\nsame level\n}\n");
}

#[test]
fn folder_module_is_found() {
    let t = tree(&[("/r/lib.rs", "pub mod a;\n"), ("/r/a/mod.rs", "folder\n")]);
    assert_eq!(inline_module(&t, "/r/lib.rs", 10).ok().unwrap(), "pub mod a {\nfolder\n}\n");
}

#[test]
fn explicit_path_wins() {
    let t = tree(&[
        ("/r/lib.rs", "#[path = \"x.rs\"]\nmod y;\n"),
        ("/r/x.rs", "from x\n"),
        ("/r/y.rs", "from y\n"),
    ]);
    assert_eq!(
        inline_module(&t, "/r/lib.rs", 10).ok().unwrap(),
        "#[path = \"x.rs\"]\nmod y {\nfrom x\n}\n"
    );
}

#[test]
fn explicit_path_with_parent_steps() {
    let t = tree(&[
        ("/r/std/src/lib.rs", "#[path = \"../../other/x.rs\"]\nmod y;\n"),
        ("/r/other/x.rs", "far\n"),
    ]);
    assert_eq!(
        inline_module(&t, "/r/std/src/lib.rs", 10).ok().unwrap(),
        "#[path = \"../../other/x.rs\"]\nmod y {\nfar\n}\n"
    );
}

#[test]
fn path_override_is_dropped_by_other_lines() {
    let t = tree(&[
        ("/r/lib.rs", "#[path = \"x.rs\"]\nuse z;\nmod y;\n"),
        ("/r/x.rs", "from x\n"),
        ("/r/y.rs", "from y\n"),
    ]);
    assert_eq!(
        inline_module(&t, "/r/lib.rs", 10).ok().unwrap(),
        "#[path = \"x.rs\"]\nuse z;\nmod y {\nfrom y\n}\n"
    );
}

#[test]
fn zero_budget_copies_declarations() {
    let src = "mod a;\npub mod b;\nfn f() {}\n";
    let t = tree(&[("/r/lib.rs", src)]);
    assert_eq!(inline_module(&t, "/r/lib.rs", 0).ok().unwrap(), src);
}

#[test]
fn budget_bounds_expansions_of_the_root() {
    let t = tree(&[("/r/lib.rs", "mod a;\nmod b;\n"), ("/r/a.rs", "A\n")]);
    assert_eq!(inline_module(&t, "/r/lib.rs", 1).ok().unwrap(), "mod a {\nA\n}\nmod b;\n");
}

#[test]
fn children_get_a_fresh_budget() {
    let t = tree(&[
        ("/r/lib.rs", "mod a;\n"),
        ("/r/a.rs", "mod b;\nmod c;\n"),
        ("/r/a/b.rs", "B\n"),
        ("/r/a/c.rs", "C\n"),
    ]);
    assert_eq!(
        inline_module(&t, "/r/lib.rs", 1).ok().unwrap(),
        "mod a {\nmod b {\nB\n}\nmod c {\nC\n}\n}\n"
    );
}

#[test]
fn visibility_forms_are_kept() {
    let t = tree(&[
        ("/r/lib.rs", "pub(crate) mod a;\npub(self) mod b;\npub(super) mod c;\n"),
        ("/r/a.rs", "A\n"),
        ("/r/b.rs", "B\n"),
        ("/r/c.rs", "C\n"),
    ]);
    assert_eq!(
        inline_module(&t, "/r/lib.rs", 10).ok().unwrap(),
        "pub(crate) mod a {\nA\n}\npub(self) mod b {\nB\n}\npub(super) mod c {\nC\n}\n"
    );
}

#[test]
fn raw_identifier_is_unwrapped() {
    let t = tree(&[("/r/lib.rs", "mod r#try;\n"), ("/r/try.rs", "T\n")]);
    assert_eq!(inline_module(&t, "/r/lib.rs", 10).ok().unwrap(), "mod try {\nT\n}\n");
}

#[test]
fn trailing_comment_is_ignored_and_line_replaced() {
    let t = tree(&[("/r/lib.rs", "mod a; // the a module\n"), ("/r/a.rs", "A\n")]);
    assert_eq!(inline_module(&t, "/r/lib.rs", 10).ok().unwrap(), "mod a {\nA\n}\n");
}

#[test]
fn indented_declaration_without_comment_is_copied() {
    let src = "    mod a;\n";
    let t = tree(&[("/r/lib.rs", src)]);
    assert_eq!(inline_module(&t, "/r/lib.rs", 10).ok().unwrap(), src);
}

#[test]
fn multi_line_attribute_is_skipped() {
    let src = "#[doc(\nmod b;\n)]\nmod a;\n";
    let t = tree(&[("/r/lib.rs", src), ("/r/a.rs", "A\n")]);
    assert_eq!(
        inline_module(&t, "/r/lib.rs", 10).ok().unwrap(),
        "#[doc(\nmod b;\n)]\nmod a {\nA\n}\n"
    );
}

#[test]
fn crlf_line_endings_become_line_feeds() {
    let t = tree(&[("/r/lib.rs", "mod a;\r\nfn f() {}\r\n"), ("/r/a.rs", "A\r\n")]);
    assert_eq!(inline_module(&t, "/r/lib.rs", 10).ok().unwrap(), "mod a {\nA\n}\nfn f() {}\n");
}

#[test]
fn non_root_file_children_live_in_its_directory() {
    let t = tree(&[
        ("/r/main.rs", "mod a;\n"),
        ("/r/main/a.rs", "nested\n"),
        ("/r/a.rs", "wrong\n"),
    ]);
    assert_eq!(inline_module(&t, "/r/main.rs", 10).ok().unwrap(), "mod a {\nnested\n}\n");
}

#[test]
fn unresolved_module_reports_the_chain() {
    let t = tree(&[("/r/lib.rs", "mod a;\n"), ("/r/a.rs", "mod b;\n")]);
    let e = inline_module(&t, "/r/lib.rs", 10).err().unwrap();
    assert_eq!(e.kind, InlineErrorKind::UnresolvedModule);
    assert_eq!(e.module_stack, vec!["/r/a.rs".to_string(), "/r/lib.rs".to_string()]);
    assert_eq!(e.unresolved_module, "/r/a/b/mod.rs");
    assert_eq!(e.module_stack.last().unwrap(), "/r/lib.rs");
}

#[test]
fn unresolved_module_in_root() {
    let t = tree(&[("/r/lib.rs", "mod a;\n")]);
    let e = inline_module(&t, "/r/lib.rs", 10).err().unwrap();
    assert_eq!(e.kind, InlineErrorKind::UnresolvedModule);
    assert_eq!(e.module_stack, vec!["/r/lib.rs".to_string()]);
    assert_eq!(e.unresolved_module, "/r/a/mod.rs");
}

#[test]
fn unreadable_root() {
    let t = tree(&[]);
    let e = inline_module(&t, "/r/lib.rs", 10).err().unwrap();
    assert_eq!(e.kind, InlineErrorKind::Unreadable);
    assert!(e.module_stack.is_empty());
    assert_eq!(e.unresolved_module, "/r/lib.rs");
}

#[test]
fn unreadable_explicit_path() {
    let t = tree(&[("/r/lib.rs", "#[path = \"gone.rs\"]\nmod g;\n")]);
    let e = inline_module(&t, "/r/lib.rs", 10).err().unwrap();
    assert_eq!(e.kind, InlineErrorKind::Unreadable);
    assert_eq!(e.module_stack, vec!["/r/lib.rs".to_string()]);
    assert_eq!(e.unresolved_module, "/r/gone.rs");
}

#[test]
fn path_scoped_visibility_is_refused() {
    let t = tree(&[("/r/lib.rs", "pub(in crate::x) mod a;\n")]);
    let e = inline_module(&t, "/r/lib.rs", 10).err().unwrap();
    assert_eq!(e.kind, InlineErrorKind::UnsupportedVisibility);
    assert_eq!(e.module_stack, vec!["/r/lib.rs".to_string()]);
    assert_eq!(e.unresolved_module, "pub(in crate::x) mod a;");
}

#[test]
fn self_including_module_stops() {
    let t = tree(&[("/r/lib.rs", "#[path = \"lib.rs\"]\nmod me;\n")]);
    let e = inline_module(&t, "/r/lib.rs", 10).err().unwrap();
    assert_eq!(e.kind, InlineErrorKind::NestingTooDeep);
    assert_eq!(e.module_stack.last().unwrap(), "/r/lib.rs");
}

#[test]
fn relative_root_path() {
    let t = tree(&[("lib.rs", "mod a;\n"), ("a.rs", "A\n")]);
    assert_eq!(inline_module(&t, "lib.rs", 10).ok().unwrap(), "mod a {\nA\n}\n");
}

#[test]
fn tree_lookup() {
    let t = tree(&[("/r/lib.rs", "x\n")]);
    assert!(t.contains("/r/lib.rs"));
    assert!(!t.contains("/r/a.rs"));
}

#[test]
fn flattened_then_stripped() {
    let t = tree(&[("/r/lib.rs", "mod a;\n"), ("/r/a.rs", "pub fn g() -> u8 { 1 }\n")]);
    let flat = inline_module(&t, "/r/lib.rs", 10).ok().unwrap();
    assert_eq!(
        rust_pack::strip::remove_function_body(&flat),
        "mod a {\npub fn g() -> u8 { loop {} }\n}\n"
    );
}
