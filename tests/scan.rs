use rust_pack::scan::{is_external_mod, LineKind, ScanState};

fn chars(s: &str) -> Vec<char> {
    s.chars().collect()
}

#[test]
fn scanner_reads_declaration_with_override() {
    let mut st = ScanState::new();
    assert!(matches!(is_external_mod(&mut st, &chars("#[path = \"x.rs\"]")), LineKind::Plain));
    match is_external_mod(&mut st, &chars("pub mod y;")) {
        LineKind::Declaration(d) => {
            assert_eq!(d.visibility, chars("pub "));
            assert_eq!(d.explicit_path, Some(chars("x.rs")));
            assert_eq!(d.name, chars("y"));
        }
        _ => panic!("expected a declaration"),
    }
    assert!(st.path_override.is_none());
}

#[test]
fn scanner_ignores_inline_modules() {
    let mut st = ScanState::new();
    assert!(matches!(is_external_mod(&mut st, &chars("mod a {")), LineKind::Plain));
    assert!(matches!(is_external_mod(&mut st, &chars("")), LineKind::Plain));
}

#[test]
fn scanner_flags_path_scoped_visibility() {
    let mut st = ScanState::new();
    assert!(matches!(is_external_mod(&mut st, &chars("pub(in super) mod a;")), LineKind::Unsupported));
}
