use rust_pack::strip::remove_function_body;

#[test]
fn strips_simple_body() {
    assert_eq!(
        remove_function_body("fn add(a: i32, b: i32) -> i32 { a + b }"),
        "fn add(a: i32, b: i32) -> i32 { loop {} }"
    );
}

#[test]
fn restripping_is_identity() {
    let once = remove_function_body("fn add(a: i32, b: i32) -> i32 { a + b }");
    assert_eq!(remove_function_body(&once), once);
}

#[test]
fn braces_in_parameter_types_are_kept() {
    assert_eq!(
        remove_function_body("fn f(x: [i32; { 1 + 1 }]) { body(); }"),
        "fn f(x: [i32; { 1 + 1 }]) { loop {} }"
    );
}

#[test]
fn nested_blocks_in_body_are_removed() {
    assert_eq!(
        remove_function_body("fn f() { if a { b() } else { c() } }\nstruct S;\n"),
        "fn f() { loop {} }\nstruct S;\n"
    );
}

#[test]
fn functions_in_comments_are_kept() {
    let src = "// fn f() { x }\nfn g() { y }\n";
    assert_eq!(remove_function_body(src), "// fn f() { x }\nfn g() { loop {} }\n");
}

#[test]
fn comment_at_end_without_newline() {
    assert_eq!(remove_function_body("x // fn f() { y }"), "x // fn f() { y }");
}

#[test]
fn fn_needs_a_whitespace_boundary() {
    assert_eq!(remove_function_body("afn f() { y }"), "afn f() { y }");
    assert_eq!(remove_function_body("pub fn f() { y }"), "pub fn f() { loop {} }");
}

#[test]
fn unterminated_body_is_consumed() {
    assert_eq!(remove_function_body("fn f() { y"), "fn f() { loop {} }");
    assert_eq!(remove_function_body("fn f()"), "fn f(){ loop {} }");
}

#[test]
fn methods_in_impl_blocks() {
    let src = "impl S {\n    fn a(&self) -> u8 { 1 }\n    fn b(&self) {}\n}\n";
    assert_eq!(
        remove_function_body(src),
        "impl S {\n    fn a(&self) -> u8 { loop {} }\n    fn b(&self) { loop {} }\n}\n"
    );
}

#[test]
fn empty_input() {
    assert_eq!(remove_function_body(""), "");
}

#[test]
fn restripping_an_open_signature_grows() {
    let once = remove_function_body("fn f(");
    assert_eq!(once, "fn f({ loop {} }");
    assert_eq!(remove_function_body(&once), "fn f({ loop {} }{ loop {} }");
}
