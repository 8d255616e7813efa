use rust_pack::markdown::markdown_string;

#[test]
fn plain_text_is_kept() {
    assert_eq!(markdown_string("Adds two numbers.\n\nReturns the sum.").value, "Adds two numbers.\n\nReturns the sum.");
}

#[test]
fn unlabelled_block_becomes_rust() {
    let doc = "Example:\n```\nlet x = 1;\n```";
    assert_eq!(markdown_string(doc).value, "Example:\n```rust\nlet x = 1;\n```");
}

#[test]
fn labelled_block_is_kept() {
    let doc = "```rust,ignore\nfoo();\n```\n```text\nplain\n```";
    assert_eq!(markdown_string(doc).value, "```rust,ignore\nfoo();\n```\n```rust\nplain\n```");
}

#[test]
fn hidden_lines_are_dropped_in_code_only() {
    let doc = "# Heading\n```\n# use std::fmt;\n#\nfmt();\n  #\tx\n```";
    assert_eq!(markdown_string(doc).value, "# Heading\n```rust\nfmt();\n```");
}

#[test]
fn empty_doc() {
    assert_eq!(markdown_string("").value, "");
}
