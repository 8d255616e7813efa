use rust_pack::tokens::{type_index, Range, SemanticTokenType, SemanticTokensBuilder};

fn range(line: u32, start: u32, end: u32) -> Range {
    Range { start_line_number: line, start_column: start, end_line_number: line, end_column: end }
}

#[test]
fn first_token_is_absolute() {
    let mut b = SemanticTokensBuilder::new();
    b.push(range(3, 5, 9), 7, 1);
    assert_eq!(b.build(), vec![2, 4, 4, 7, 1]);
}

#[test]
fn tokens_are_relative_to_the_previous_one() {
    let mut b = SemanticTokensBuilder::new();
    b.push(range(1, 1, 4), 2, 0);
    b.push(range(1, 6, 10), 13, 0);
    b.push(range(4, 3, 5), 16, 2);
    assert_eq!(
        b.build(),
        vec![0, 0, 3, 2, 0, 0, 5, 4, 13, 0, 3, 2, 2, 16, 2]
    );
}

#[test]
fn empty_builder() {
    assert!(SemanticTokensBuilder::new().build().is_empty());
}

#[test]
fn legend_positions() {
    assert_eq!(type_index(SemanticTokenType::Comment), 0);
    assert_eq!(type_index(SemanticTokenType::Function), 13);
    assert_eq!(type_index(SemanticTokenType::Unsupported), 20);
}
