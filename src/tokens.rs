//! Semantic tokens in the editor's relative encoding: five numbers per token,
//! its line and start column each given relative to the token before it.
use vstd::prelude::*;

verus! {

/// A range in the editor's coordinates: lines and columns count from one.
#[derive(Clone, Copy, Debug, PartialEq, Eq, Structural)]
pub struct Range {
    pub start_line_number: u32,
    pub start_column: u32,
    pub end_line_number: u32,
    pub end_column: u32,
}

/// The token types, in the order of the legend the editor is given.
#[derive(Clone, Copy, Debug, PartialEq, Eq, Structural)]
pub enum SemanticTokenType {
    Comment,
    String,
    Keyword,
    Number,
    Regexp,
    Operator,
    Namespace,
    Type,
    Struct,
    Class,
    Interface,
    Enum,
    TypeParameter,
    Function,
    Member,
    Macro,
    Variable,
    Parameter,
    Property,
    Label,
    Unsupported,
}

/// The position of `ty` in the legend.
pub open spec fn legend_index(ty: SemanticTokenType) -> u32 {
    match ty {
        SemanticTokenType::Comment => 0,
        SemanticTokenType::String => 1,
        SemanticTokenType::Keyword => 2,
        SemanticTokenType::Number => 3,
        SemanticTokenType::Regexp => 4,
        SemanticTokenType::Operator => 5,
        SemanticTokenType::Namespace => 6,
        SemanticTokenType::Type => 7,
        SemanticTokenType::Struct => 8,
        SemanticTokenType::Class => 9,
        SemanticTokenType::Interface => 10,
        SemanticTokenType::Enum => 11,
        SemanticTokenType::TypeParameter => 12,
        SemanticTokenType::Function => 13,
        SemanticTokenType::Member => 14,
        SemanticTokenType::Macro => 15,
        SemanticTokenType::Variable => 16,
        SemanticTokenType::Parameter => 17,
        SemanticTokenType::Property => 18,
        SemanticTokenType::Label => 19,
        SemanticTokenType::Unsupported => 20,
    }
}

pub fn type_index(ty: SemanticTokenType) -> (r: u32)
    ensures
        r == legend_index(ty),
        r < 21,
{
    match ty {
        SemanticTokenType::Comment => 0,
        SemanticTokenType::String => 1,
        SemanticTokenType::Keyword => 2,
        SemanticTokenType::Number => 3,
        SemanticTokenType::Regexp => 4,
        SemanticTokenType::Operator => 5,
        SemanticTokenType::Namespace => 6,
        SemanticTokenType::Type => 7,
        SemanticTokenType::Struct => 8,
        SemanticTokenType::Class => 9,
        SemanticTokenType::Interface => 10,
        SemanticTokenType::Enum => 11,
        SemanticTokenType::TypeParameter => 12,
        SemanticTokenType::Function => 13,
        SemanticTokenType::Member => 14,
        SemanticTokenType::Macro => 15,
        SemanticTokenType::Variable => 16,
        SemanticTokenType::Parameter => 17,
        SemanticTokenType::Property => 18,
        SemanticTokenType::Label => 19,
        SemanticTokenType::Unsupported => 20,
    }
}

/// Accumulates tokens, pushed in document order, into the relative encoding.
pub struct SemanticTokensBuilder {
    prev_line: u32,
    prev_char: u32,
    data: Vec<u32>,
}

/// The five numbers that encode a token at zero-based `line` and `col`, of length
/// `len`, after a token at `prev_line` and `prev_char` (`first`: no token before).
pub open spec fn encoded(
    first: bool,
    prev_line: u32,
    prev_char: u32,
    line: u32,
    col: u32,
    len: u32,
    token_index: u32,
    modifier_bitset: u32,
) -> Seq<u32> {
    let dl = if first {
        line
    } else {
        (line - prev_line) as u32
    };
    let dc = if !first && dl == 0 {
        (col - prev_char) as u32
    } else {
        col
    };
    seq![dl, dc, len, token_index, modifier_bitset]
}

impl SemanticTokensBuilder {
    pub closed spec fn data_view(&self) -> Seq<u32> {
        self.data@
    }

    /// Zero-based line of the last token pushed.
    pub closed spec fn last_line(&self) -> u32 {
        self.prev_line
    }

    /// Zero-based start column of the last token pushed.
    pub closed spec fn last_char(&self) -> u32 {
        self.prev_char
    }

    pub fn new() -> (r: SemanticTokensBuilder)
        ensures
            r.data_view() == Seq::<u32>::empty(),
            r.last_line() == 0,
            r.last_char() == 0,
    {
        SemanticTokensBuilder { prev_line: 0, prev_char: 0, data: Vec::new() }
    }

    /// Pushes a token that covers `range` on one line, at or after the last token.
    pub fn push(&mut self, range: Range, token_index: u32, modifier_bitset: u32)
        requires
            range.start_line_number >= 1,
            range.start_column >= 1,
            range.end_column >= range.start_column,
            old(self).data_view().len() > 0 ==> range.start_line_number - 1 >= old(
                self,
            ).last_line(),
            old(self).data_view().len() > 0 && range.start_line_number - 1 == old(self).last_line()
                ==> range.start_column - 1 >= old(self).last_char(),
        ensures
            final(self).data_view() == old(self).data_view() + encoded(
                old(self).data_view().len() == 0,
                old(self).last_line(),
                old(self).last_char(),
                (range.start_line_number - 1) as u32,
                (range.start_column - 1) as u32,
                (range.end_column - range.start_column) as u32,
                token_index,
                modifier_bitset,
            ),
            final(self).last_line() == range.start_line_number - 1,
            final(self).last_char() == range.start_column - 1,
    {
        let mut push_line = range.start_line_number - 1;
        let mut push_char = range.start_column - 1;
        if self.data.len() > 0 {
            push_line = push_line - self.prev_line;
            if push_line == 0 {
                push_char = push_char - self.prev_char;
            }
        }
        // A token cannot span lines.
        let token_len = range.end_column - range.start_column;
        let ghost before = self.data@;
        self.data.push(push_line);
        self.data.push(push_char);
        self.data.push(token_len);
        self.data.push(token_index);
        self.data.push(modifier_bitset);
        self.prev_line = range.start_line_number - 1;
        self.prev_char = range.start_column - 1;
        assert(self.data@ =~= before + seq![push_line, push_char, token_len, token_index, modifier_bitset]);
    }

    /// The encoded tokens.
    pub fn build(self) -> (r: Vec<u32>)
        ensures
            r@ == self.data_view(),
    {
        self.data
    }
}

} // verus!
