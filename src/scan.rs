//! Line-by-line recognition of out-of-line module declarations.
//!
//! This is a heuristic scanner, not a parser: it looks at one line at a time,
//! cuts it at the first `//` whether or not that sits in a string literal, and
//! matches fixed prefixes.
use vstd::prelude::*;
use crate::text::{
    has_prefix, has_suffix, remove_comment, remove_comment_exec, slice_of, starts_with,
    ends_with,
};

verus! {

/// What the scanner carries from one line to the next.
pub struct ScanModel {
    pub path_override: Option<Seq<char>>,
    pub in_attribute: bool,
}

pub struct DeclModel {
    pub visibility: Seq<char>,
    pub explicit_path: Option<Seq<char>>,
    pub name: Seq<char>,
}

pub enum LineModel {
    Plain,
    Declaration(DeclModel),
    Unsupported,
}

pub open spec fn idle() -> ScanModel {
    ScanModel { path_override: None, in_attribute: false }
}

pub open spec fn path_attr_open() -> Seq<char> {
    seq!['#', '[', 'p', 'a', 't', 'h', ' ', '=', ' ', '"']
}

pub open spec fn path_attr_close() -> Seq<char> {
    seq!['"', ']']
}

pub open spec fn attr_open() -> Seq<char> {
    seq!['#', '[']
}

pub open spec fn mod_keyword() -> Seq<char> {
    seq!['m', 'o', 'd', ' ']
}

pub open spec fn raw_prefix() -> Seq<char> {
    seq!['r', '#']
}

pub open spec fn path_scoped_form() -> Seq<char> {
    seq!['p', 'u', 'b', '(', 'i', 'n', ' ']
}

/// The visibility prefixes that a declaration may carry, in the order they are tried.
pub open spec fn visibility_form(k: int) -> Seq<char> {
    if k == 1 {
        seq!['p', 'u', 'b', ' ']
    } else if k == 2 {
        seq!['p', 'u', 'b', '(', 'c', 'r', 'a', 't', 'e', ')', ' ']
    } else if k == 3 {
        seq!['p', 'u', 'b', '(', 's', 'e', 'l', 'f', ')', ' ']
    } else if k == 4 {
        seq!['p', 'u', 'b', '(', 's', 'u', 'p', 'e', 'r', ')', ' ']
    } else {
        Seq::empty()
    }
}

pub open spec fn ends_with_char(l: Seq<char>, c: char) -> bool {
    l.len() > 0 && l.last() == c
}

/// `t` with a leading `r#` removed.
pub open spec fn clean_token(t: Seq<char>) -> Seq<char> {
    if has_prefix(t, raw_prefix()) {
        t.subrange(2, t.len() as int)
    } else {
        t
    }
}

/// The first visibility form from `k` on that, followed by `mod `, begins `body`.
pub open spec fn decl_form(body: Seq<char>, k: int) -> Option<int>
    decreases 5 - k,
{
    if k < 0 || k >= 5 {
        None
    } else if has_prefix(body, visibility_form(k) + mod_keyword()) {
        Some(k)
    } else {
        decl_form(body, k + 1)
    }
}

/// What a statement line (its `;` removed) declares, given a pending path override.
pub open spec fn classify(body: Seq<char>, path_override: Option<Seq<char>>) -> LineModel {
    match decl_form(body, 0) {
        Some(k) => LineModel::Declaration(
            DeclModel {
                visibility: visibility_form(k),
                explicit_path: path_override,
                name: clean_token(
                    body.subrange(visibility_form(k).len() + 4int, body.len() as int),
                ),
            },
        ),
        None => if has_prefix(body, path_scoped_form()) {
            LineModel::Unsupported
        } else {
            LineModel::Plain
        },
    }
}

/// The scanner's step on one raw line: the state after it, and what the line is.
pub open spec fn scan_line(st: ScanModel, line: Seq<char>) -> (ScanModel, LineModel) {
    let l = remove_comment(line);
    if l.len() == 0 {
        (st, LineModel::Plain)
    } else if has_prefix(l, path_attr_open()) && has_suffix(l, path_attr_close()) && l.len()
        >= 12 {
        (
            ScanModel { path_override: Some(l.subrange(10, l.len() - 2)), ..st },
            LineModel::Plain,
        )
    } else if has_prefix(l, attr_open()) {
        if ends_with_char(l, ']') {
            (st, LineModel::Plain)
        } else {
            (ScanModel { in_attribute: true, ..st }, LineModel::Plain)
        }
    } else if st.in_attribute {
        if ends_with_char(l, ']') {
            (ScanModel { in_attribute: false, ..st }, LineModel::Plain)
        } else {
            (st, LineModel::Plain)
        }
    } else if !ends_with_char(l, ';') {
        (idle(), LineModel::Plain)
    } else {
        (idle(), classify(l.drop_last(), st.path_override))
    }
}

/// The scanner's state between lines of one file.
pub struct ScanState {
    pub path_override: Option<Vec<char>>,
    pub in_attribute: bool,
}

/// A module declaration `<visibility>mod <name>;`.
pub struct ModDecl {
    pub visibility: Vec<char>,
    pub explicit_path: Option<Vec<char>>,
    pub name: Vec<char>,
}

pub enum LineKind {
    Plain,
    Declaration(ModDecl),
    Unsupported,
}

pub open spec fn opt_view(o: Option<Vec<char>>) -> Option<Seq<char>> {
    match o {
        Some(v) => Some(v@),
        None => None,
    }
}

impl View for ScanState {
    type V = ScanModel;

    open spec fn view(&self) -> ScanModel {
        ScanModel { path_override: opt_view(self.path_override), in_attribute: self.in_attribute }
    }
}

impl View for ModDecl {
    type V = DeclModel;

    open spec fn view(&self) -> DeclModel {
        DeclModel {
            visibility: self.visibility@,
            explicit_path: opt_view(self.explicit_path),
            name: self.name@,
        }
    }
}

impl View for LineKind {
    type V = LineModel;

    open spec fn view(&self) -> LineModel {
        match self {
            LineKind::Plain => LineModel::Plain,
            LineKind::Declaration(d) => LineModel::Declaration(d@),
            LineKind::Unsupported => LineModel::Unsupported,
        }
    }
}

impl ScanState {
    pub fn new() -> (r: ScanState)
        ensures
            r@ == idle(),
    {
        ScanState { path_override: None, in_attribute: false }
    }
}

fn path_attr_open_exec() -> (r: Vec<char>)
    ensures
        r@ == path_attr_open(),
{
    let r = vec!['#', '[', 'p', 'a', 't', 'h', ' ', '=', ' ', '"'];
    assert(r@ =~= path_attr_open());
    r
}

fn path_attr_close_exec() -> (r: Vec<char>)
    ensures
        r@ == path_attr_close(),
{
    let r = vec!['"', ']'];
    assert(r@ =~= path_attr_close());
    r
}

fn attr_open_exec() -> (r: Vec<char>)
    ensures
        r@ == attr_open(),
{
    let r = vec!['#', '['];
    assert(r@ =~= attr_open());
    r
}

fn path_scoped_form_exec() -> (r: Vec<char>)
    ensures
        r@ == path_scoped_form(),
{
    let r = vec!['p', 'u', 'b', '(', 'i', 'n', ' '];
    assert(r@ =~= path_scoped_form());
    r
}

/// The `k`-th visibility form followed by `mod `.
fn decl_prefix_exec(k: usize) -> (r: Vec<char>)
    requires
        k < 5,
    ensures
        r@ == visibility_form(k as int) + mod_keyword(),
{
    let r = if k == 0 {
        vec!['m', 'o', 'd', ' ']
    } else if k == 1 {
        vec!['p', 'u', 'b', ' ', 'm', 'o', 'd', ' ']
    } else if k == 2 {
        vec!['p', 'u', 'b', '(', 'c', 'r', 'a', 't', 'e', ')', ' ', 'm', 'o', 'd', ' ']
    } else if k == 3 {
        vec!['p', 'u', 'b', '(', 's', 'e', 'l', 'f', ')', ' ', 'm', 'o', 'd', ' ']
    } else {
        vec!['p', 'u', 'b', '(', 's', 'u', 'p', 'e', 'r', ')', ' ', 'm', 'o', 'd', ' ']
    };
    assert(r@ =~= visibility_form(k as int) + mod_keyword());
    r
}

/// Removes a leading `r#` from a raw identifier.
pub fn clean_token_exec(t: &Vec<char>) -> (r: Vec<char>)
    ensures
        r@ == clean_token(t@),
{
    if t.len() >= 2 && t[0] == 'r' && t[1] == '#' {
        assert(t@.subrange(0, 2) =~= raw_prefix());
        slice_of(t, 2, t.len())
    } else {
        proof {
            if has_prefix(t@, raw_prefix()) {
                assert(t@.subrange(0, 2)[0] == 'r');
                assert(t@.subrange(0, 2)[1] == '#');
            }
        }
        slice_of(t, 0, t.len())
    }
}

fn classify_exec(body: &Vec<char>, path_override: Option<Vec<char>>) -> (r: LineKind)
    ensures
        r@ == classify(body@, opt_view(path_override)),
{
    let mut k: usize = 0;
    while k < 5
        invariant
            k <= 5,
            decl_form(body@, k as int) == decl_form(body@, 0),
        decreases 5 - k,
    {
        let prefix = decl_prefix_exec(k);
        if starts_with(body, &prefix) {
            let vis_len = prefix.len() - 4;
            let visibility = slice_of(&prefix, 0, vis_len);
            let rest = slice_of(body, prefix.len(), body.len());
            let name = clean_token_exec(&rest);
            proof {
                assert(visibility@ =~= visibility_form(k as int));
            }
            return LineKind::Declaration(ModDecl { visibility, explicit_path: path_override, name });
        }
        k = k + 1;
    }
    if starts_with(body, &path_scoped_form_exec()) {
        LineKind::Unsupported
    } else {
        LineKind::Plain
    }
}

/// Advances the scanner over one raw line and tells what the line is.
pub fn is_external_mod(state: &mut ScanState, line: &Vec<char>) -> (r: LineKind)
    ensures
        (final(state)@, r@) == scan_line(old(state)@, line@),
{
    let l = remove_comment_exec(line);
    let len = l.len();
    if len == 0 {
        return LineKind::Plain;
    }
    if starts_with(&l, &path_attr_open_exec()) && ends_with(&l, &path_attr_close_exec()) && len
        >= 12 {
        state.path_override = Some(slice_of(&l, 10, len - 2));
        return LineKind::Plain;
    }
    if starts_with(&l, &attr_open_exec()) {
        if l[len - 1] != ']' {
            state.in_attribute = true;
        }
        return LineKind::Plain;
    }
    if state.in_attribute {
        if l[len - 1] == ']' {
            state.in_attribute = false;
        }
        return LineKind::Plain;
    }
    let pending = state.path_override.take();
    state.in_attribute = false;
    if l[len - 1] != ';' {
        return LineKind::Plain;
    }
    let body = slice_of(&l, 0, len - 1);
    proof {
        assert(body@ =~= l@.drop_last());
    }
    classify_exec(&body, pending)
}

} // verus!
