//! Flattening of a module tree: each out-of-line `mod` declaration is replaced by
//! a block holding the (already flattened) text of the file it refers to.
//!
//! The files are read from a [`SourceTree`], a snapshot of path and text pairs, so
//! that resolution and inlining are a function of their inputs.
use vstd::prelude::*;
use crate::text::{lines, chars_of, string_of, copy_of, push_all, split_lines};
use crate::scan::{
    scan_line, idle, DeclModel, LineModel, ScanModel, ScanState, LineKind, ModDecl,
    is_external_mod,
};
use crate::paths::{
    parent, join_rel, same_level_path, folder_path, parent_exec, join_rel_exec,
    same_level_path_exec, folder_path_exec,
};

verus! {

/// How deep modules may nest below the root file; deeper declarations fail, which
/// also ends the expansion of a module that includes itself.
pub const MAX_DEPTH: usize = 64;

/// The expansion budget that every module below the root file starts with.
pub const CHILD_BUDGET: u32 = 10000;

#[derive(Clone, Copy, Debug, PartialEq, Eq, Structural)]
pub enum InlineErrorKind {
    /// A file to inline is not in the tree.
    Unreadable,
    /// None of the candidate files of a declaration is in the tree.
    UnresolvedModule,
    /// A declaration with `pub(in ...)` visibility, which is not handled.
    UnsupportedVisibility,
    /// Modules nest deeper than `MAX_DEPTH`.
    NestingTooDeep,
}

pub struct ErrorModel {
    pub kind: InlineErrorKind,
    pub module_stack: Seq<Seq<char>>,
    pub unresolved_module: Seq<char>,
}

/// Why a tree could not be flattened. `module_stack` lists the files that were
/// being inlined, innermost first; `unresolved_module` names the file that was
/// looked for (the offending line for `UnsupportedVisibility`).
pub struct InlineError {
    pub kind: InlineErrorKind,
    pub module_stack: Vec<String>,
    pub unresolved_module: String,
}

impl View for InlineError {
    type V = ErrorModel;

    open spec fn view(&self) -> ErrorModel {
        ErrorModel {
            kind: self.kind,
            module_stack: self.module_stack@.map_values(|s: String| s@),
            unresolved_module: self.unresolved_module@,
        }
    }
}

struct Failure {
    kind: InlineErrorKind,
    stack: Vec<Vec<char>>,
    module: Vec<char>,
}

impl View for Failure {
    type V = ErrorModel;

    closed spec fn view(&self) -> ErrorModel {
        ErrorModel {
            kind: self.kind,
            module_stack: self.stack@.map_values(|s: Vec<char>| s@),
            unresolved_module: self.module@,
        }
    }
}

struct SourceFile {
    path: Vec<char>,
    text: Vec<char>,
}

/// A set of source files, each under its path.
pub struct SourceTree {
    files: Vec<SourceFile>,
}

pub type TreeModel = Seq<(Seq<char>, Seq<char>)>;

impl View for SourceTree {
    type V = TreeModel;

    closed spec fn view(&self) -> TreeModel {
        self.files@.map_values(|f: SourceFile| (f.path@, f.text@))
    }
}

/// The text of the first file in `t` from index `i` on whose path is `p`.
pub open spec fn lookup_from(t: TreeModel, p: Seq<char>, i: int) -> Option<Seq<char>>
    decreases t.len() - i,
{
    if i < 0 || i >= t.len() {
        None
    } else if t[i].0 == p {
        Some(t[i].1)
    } else {
        lookup_from(t, p, i + 1)
    }
}

/// The text of the file at path `p`, if the tree holds one.
pub open spec fn lookup(t: TreeModel, p: Seq<char>) -> Option<Seq<char>> {
    lookup_from(t, p, 0)
}

/// The file that declaration `d` in the file at `path` refers to: its explicit path
/// taken from the file's directory, else `<name>.rs`, else `<name>/mod.rs`.
pub open spec fn resolve(t: TreeModel, path: Seq<char>, d: DeclModel) -> Option<Seq<char>> {
    match d.explicit_path {
        Some(ep) => Some(join_rel(parent(path), ep)),
        None => if lookup(t, same_level_path(path, d.name)) is Some {
            Some(same_level_path(path, d.name))
        } else if lookup(t, folder_path(path, d.name)) is Some {
            Some(folder_path(path, d.name))
        } else {
            None
        },
    }
}

/// The first line of the block that replaces declaration `d`.
pub open spec fn block_open(d: DeclModel) -> Seq<char> {
    d.visibility + seq!['m', 'o', 'd', ' '] + d.name + seq![' ', '{', '\n']
}

pub open spec fn block_close() -> Seq<char> {
    seq!['}', '\n']
}

pub open spec fn prepend(o: Seq<char>, r: Result<Seq<char>, ErrorModel>) -> Result<
    Seq<char>,
    ErrorModel,
> {
    match r {
        Ok(x) => Ok(o + x),
        Err(e) => Err(e),
    }
}

pub open spec fn error_at(kind: InlineErrorKind, path: Seq<char>, module: Seq<char>) -> Result<
    Seq<char>,
    ErrorModel,
> {
    Err(ErrorModel { kind, module_stack: seq![path], unresolved_module: module })
}

/// The flattened text of the file at `path`, nested `depth` levels below the root,
/// with `budget` declarations left to expand.
pub open spec fn inline_file(t: TreeModel, path: Seq<char>, depth: nat, budget: nat) -> Result<
    Seq<char>,
    ErrorModel,
>
    decreases MAX_DEPTH - depth, 1int, 0int,
{
    if depth > MAX_DEPTH {
        error_at(InlineErrorKind::NestingTooDeep, path, path)
    } else {
        match lookup(t, path) {
            None => Err(
                ErrorModel {
                    kind: InlineErrorKind::Unreadable,
                    module_stack: Seq::empty(),
                    unresolved_module: path,
                },
            ),
            Some(text) => inline_lines(t, path, lines(text), 0, idle(), depth, budget),
        }
    }
}

/// The flattened text of lines `ls` of the file at `path` from line `i` on, the
/// scanner being in state `st`.
pub open spec fn inline_lines(
    t: TreeModel,
    path: Seq<char>,
    ls: Seq<Seq<char>>,
    i: int,
    st: ScanModel,
    depth: nat,
    budget: nat,
) -> Result<Seq<char>, ErrorModel>
    decreases MAX_DEPTH - depth, 0int, ls.len() - i,
{
    if i < 0 || i >= ls.len() || depth > MAX_DEPTH {
        Ok(Seq::empty())
    } else {
        let (st2, kind) = scan_line(st, ls[i]);
        match kind {
            LineModel::Plain => prepend(
                ls[i] + seq!['\n'],
                inline_lines(t, path, ls, i + 1, st2, depth, budget),
            ),
            LineModel::Unsupported => error_at(
                InlineErrorKind::UnsupportedVisibility,
                path,
                ls[i],
            ),
            LineModel::Declaration(d) => if budget == 0 {
                prepend(ls[i] + seq!['\n'], inline_lines(t, path, ls, i + 1, st2, depth, budget))
            } else {
                match resolve(t, path, d) {
                    None => error_at(
                        InlineErrorKind::UnresolvedModule,
                        path,
                        folder_path(path, d.name),
                    ),
                    Some(child) => if depth >= MAX_DEPTH {
                        error_at(InlineErrorKind::NestingTooDeep, path, child)
                    } else {
                        match inline_file(t, child, depth + 1, CHILD_BUDGET as nat) {
                            Err(e) => Err(
                                ErrorModel { module_stack: e.module_stack.push(path), ..e },
                            ),
                            Ok(body) => prepend(
                                block_open(d) + body + block_close(),
                                inline_lines(t, path, ls, i + 1, st2, depth, (budget - 1) as nat),
                            ),
                        }
                    },
                }
            },
        }
    }
}

pub open spec fn ok_value(r: Result<Seq<char>, ErrorModel>) -> Seq<char> {
    match r {
        Ok(x) => x,
        Err(_) => Seq::empty(),
    }
}

impl SourceTree {
    /// A tree with no files.
    pub fn new() -> (r: SourceTree)
        ensures
            r@ == Seq::<(Seq<char>, Seq<char>)>::empty(),
    {
        let r = SourceTree { files: Vec::new() };
        assert(r@ =~= Seq::<(Seq<char>, Seq<char>)>::empty());
        r
    }

    /// Adds the file `text` under `path`; an earlier file under the same path
    /// keeps precedence.
    pub fn add_file(&mut self, path: &str, text: &str)
        ensures
            final(self)@ == old(self)@.push((path@, text@)),
    {
        let f = SourceFile { path: chars_of(path), text: chars_of(text) };
        self.files.push(f);
        assert(self@ =~= old(self)@.push((path@, text@)));
    }

    /// Whether the tree holds a file at `path`.
    pub fn contains(&self, path: &str) -> (r: bool)
        ensures
            r == (lookup(self@, path@) is Some),
    {
        let p = chars_of(path);
        self.find(&p).is_some()
    }

    fn find(&self, p: &Vec<char>) -> (r: Option<usize>)
        ensures
            match r {
                Some(i) => i < self.files@.len() && lookup(self@, p@) == Some(
                    self.files@[i as int].text@,
                ),
                None => lookup(self@, p@) is None,
            },
    {
        let mut i: usize = 0;
        while i < self.files.len()
            invariant
                i <= self.files@.len(),
                lookup_from(self@, p@, i as int) == lookup(self@, p@),
            decreases self.files@.len() - i,
        {
            if vec_eq(&self.files[i].path, p) {
                return Some(i);
            }
            i = i + 1;
        }
        None
    }
}

fn vec_eq(a: &Vec<char>, b: &Vec<char>) -> (r: bool)
    ensures
        r == (a@ == b@),
{
    if a.len() != b.len() {
        return false;
    }
    let mut k: usize = 0;
    while k < a.len()
        invariant
            a@.len() == b@.len(),
            k <= a@.len(),
            forall|j: int| 0 <= j < k ==> a@[j] == b@[j],
        decreases a@.len() - k,
    {
        if a[k] != b[k] {
            return false;
        }
        k = k + 1;
    }
    assert(a@ =~= b@);
    true
}

/// The file that declaration `d` in the file at `path` refers to.
fn resolve_child(tree: &SourceTree, path: &Vec<char>, d: &ModDecl) -> (r: Option<Vec<char>>)
    ensures
        crate::scan::opt_view(r) == resolve(tree@, path@, d@),
{
    match &d.explicit_path {
        Some(ep) => Some(join_rel_exec(&parent_exec(path), ep)),
        None => {
            let same = same_level_path_exec(path, &d.name);
            if tree.find(&same).is_some() {
                return Some(same);
            }
            let folder = folder_path_exec(path, &d.name);
            if tree.find(&folder).is_some() {
                return Some(folder);
            }
            None
        },
    }
}

fn fail_at(kind: InlineErrorKind, path: &Vec<char>, module: Vec<char>) -> (r: Failure)
    ensures
        Err::<Seq<char>, ErrorModel>(r@) == error_at(kind, path@, module@),
{
    let mut stack: Vec<Vec<char>> = Vec::new();
    stack.push(copy_of(path));
    let r = Failure { kind, stack, module };
    assert(r@.module_stack =~= seq![path@]);
    r
}

/// Appends the flattened text of the file at `path` to `output`.
fn put_module_in_string(
    tree: &SourceTree,
    path: &Vec<char>,
    depth: usize,
    budget: u32,
    output: &mut Vec<char>,
) -> (r: Result<(), Failure>)
    requires
        depth <= MAX_DEPTH,
    ensures
        r is Ok ==> inline_file(tree@, path@, depth as nat, budget as nat) is Ok
            && final(output)@ == old(output)@ + ok_value(
            inline_file(tree@, path@, depth as nat, budget as nat),
        ),
        r matches Err(e) ==> inline_file(tree@, path@, depth as nat, budget as nat) == Err::<
            Seq<char>,
            ErrorModel,
        >(e@),
    decreases MAX_DEPTH - depth,
{
    let idx = match tree.find(path) {
        Some(i) => i,
        None => {
            let e = Failure { kind: InlineErrorKind::Unreadable, stack: Vec::new(), module: copy_of(path) };
            assert(e@.module_stack =~= Seq::<Seq<char>>::empty());
            return Err(e);
        },
    };
    let text = &tree.files[idx].text;
    let ls = split_lines(text);
    let ghost all = lines(text@);
    let mut st = ScanState::new();
    let mut b: u32 = budget;
    let mut i: usize = 0;
    let ghost acc: Seq<char> = Seq::empty();
    assert(inline_file(tree@, path@, depth as nat, budget as nat) == inline_lines(tree@, path@, all, 0, idle(), depth as nat, budget as nat));
    while i < ls.len()
        invariant
            depth <= MAX_DEPTH,
            i <= ls@.len(),
            ls@.len() == all.len(),
            forall|k: int| 0 <= k < ls@.len() ==> (#[trigger] ls@[k])@ == all[k],
            output@ == old(output)@ + acc,
            inline_file(tree@, path@, depth as nat, budget as nat) == prepend(
                acc,
                inline_lines(tree@, path@, all, i as int, st@, depth as nat, b as nat),
            ),
        decreases ls@.len() - i,
    {
        let line = &ls[i];
        let ghost st0 = st@;
        let kind = is_external_mod(&mut st, line);
        let ghost rest = inline_lines(tree@, path@, all, i + 1, st@, depth as nat, b as nat);
        match kind {
            LineKind::Plain => {
                push_all(output, line);
                output.push('\n');
                proof {
                    assert(prepend(acc, prepend(all[i as int] + seq!['\n'], rest)) == prepend(acc + (all[i as int] + seq!['\n']), rest)) by {
                        assert(acc + (all[i as int] + seq!['\n']) + ok_value(rest) =~= acc + (all[i as int] + seq!['\n'] + ok_value(rest)));
                    }
                    acc = acc + (all[i as int] + seq!['\n']);
                }
            },
            LineKind::Unsupported => {
                return Err(fail_at(InlineErrorKind::UnsupportedVisibility, path, copy_of(line)));
            },
            LineKind::Declaration(d) => {
                if b == 0 {
                    push_all(output, line);
                    output.push('\n');
                    proof {
                        assert(acc + (all[i as int] + seq!['\n']) + ok_value(rest) =~= acc + (all[i as int] + seq!['\n'] + ok_value(rest)));
                        acc = acc + (all[i as int] + seq!['\n']);
                    }
                } else {
                    let child = match resolve_child(tree, path, &d) {
                        Some(c) => c,
                        None => {
                            return Err(fail_at(InlineErrorKind::UnresolvedModule, path, folder_path_exec(path, &d.name)));
                        },
                    };
                    if depth >= MAX_DEPTH {
                        return Err(fail_at(InlineErrorKind::NestingTooDeep, path, child));
                    }
                    let ghost before = output@;
                    push_all(output, &d.visibility);
                    output.push('m');
                    output.push('o');
                    output.push('d');
                    output.push(' ');
                    push_all(output, &d.name);
                    output.push(' ');
                    output.push('{');
                    output.push('\n');
                    let ghost opened = output@;
                    assert(opened =~= before + block_open(d@));
                    match put_module_in_string(tree, &child, depth + 1, CHILD_BUDGET, output) {
                        Ok(()) => {},
                        Err(e) => {
                            let mut e = e;
                            let ghost old_stack = e@.module_stack;
                            e.stack.push(copy_of(path));
                            assert(e@.module_stack =~= old_stack.push(path@));
                            return Err(e);
                        },
                    }
                    output.push('}');
                    output.push('\n');
                    b = b - 1;
                    proof {
                        let body = ok_value(inline_file(tree@, child@, (depth + 1) as nat, CHILD_BUDGET as nat));
                        let rest2 = inline_lines(tree@, path@, all, i + 1, st@, depth as nat, b as nat);
                        assert(output@ =~= before + (block_open(d@) + body + block_close()));
                        assert(acc + (block_open(d@) + body + block_close()) + ok_value(rest2) =~= acc + (block_open(d@) + body + block_close() + ok_value(rest2)));
                        acc = acc + (block_open(d@) + body + block_close());
                    }
                }
            },
        }
        i = i + 1;
    }
    proof {
        assert(acc + Seq::<char>::empty() =~= acc);
    }
    Ok(())
}

fn to_inline_error(f: Failure) -> (r: InlineError)
    ensures
        r@ == f@,
{
    let mut module_stack: Vec<String> = Vec::new();
    let mut k: usize = 0;
    while k < f.stack.len()
        invariant
            k <= f.stack@.len(),
            module_stack@.len() == k,
            forall|j: int| 0 <= j < k ==> (#[trigger] module_stack@[j])@ == f.stack@[j]@,
        decreases f.stack@.len() - k,
    {
        module_stack.push(string_of(&f.stack[k]));
        k = k + 1;
    }
    let r = InlineError {
        kind: f.kind,
        module_stack,
        unresolved_module: string_of(&f.module),
    };
    assert(r@.module_stack =~= f@.module_stack);
    r
}

/// Flattens the module tree rooted at the file `root` of `tree`: each out-of-line
/// module declaration is replaced by a block with the flattened text of its file,
/// and every other line is copied with a line feed after it. `budget` bounds how
/// many declarations of the root file are expanded; the ones after it are copied
/// as they stand.
pub fn inline_module(tree: &SourceTree, root: &str, budget: u32) -> (r: Result<String, InlineError>)
    ensures
        match r {
            Ok(s) => inline_file(tree@, root@, 0, budget as nat) == Ok::<Seq<char>, ErrorModel>(s@),
            Err(e) => inline_file(tree@, root@, 0, budget as nat) == Err::<Seq<char>, ErrorModel>(e@),
        },
{
    let path = chars_of(root);
    let mut output: Vec<char> = Vec::new();
    match put_module_in_string(tree, &path, 0, budget, &mut output) {
        Ok(()) => {
            assert(output@ =~= ok_value(inline_file(tree@, root@, 0, budget as nat)));
            Ok(string_of(&output))
        },
        Err(f) => Err(to_inline_error(f)),
    }
}

} // verus!
