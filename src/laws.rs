//! Properties of flattening, stated over the specification of `inline_module`.
use vstd::prelude::*;
use crate::text::{lines, joined, split_prefix, trim_cr, has_prefix, comment_pos, remove_comment};
use crate::scan::{
    scan_line, idle, clean_token, decl_form, visibility_form, mod_keyword, raw_prefix,
    path_attr_open, path_attr_close, ScanModel, DeclModel, LineModel,
};
use crate::paths::{parent, join, join_rel, same_level_path, folder_path, file_stem, child_dir, rs_extension};
use crate::inline::{
    TreeModel, ErrorModel, InlineErrorKind, lookup, resolve, inline_file, inline_lines, prepend,
    block_open, block_close, MAX_DEPTH, CHILD_BUDGET,
};

verus! {

/// No line of `text` declares a module, whatever state the scanner is in.
pub open spec fn declares_no_module(text: Seq<char>) -> bool {
    forall|st: ScanModel, k: int|
        0 <= k < lines(text).len() ==> (#[trigger] scan_line(st, lines(text)[k])).1 is Plain
}

/// No line of `text` is a declaration with `pub(in ...)` visibility.
pub open spec fn has_no_unsupported_line(text: Seq<char>) -> bool {
    forall|st: ScanModel, k: int|
        0 <= k < lines(text).len() ==> !((#[trigger] scan_line(st, lines(text)[k])).1
            is Unsupported)
}

/// A line that is neither an attribute nor a declaration, and leaves an idle
/// scanner idle.
pub open spec fn inert(l: Seq<char>) -> bool {
    scan_line(idle(), l) == (idle(), LineModel::Plain)
}

/// The line `mod <name>;`.
pub open spec fn mod_line(name: Seq<char>) -> Seq<char> {
    mod_keyword() + name + seq![';']
}

/// The line `#[path = "<p>"]`.
pub open spec fn path_attr_line(p: Seq<char>) -> Seq<char> {
    path_attr_open() + p + path_attr_close()
}

proof fn lemma_joined_push(ls: Seq<Seq<char>>, x: Seq<char>)
    ensures
        joined(ls.push(x)) == joined(ls) + x + seq!['\n'],
    decreases ls.len(),
{
    if ls.len() == 0 {
        assert(ls.push(x).subrange(1, 1) =~= Seq::<Seq<char>>::empty());
        assert(joined(Seq::<Seq<char>>::empty()) == Seq::<char>::empty());
        assert(ls.push(x)[0] == x);
        assert(joined(ls.push(x)) == x + seq!['\n'] + joined(Seq::<Seq<char>>::empty()));
        assert(joined(ls.push(x)) =~= joined(ls) + x + seq!['\n']);
    } else {
        let tail = ls.subrange(1, ls.len() as int);
        lemma_joined_push(tail, x);
        assert(ls.push(x).subrange(1, ls.len() + 1int) =~= tail.push(x));
        assert(joined(ls.push(x)) =~= joined(ls) + x + seq!['\n']);
    }
}

proof fn lemma_split_prefix_rebuilds(s: Seq<char>, n: nat)
    requires
        n <= s.len(),
        forall|k: int| 0 <= k < s.len() ==> s[k] != '\r',
    ensures
        joined(split_prefix(s, n).0) + split_prefix(s, n).1 == s.subrange(0, n as int),
        forall|k: int|
            0 <= k < split_prefix(s, n).1.len() ==> split_prefix(s, n).1[k] != '\r',
        n > 0 && s[n - 1] == '\n' ==> split_prefix(s, n).1.len() == 0,
    decreases n,
{
    if n > 0 {
        lemma_split_prefix_rebuilds(s, (n - 1) as nat);
        let (ls, cur) = split_prefix(s, (n - 1) as nat);
        if s[n - 1] == '\n' {
            assert(trim_cr(cur) == cur);
            lemma_joined_push(ls, cur);
            assert(joined(ls.push(cur)) + Seq::<char>::empty() =~= s.subrange(0, n as int));
        } else {
            assert(joined(ls) + cur.push(s[n - 1]) =~= s.subrange(0, n as int));
        }
    } else {
        assert(joined(Seq::<Seq<char>>::empty()) + Seq::<char>::empty() =~= s.subrange(0, 0));
    }
}

/// A text that ends with a line feed (or is empty) and holds no carriage return
/// is the concatenation of its lines, each followed by a line feed.
pub proof fn lemma_joined_lines(s: Seq<char>)
    requires
        s.len() == 0 || s.last() == '\n',
        forall|k: int| 0 <= k < s.len() ==> s[k] != '\r',
    ensures
        joined(lines(s)) == s,
{
    lemma_split_prefix_rebuilds(s, s.len());
    assert(s.subrange(0, s.len() as int) =~= s);
    assert(joined(split_prefix(s, s.len()).0) + Seq::<char>::empty() =~= s);
}

proof fn lemma_prepend_prepend(a: Seq<char>, b: Seq<char>, r: Result<Seq<char>, ErrorModel>)
    ensures
        prepend(a, prepend(b, r)) == prepend(a + b, r),
{
    if let Ok(x) = r {
        assert(a + (b + x) =~= a + b + x);
    }
}

proof fn lemma_joined_step(ls: Seq<Seq<char>>, i: int, j: int)
    requires
        0 <= i < j <= ls.len(),
    ensures
        joined(ls.subrange(i, j)) == ls[i] + seq!['\n'] + joined(ls.subrange(i + 1, j)),
{
    assert(ls.subrange(i, j).subrange(1, j - i) =~= ls.subrange(i + 1, j));
}

/// Lines from `i` on that are plain in any state, or declarations when nothing is
/// left to expand, are copied as they stand.
proof fn lemma_lines_copied(
    t: TreeModel,
    path: Seq<char>,
    ls: Seq<Seq<char>>,
    i: int,
    st: ScanModel,
    depth: nat,
    budget: nat,
)
    requires
        0 <= i <= ls.len(),
        depth <= MAX_DEPTH,
        forall|s: ScanModel, k: int|
            i <= k < ls.len() ==> ((#[trigger] scan_line(s, ls[k])).1 is Plain || (budget == 0
                && scan_line(s, ls[k]).1 is Declaration)),
    ensures
        inline_lines(t, path, ls, i, st, depth, budget) == Ok::<Seq<char>, ErrorModel>(
            joined(ls.subrange(i, ls.len() as int)),
        ),
    decreases ls.len() - i,
{
    if i == ls.len() {
        assert(ls.subrange(i, i) =~= Seq::<Seq<char>>::empty());
    } else {
        let st2 = scan_line(st, ls[i]).0;
        lemma_lines_copied(t, path, ls, i + 1, st2, depth, budget);
        lemma_joined_step(ls, i, ls.len() as int);
        assert(ls[i] + seq!['\n'] + joined(ls.subrange(i + 1, ls.len() as int)) =~= ls[i] + (seq![
            '\n',
        ] + joined(ls.subrange(i + 1, ls.len() as int))));
    }
}

/// Flattening a file that declares no module gives its lines back unchanged, each
/// followed by a line feed; a text that already ends with a line feed and holds no
/// carriage return comes back as it is.
pub proof fn lemma_no_declaration_is_identity(
    t: TreeModel,
    path: Seq<char>,
    text: Seq<char>,
    budget: nat,
)
    requires
        lookup(t, path) == Some(text),
        declares_no_module(text),
    ensures
        inline_file(t, path, 0, budget) == Ok::<Seq<char>, ErrorModel>(joined(lines(text))),
        (text.len() == 0 || text.last() == '\n') && (forall|k: int|
            0 <= k < text.len() ==> text[k] != '\r') ==> inline_file(t, path, 0, budget) == Ok::<
            Seq<char>,
            ErrorModel,
        >(text),
{
    let ls = lines(text);
    assert forall|s: ScanModel, k: int| 0 <= k < ls.len() implies (#[trigger] scan_line(
        s,
        ls[k],
    )).1 is Plain by {}
    lemma_lines_copied(t, path, ls, 0, idle(), 0, budget);
    assert(ls.subrange(0, ls.len() as int) =~= ls);
    if (text.len() == 0 || text.last() == '\n') && (forall|k: int|
        0 <= k < text.len() ==> text[k] != '\r') {
        lemma_joined_lines(text);
    }
}

/// With an expansion budget of zero nothing is inlined: every line, module
/// declarations included, is copied as it stands.
pub proof fn lemma_zero_budget_copies_lines(t: TreeModel, path: Seq<char>, text: Seq<char>)
    requires
        lookup(t, path) == Some(text),
        has_no_unsupported_line(text),
    ensures
        inline_file(t, path, 0, 0) == Ok::<Seq<char>, ErrorModel>(joined(lines(text))),
{
    let ls = lines(text);
    assert forall|s: ScanModel, k: int| 0 <= k < ls.len() implies ((#[trigger] scan_line(
        s,
        ls[k],
    )).1 is Plain || scan_line(s, ls[k]).1 is Declaration) by {
        assert(!(scan_line(s, lines(text)[k]).1 is Unsupported));
    }
    lemma_lines_copied(t, path, ls, 0, idle(), 0, 0);
    assert(ls.subrange(0, ls.len() as int) =~= ls);
}

proof fn lemma_line_errors_name_file(
    t: TreeModel,
    path: Seq<char>,
    ls: Seq<Seq<char>>,
    i: int,
    st: ScanModel,
    depth: nat,
    budget: nat,
)
    ensures
        inline_lines(t, path, ls, i, st, depth, budget) matches Err(e) ==> e.module_stack.len()
            > 0 && e.module_stack.last() == path,
    decreases ls.len() - i,
{
    if 0 <= i < ls.len() && depth <= MAX_DEPTH {
        let (st2, kind) = scan_line(st, ls[i]);
        let next_budget: nat = if kind is Declaration && budget > 0 {
            (budget - 1) as nat
        } else {
            budget
        };
        lemma_line_errors_name_file(t, path, ls, i + 1, st2, depth, next_budget);
    }
}

/// Every error of flattening the tree at `root`, but for `root` itself being
/// unreadable, carries a module stack whose outermost entry is `root`. In
/// particular an unresolved module is always reported with that stack.
pub proof fn lemma_error_stack_ends_at_root(t: TreeModel, root: Seq<char>, budget: nat)
    ensures
        inline_file(t, root, 0, budget) matches Err(e) ==> (e.kind
            == InlineErrorKind::Unreadable && e.module_stack.len() == 0 && e.unresolved_module
            == root) || (e.module_stack.len() > 0 && e.module_stack.last() == root),
        inline_file(t, root, 0, budget) matches Err(e) ==> (e.kind
            == InlineErrorKind::UnresolvedModule ==> e.module_stack.len() > 0
            && e.module_stack.last() == root),
{
    if let Some(text) = lookup(t, root) {
        lemma_line_errors_name_file(t, root, lines(text), 0, idle(), 0, budget);
    }
}

/// Where both `<name>.rs` and `<name>/mod.rs` exist, the first is inlined.
pub proof fn lemma_same_level_file_wins(t: TreeModel, path: Seq<char>, d: DeclModel)
    requires
        d.explicit_path is None,
        lookup(t, same_level_path(path, d.name)) is Some,
        lookup(t, folder_path(path, d.name)) is Some,
    ensures
        resolve(t, path, d) == Some(same_level_path(path, d.name)),
{
}

/// The line `mod <name>;` read outside an attribute is a private declaration of
/// `name` that takes the pending path override, and leaves the scanner idle.
proof fn lemma_mod_line(st: ScanModel, name: Seq<char>)
    requires
        !st.in_attribute,
        comment_pos(mod_line(name), 0) is None,
    ensures
        scan_line(st, mod_line(name)) == (
            idle(),
            LineModel::Declaration(
                DeclModel {
                    visibility: Seq::empty(),
                    explicit_path: st.path_override,
                    name: clean_token(name),
                },
            ),
        ),
{
    let l = mod_line(name);
    assert(remove_comment(l) == l);
    assert(l[0] == 'm');
    assert(!has_prefix(l, path_attr_open())) by {
        if has_prefix(l, path_attr_open()) {
            assert(l.subrange(0, 10)[0] == '#');
        }
    }
    assert(!has_prefix(l, seq!['#', '['])) by {
        if has_prefix(l, seq!['#', '[']) {
            assert(l.subrange(0, 2)[0] == '#');
        }
    }
    assert(l.last() == ';');
    let body = l.drop_last();
    assert(body =~= mod_keyword() + name);
    assert(visibility_form(0) + mod_keyword() =~= mod_keyword());
    assert(body.subrange(0, 4) =~= mod_keyword());
    assert(decl_form(body, 0) == Some(0int));
    assert(body.subrange(visibility_form(0).len() + 4int, body.len() as int) =~= name);
}

/// `#[path = "<p>"]` followed by `mod <y>;` declares `y` with explicit path `p`, and
/// the declaration resolves to `p` taken from the declaring file's directory,
/// whatever files the tree holds.
pub proof fn lemma_explicit_path_wins(
    t: TreeModel,
    path: Seq<char>,
    st: ScanModel,
    p: Seq<char>,
    y: Seq<char>,
)
    requires
        !st.in_attribute,
        comment_pos(path_attr_line(p), 0) is None,
        comment_pos(mod_line(y), 0) is None,
    ensures
        ({
            let st1 = scan_line(st, path_attr_line(p)).0;
            let (st2, kind) = scan_line(st1, mod_line(y));
            &&& kind == LineModel::Declaration(
                DeclModel { visibility: Seq::empty(), explicit_path: Some(p), name: clean_token(y) },
            )
            &&& resolve(t, path, kind->Declaration_0) == Some(join_rel(parent(path), p))
        }),
{
    lemma_path_attr_line(st, p);
    lemma_mod_line(ScanModel { path_override: Some(p), ..st }, y);
}

/// The line `#[path = "<p>"]` records `p` as the pending path override.
proof fn lemma_path_attr_line(st: ScanModel, p: Seq<char>)
    requires
        comment_pos(path_attr_line(p), 0) is None,
    ensures
        scan_line(st, path_attr_line(p)) == (
            ScanModel { path_override: Some(p), ..st },
            LineModel::Plain,
        ),
{
    let l = path_attr_line(p);
    assert(remove_comment(l) == l);
    assert(l.subrange(0, 10) =~= path_attr_open());
    assert(l.subrange(l.len() - 2, l.len() as int) =~= path_attr_close());
    assert(l.subrange(10, l.len() - 2) =~= p);
}

/// Lines `i` up to `j` that are all inert are copied as they stand, and leave the
/// scanner idle.
proof fn lemma_inert_run(
    t: TreeModel,
    path: Seq<char>,
    ls: Seq<Seq<char>>,
    i: int,
    j: int,
    depth: nat,
    budget: nat,
)
    requires
        0 <= i <= j <= ls.len(),
        depth <= MAX_DEPTH,
        forall|k: int| i <= k < j ==> inert(#[trigger] ls[k]),
    ensures
        inline_lines(t, path, ls, i, idle(), depth, budget) == prepend(
            joined(ls.subrange(i, j)),
            inline_lines(t, path, ls, j, idle(), depth, budget),
        ),
    decreases j - i,
{
    if i == j {
        assert(ls.subrange(i, j) =~= Seq::<Seq<char>>::empty());
        lemma_prepend_prepend(Seq::empty(), Seq::empty(), inline_lines(t, path, ls, j, idle(), depth, budget));
        assert(Seq::<char>::empty() + Seq::<char>::empty() =~= Seq::<char>::empty());
        match inline_lines(t, path, ls, j, idle(), depth, budget) {
            Ok(x) => { assert(Seq::<char>::empty() + x =~= x); },
            Err(_) => {},
        }
    } else {
        assert(inert(ls[i]));
        lemma_inert_run(t, path, ls, i + 1, j, depth, budget);
        lemma_joined_step(ls, i, j);
        lemma_prepend_prepend(
            ls[i] + seq!['\n'],
            joined(ls.subrange(i + 1, j)),
            inline_lines(t, path, ls, j, idle(), depth, budget),
        );
    }
}

/// A root `lib.rs` or `mod.rs` whose lines are inert but for one `mod <name>;`,
/// beside a file `<name>.rs` that declares no module, flattens to the root's lines
/// with the declaration replaced by `mod <name> {`, the lines of `<name>.rs`, and `}`.
pub proof fn lemma_two_level_tree(
    t: TreeModel,
    root: Seq<char>,
    pre: Seq<Seq<char>>,
    name: Seq<char>,
    post: Seq<Seq<char>>,
    child_text: Seq<char>,
    budget: nat,
)
    requires
        file_stem(root) == seq!['l', 'i', 'b'] || file_stem(root) == seq!['m', 'o', 'd'],
        lookup(t, root) matches Some(text) && lines(text) == pre + seq![mod_line(name)] + post,
        comment_pos(mod_line(name), 0) is None,
        !has_prefix(name, raw_prefix()),
        forall|k: int| 0 <= k < pre.len() ==> inert(#[trigger] pre[k]),
        forall|k: int| 0 <= k < post.len() ==> inert(#[trigger] post[k]),
        lookup(t, join(parent(root), name + rs_extension())) == Some(child_text),
        declares_no_module(child_text),
        budget >= 1,
    ensures
        inline_file(t, root, 0, budget) == Ok::<Seq<char>, ErrorModel>(
            joined(pre) + (seq!['m', 'o', 'd', ' '] + name + seq![' ', '{', '\n']) + joined(
                lines(child_text),
            ) + seq!['}', '\n'] + joined(post),
        ),
{
    let text = lookup(t, root)->Some_0;
    let ls = lines(text);
    let m = pre.len() as int;
    let n = ls.len() as int;
    assert(ls[m] == mod_line(name));
    assert forall|k: int| 0 <= k < m implies inert(#[trigger] ls[k]) by {
        assert(ls[k] == pre[k]);
    }
    assert forall|k: int| m + 1 <= k < n implies inert(#[trigger] ls[k]) by {
        assert(ls[k] == post[k - m - 1]);
    }
    lemma_inert_run(t, root, ls, 0, m, 0, budget);
    assert(ls.subrange(0, m) =~= pre);
    lemma_mod_line(idle(), name);
    assert(clean_token(name) == name);
    let d = DeclModel { visibility: Seq::empty(), explicit_path: None, name };
    assert(child_dir(root) == parent(root));
    let child = same_level_path(root, name);
    assert(resolve(t, root, d) == Some(child));
    lemma_no_declaration_child(t, child, child_text);
    lemma_inert_run(t, root, ls, m + 1, n, 0, (budget - 1) as nat);
    assert(ls.subrange(m + 1, n) =~= post);
    assert(ls.subrange(n, n).len() == 0);
    let body = joined(lines(child_text));
    assert(block_open(d) =~= seq!['m', 'o', 'd', ' '] + name + seq![' ', '{', '\n']);
    assert(joined(post) + Seq::<char>::empty() =~= joined(post));
    assert(joined(pre) + (block_open(d) + body + block_close() + joined(post)) =~= joined(pre) + (
    seq!['m', 'o', 'd', ' '] + name + seq![' ', '{', '\n']) + body + seq!['}', '\n'] + joined(post));
}

proof fn lemma_no_declaration_child(t: TreeModel, child: Seq<char>, text: Seq<char>)
    requires
        lookup(t, child) == Some(text),
        declares_no_module(text),
    ensures
        inline_file(t, child, 1, CHILD_BUDGET as nat) == Ok::<Seq<char>, ErrorModel>(joined(lines(text))),
{
    let ls = lines(text);
    assert forall|s: ScanModel, k: int| 0 <= k < ls.len() implies (#[trigger] scan_line(
        s,
        ls[k],
    )).1 is Plain by {}
    lemma_lines_copied(t, child, ls, 0, idle(), 1, CHILD_BUDGET as nat);
    assert(ls.subrange(0, ls.len() as int) =~= ls);
}

} // verus!
