//! Documentation text made ready for the editor's markdown renderer: code lines
//! that rustdoc hides are dropped, and unlabelled code blocks become Rust blocks.
use vstd::prelude::*;
use crate::text::{
    lines, split_lines, trim, trim_exec, has_prefix, occurs_at, occurs_at_exec, starts_with,
    chars_of, string_of, push_all, copy_of,
};

verus! {

/// Markdown text for the editor.
pub struct MarkdownString {
    pub value: String,
}

pub open spec fn fence() -> Seq<char> {
    seq!['`', '`', '`']
}

pub open spec fn rust_word() -> Seq<char> {
    seq!['r', 'u', 's', 't']
}

pub open spec fn rust_fence() -> Seq<char> {
    fence() + rust_word()
}

pub open spec fn contains(s: Seq<char>, p: Seq<char>) -> bool {
    exists|i: int| occurs_at(s, i, p)
}

/// A code line that rustdoc hides: `#` alone, or `#` and a space or tab, once trimmed.
pub open spec fn hidden_code_line(line: Seq<char>) -> bool {
    let t = trim(line);
    t == seq!['#'] || has_prefix(t, seq!['#', ' ']) || has_prefix(t, seq!['#', '\t'])
}

/// The output lines for `ls` from `i` on, `in_code` telling whether a code block
/// is open.
pub open spec fn markdown_lines(ls: Seq<Seq<char>>, i: int, in_code: bool) -> Seq<Seq<char>>
    decreases ls.len() - i,
{
    if i < 0 || i >= ls.len() {
        Seq::empty()
    } else if in_code && hidden_code_line(ls[i]) {
        markdown_lines(ls, i + 1, in_code)
    } else {
        let l = ls[i];
        let opens = has_prefix(l, fence());
        let now_in_code = if opens {
            !in_code
        } else {
            in_code
        };
        let out = if now_in_code && opens && !contains(l, rust_word()) {
            rust_fence()
        } else {
            l
        };
        seq![out] + markdown_lines(ls, i + 1, now_in_code)
    }
}

/// The lines `ls` with a line feed between each two.
pub open spec fn joined_with_newlines(ls: Seq<Seq<char>>) -> Seq<char>
    decreases ls.len(),
{
    if ls.len() == 0 {
        Seq::empty()
    } else if ls.len() == 1 {
        ls[0]
    } else {
        joined_with_newlines(ls.drop_last()) + seq!['\n'] + ls.last()
    }
}

/// What `markdown_string` makes of the text `s`.
pub open spec fn markdown_text(s: Seq<char>) -> Seq<char> {
    joined_with_newlines(markdown_lines(lines(s), 0, false))
}

fn contains_exec(s: &Vec<char>, p: &Vec<char>) -> (r: bool)
    ensures
        r == contains(s@, p@),
{
    let mut i: usize = 0;
    while i < s.len()
        invariant
            i <= s@.len(),
            forall|j: int| 0 <= j < i ==> !occurs_at(s@, j, p@),
        decreases s@.len() - i,
    {
        if occurs_at_exec(s, i, p) {
            return true;
        }
        i = i + 1;
    }
    if occurs_at_exec(s, i, p) {
        return true;
    }
    assert forall|j: int| !occurs_at(s@, j, p@) by {
        if occurs_at(s@, j, p@) && j > s@.len() {
            assert(j + p@.len() <= s@.len());
        }
    }
    false
}

fn hidden_code_line_exec(line: &Vec<char>) -> (r: bool)
    ensures
        r == hidden_code_line(line@),
{
    let t = trim_exec(line);
    let hash_space = vec!['#', ' '];
    let hash_tab = vec!['#', '\t'];
    assert(hash_space@ =~= seq!['#', ' ']);
    assert(hash_tab@ =~= seq!['#', '\t']);
    let alone = t.len() == 1 && t[0] == '#';
    assert(alone == (t@ == seq!['#'])) by {
        if t@ == seq!['#'] {
            assert(t@[0] == '#');
        }
        if alone {
            assert(t@ =~= seq!['#']);
        }
    }
    alone || starts_with(&t, &hash_space) || starts_with(&t, &hash_tab)
}

/// Prepares documentation for the editor: in code blocks the lines that rustdoc
/// hides are dropped, and a block opened without a `rust` label is opened as
/// `` ```rust ``. The lines are joined with line feeds.
pub fn markdown_string(s: &str) -> (r: MarkdownString)
    ensures
        r.value@ == markdown_text(s@),
{
    let chars = chars_of(s);
    let ls = split_lines(&chars);
    let ghost all = lines(s@);
    let fence_v = vec!['`', '`', '`'];
    let rust_v = vec!['r', 'u', 's', 't'];
    let rust_fence_v = vec!['`', '`', '`', 'r', 'u', 's', 't'];
    assert(fence_v@ =~= fence());
    assert(rust_v@ =~= rust_word());
    assert(rust_fence_v@ =~= rust_fence());
    let mut out: Vec<Vec<char>> = Vec::new();
    let mut in_code = false;
    let mut i: usize = 0;
    while i < ls.len()
        invariant
            i <= ls@.len(),
            ls@.len() == all.len(),
            forall|k: int| 0 <= k < ls@.len() ==> (#[trigger] ls@[k])@ == all[k],
            fence_v@ == fence(),
            rust_v@ == rust_word(),
            rust_fence_v@ == rust_fence(),
            out@.map_values(|v: Vec<char>| v@) + markdown_lines(all, i as int, in_code)
                == markdown_lines(all, 0, false),
        decreases ls@.len() - i,
    {
        let line = &ls[i];
        if in_code && hidden_code_line_exec(line) {
            i = i + 1;
            continue;
        }
        let opens = starts_with(line, &fence_v);
        let ghost was = in_code;
        if opens {
            in_code = !in_code;
        }
        let o = if in_code && opens && !contains_exec(line, &rust_v) {
            copy_of(&rust_fence_v)
        } else {
            copy_of(line)
        };
        let ghost prev = out@.map_values(|v: Vec<char>| v@);
        out.push(o);
        proof {
            assert(out@.map_values(|v: Vec<char>| v@) =~= prev.push(o@));
            assert(markdown_lines(all, i as int, was) == seq![o@] + markdown_lines(all, i + 1, in_code));
            assert(prev.push(o@) + markdown_lines(all, i + 1, in_code) =~= prev + (seq![o@]
                + markdown_lines(all, i + 1, in_code)));
        }
        i = i + 1;
    }
    let ghost outs = out@.map_values(|v: Vec<char>| v@);
    assert(outs + markdown_lines(all, i as int, in_code) =~= outs);
    let mut value: Vec<char> = Vec::new();
    let mut k: usize = 0;
    while k < out.len()
        invariant
            k <= out@.len(),
            outs == out@.map_values(|v: Vec<char>| v@),
            value@ == joined_with_newlines(outs.subrange(0, k as int)),
        decreases out@.len() - k,
    {
        let ghost before = value@;
        if k > 0 {
            value.push('\n');
        }
        push_all(&mut value, &out[k]);
        proof {
            let pre = outs.subrange(0, k + 1);
            assert(pre.drop_last() =~= outs.subrange(0, k as int));
            assert(pre.last() == out@[k as int]@);
            if k == 0 {
                assert(value@ =~= joined_with_newlines(pre));
            } else {
                assert(value@ =~= joined_with_newlines(pre));
            }
        }
        k = k + 1;
    }
    assert(outs.subrange(0, out@.len() as int) =~= outs);
    MarkdownString { value: string_of(&value) }
}

} // verus!
