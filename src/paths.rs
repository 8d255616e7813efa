//! Paths as character sequences with `/` separators, and where a child module's
//! file is looked for.
use vstd::prelude::*;
use crate::text::{has_prefix, has_suffix, slice_of, push_all, starts_with, ends_with};

verus! {

/// Index of the last `/` among the first `j` characters of `p`, or -1.
pub open spec fn last_slash(p: Seq<char>, j: int) -> int
    decreases j,
{
    if j <= 0 || j > p.len() {
        -1
    } else if p[j - 1] == '/' {
        j - 1
    } else {
        last_slash(p, j - 1)
    }
}

/// The directory part of `p`, as `Path::parent` gives it (empty for a bare name).
pub open spec fn parent(p: Seq<char>) -> Seq<char> {
    let k = last_slash(p, p.len() as int);
    if k < 0 {
        Seq::empty()
    } else if k == 0 {
        seq!['/']
    } else {
        p.subrange(0, k)
    }
}

/// The last component of `p`.
pub open spec fn file_name(p: Seq<char>) -> Seq<char> {
    p.subrange(last_slash(p, p.len() as int) + 1, p.len() as int)
}

pub open spec fn rs_extension() -> Seq<char> {
    seq!['.', 'r', 's']
}

pub open spec fn folder_module_file() -> Seq<char> {
    seq!['/', 'm', 'o', 'd', '.', 'r', 's']
}

pub open spec fn up_dir() -> Seq<char> {
    seq!['.', '.', '/']
}

/// The file name of `p` without its `.rs` extension.
pub open spec fn file_stem(p: Seq<char>) -> Seq<char> {
    let f = file_name(p);
    if has_suffix(f, rs_extension()) {
        f.subrange(0, f.len() - 3)
    } else {
        f
    }
}

/// `x` appended to `dir` as `Path::join` does it: an absolute `x` replaces `dir`.
pub open spec fn join(dir: Seq<char>, x: Seq<char>) -> Seq<char> {
    if x.len() > 0 && x[0] == '/' {
        x
    } else if dir.len() == 0 {
        x
    } else if dir.last() == '/' {
        dir + x
    } else {
        dir + seq!['/'] + x
    }
}

/// `dir` ends in a component that a leading `../` can cancel.
pub open spec fn can_pop(dir: Seq<char>) -> bool {
    let f = file_name(dir);
    f.len() > 0 && f != seq!['.', '.'] && f != seq!['.']
}

/// `rel` appended to `dir`, each leading `../` cancelling the last component of
/// `dir` while there is one to cancel.
pub open spec fn join_rel(dir: Seq<char>, rel: Seq<char>) -> Seq<char>
    decreases rel.len(),
{
    if has_prefix(rel, up_dir()) && can_pop(dir) {
        join_rel(parent(dir), rel.subrange(3, rel.len() as int))
    } else {
        join(dir, rel)
    }
}

/// The directory that holds the children of the module in file `p`: the file's own
/// directory for `lib.rs` and `mod.rs`, else a directory named after the file.
pub open spec fn child_dir(p: Seq<char>) -> Seq<char> {
    let s = file_stem(p);
    if s == seq!['l', 'i', 'b'] || s == seq!['m', 'o', 'd'] {
        parent(p)
    } else {
        join(parent(p), s)
    }
}

/// `<name>.rs` in the child directory of `p`.
pub open spec fn same_level_path(p: Seq<char>, name: Seq<char>) -> Seq<char> {
    join(child_dir(p), name + rs_extension())
}

/// `<name>/mod.rs` in the child directory of `p`.
pub open spec fn folder_path(p: Seq<char>, name: Seq<char>) -> Seq<char> {
    join(child_dir(p), name + folder_module_file())
}

fn find_last_slash(p: &Vec<char>) -> (r: Option<usize>)
    ensures
        match r {
            Some(k) => last_slash(p@, p@.len() as int) == k as int && k < p@.len(),
            None => last_slash(p@, p@.len() as int) == -1,
        },
{
    let mut j: usize = p.len();
    while j > 0
        invariant
            j <= p@.len(),
            last_slash(p@, j as int) == last_slash(p@, p@.len() as int),
        decreases j,
    {
        if p[j - 1] == '/' {
            return Some(j - 1);
        }
        j = j - 1;
    }
    None
}

pub fn parent_exec(p: &Vec<char>) -> (r: Vec<char>)
    ensures
        r@ == parent(p@),
{
    match find_last_slash(p) {
        None => Vec::new(),
        Some(k) => if k == 0 {
            let r = vec!['/'];
            assert(r@ =~= seq!['/']);
            r
        } else {
            slice_of(p, 0, k)
        },
    }
}

pub fn file_name_exec(p: &Vec<char>) -> (r: Vec<char>)
    ensures
        r@ == file_name(p@),
{
    let n = p.len();
    match find_last_slash(p) {
        None => slice_of(p, 0, n),
        Some(k) => slice_of(p, k + 1, n),
    }
}

fn rs_extension_exec() -> (r: Vec<char>)
    ensures
        r@ == rs_extension(),
{
    let r = vec!['.', 'r', 's'];
    assert(r@ =~= rs_extension());
    r
}

fn folder_module_file_exec() -> (r: Vec<char>)
    ensures
        r@ == folder_module_file(),
{
    let r = vec!['/', 'm', 'o', 'd', '.', 'r', 's'];
    assert(r@ =~= folder_module_file());
    r
}

fn up_dir_exec() -> (r: Vec<char>)
    ensures
        r@ == up_dir(),
{
    let r = vec!['.', '.', '/'];
    assert(r@ =~= up_dir());
    r
}

pub fn file_stem_exec(p: &Vec<char>) -> (r: Vec<char>)
    ensures
        r@ == file_stem(p@),
{
    let f = file_name_exec(p);
    if ends_with(&f, &rs_extension_exec()) {
        slice_of(&f, 0, f.len() - 3)
    } else {
        f
    }
}

fn concat(a: &Vec<char>, b: &Vec<char>) -> (r: Vec<char>)
    ensures
        r@ == a@ + b@,
{
    let mut r = slice_of(a, 0, a.len());
    assert(r@ =~= a@);
    push_all(&mut r, b);
    r
}

pub fn join_exec(dir: &Vec<char>, x: &Vec<char>) -> (r: Vec<char>)
    ensures
        r@ == join(dir@, x@),
{
    if x.len() > 0 && x[0] == '/' {
        slice_of(x, 0, x.len())
    } else if dir.len() == 0 {
        slice_of(x, 0, x.len())
    } else if dir[dir.len() - 1] == '/' {
        concat(dir, x)
    } else {
        let mut r = slice_of(dir, 0, dir.len());
        r.push('/');
        push_all(&mut r, x);
        assert(r@ =~= dir@ + seq!['/'] + x@);
        r
    }
}

fn seq_eq(a: &Vec<char>, b: &Vec<char>) -> (r: bool)
    ensures
        r == (a@ == b@),
{
    if a.len() != b.len() {
        return false;
    }
    let mut k: usize = 0;
    while k < a.len()
        invariant
            a@.len() == b@.len(),
            k <= a@.len(),
            forall|j: int| 0 <= j < k ==> a@[j] == b@[j],
        decreases a@.len() - k,
    {
        if a[k] != b[k] {
            return false;
        }
        k = k + 1;
    }
    assert(a@ =~= b@);
    true
}

fn can_pop_exec(dir: &Vec<char>) -> (r: bool)
    ensures
        r == can_pop(dir@),
{
    let f = file_name_exec(dir);
    let dots = vec!['.', '.'];
    let dot = vec!['.'];
    assert(dots@ =~= seq!['.', '.']);
    assert(dot@ =~= seq!['.']);
    f.len() > 0 && !seq_eq(&f, &dots) && !seq_eq(&f, &dot)
}

pub fn join_rel_exec(dir: &Vec<char>, rel: &Vec<char>) -> (r: Vec<char>)
    ensures
        r@ == join_rel(dir@, rel@),
{
    let up = up_dir_exec();
    let mut d = slice_of(dir, 0, dir.len());
    let mut x = slice_of(rel, 0, rel.len());
    assert(d@ =~= dir@);
    assert(x@ =~= rel@);
    while starts_with(&x, &up) && can_pop_exec(&d)
        invariant
            up@ == up_dir(),
            join_rel(d@, x@) == join_rel(dir@, rel@),
        decreases x@.len(),
    {
        d = parent_exec(&d);
        x = slice_of(&x, 3, x.len());
    }
    join_exec(&d, &x)
}

pub fn child_dir_exec(p: &Vec<char>) -> (r: Vec<char>)
    ensures
        r@ == child_dir(p@),
{
    let s = file_stem_exec(p);
    let lib = vec!['l', 'i', 'b'];
    let md = vec!['m', 'o', 'd'];
    assert(lib@ =~= seq!['l', 'i', 'b']);
    assert(md@ =~= seq!['m', 'o', 'd']);
    let dir = parent_exec(p);
    if seq_eq(&s, &lib) || seq_eq(&s, &md) {
        dir
    } else {
        join_exec(&dir, &s)
    }
}

pub fn same_level_path_exec(p: &Vec<char>, name: &Vec<char>) -> (r: Vec<char>)
    ensures
        r@ == same_level_path(p@, name@),
{
    let file = concat(name, &rs_extension_exec());
    join_exec(&child_dir_exec(p), &file)
}

pub fn folder_path_exec(p: &Vec<char>, name: &Vec<char>) -> (r: Vec<char>)
    ensures
        r@ == folder_path(p@, name@),
{
    let file = concat(name, &folder_module_file_exec());
    join_exec(&child_dir_exec(p), &file)
}

} // verus!
