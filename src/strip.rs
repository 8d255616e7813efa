use vstd::prelude::*;
use crate::text::{is_ws, is_whitespace, occurs_at, occurs_at_exec, push_all, chars_of, string_of};

verus! {

pub open spec fn is_opener(c: char) -> bool {
    c == '(' || c == '[' || c == '{'
}

pub open spec fn is_closer(c: char) -> bool {
    c == ')' || c == ']' || c == '}'
}

/// Bracket depth after reading `c` at depth `d`; a closer at depth zero keeps it at zero.
pub open spec fn next_depth(d: nat, c: char) -> nat {
    if is_opener(c) {
        d + 1
    } else if is_closer(c) && d > 0 {
        (d - 1) as nat
    } else {
        d
    }
}

pub open spec fn fn_keyword() -> Seq<char> {
    seq!['f', 'n', ' ']
}

pub open spec fn comment_start() -> Seq<char> {
    seq!['/', '/']
}

/// The body that replaces every function body.
pub open spec fn stub_body() -> Seq<char> {
    seq!['{', ' ', 'l', 'o', 'o', 'p', ' ', '{', '}', ' ', '}']
}

/// Index of the first `{` at bracket depth zero from `i` on, reading from depth `d`;
/// the length of `s` when there is none.
pub open spec fn signature_end(s: Seq<char>, i: int, d: nat) -> int
    decreases s.len() - i,
{
    if i < 0 || i >= s.len() {
        s.len() as int
    } else if d == 0 && s[i] == '{' {
        i
    } else {
        signature_end(s, i + 1, next_depth(d, s[i]))
    }
}

/// Index just past the closer that brings the depth back to zero, reading from
/// depth `d` at `i`; the length of `s` when the input ends first.
pub open spec fn body_end(s: Seq<char>, i: int, d: nat) -> int
    decreases s.len() - i,
{
    if i < 0 || i >= s.len() {
        s.len() as int
    } else if is_closer(s[i]) && d <= 1 {
        i + 1
    } else {
        body_end(s, i + 1, next_depth(d, s[i]))
    }
}

/// Index of the first line feed from `i` on, or the length of `s`.
pub open spec fn line_end(s: Seq<char>, i: int) -> int
    decreases s.len() - i,
{
    if i < 0 || i >= s.len() {
        s.len() as int
    } else if s[i] == '\n' {
        i
    } else {
        line_end(s, i + 1)
    }
}

/// What stripping makes of `s` from position `i` on, where `boundary` tells whether
/// `i` is the start of the input or follows a whitespace character.
pub open spec fn strip_from(s: Seq<char>, i: int, boundary: bool) -> Seq<char>
    decreases s.len() - i, 1int,
{
    if i < 0 || i >= s.len() {
        Seq::empty()
    } else if boundary && occurs_at(s, i, fn_keyword()) {
        let j = signature_end(s, i + 3, 0);
        let k = body_end(s, j, 0);
        if j < i + 3 || k < j || k > s.len() {
            Seq::empty()
        } else {
            s.subrange(i, j) + stub_body() + strip_from(s, k, false)
        }
    } else if occurs_at(s, i, comment_start()) {
        let e = line_end(s, i);
        if e <= i || e > s.len() {
            Seq::empty()
        } else {
            s.subrange(i, e) + strip_from(s, e, false)
        }
    } else {
        seq![s[i]] + strip_from(s, i + 1, is_ws(s[i]))
    }
}

/// The text `s` with every function body replaced by the stub body.
pub open spec fn stripped(s: Seq<char>) -> Seq<char> {
    strip_from(s, 0, true)
}

proof fn lemma_signature_end_bounds(s: Seq<char>, i: int, d: nat)
    requires
        0 <= i <= s.len(),
    ensures
        i <= signature_end(s, i, d) <= s.len(),
    decreases s.len() - i,
{
    if i < s.len() && !(d == 0 && s[i] == '{') {
        lemma_signature_end_bounds(s, i + 1, next_depth(d, s[i]));
    }
}

proof fn lemma_body_end_bounds(s: Seq<char>, i: int, d: nat)
    requires
        0 <= i <= s.len(),
    ensures
        i <= body_end(s, i, d) <= s.len(),
        i < s.len() ==> i < body_end(s, i, d),
    decreases s.len() - i,
{
    if i < s.len() && !(is_closer(s[i]) && d <= 1) {
        lemma_body_end_bounds(s, i + 1, next_depth(d, s[i]));
    }
}

proof fn lemma_line_end_bounds(s: Seq<char>, i: int)
    requires
        0 <= i <= s.len(),
    ensures
        i <= line_end(s, i) <= s.len(),
        line_end(s, i) < s.len() ==> s[line_end(s, i)] == '\n',
    decreases s.len() - i,
{
    if i < s.len() && s[i] != '\n' {
        lemma_line_end_bounds(s, i + 1);
    }
}

fn fn_keyword_exec() -> (r: Vec<char>)
    ensures
        r@ == fn_keyword(),
{
    let r = vec!['f', 'n', ' '];
    assert(r@ =~= fn_keyword());
    r
}

fn comment_start_exec() -> (r: Vec<char>)
    ensures
        r@ == comment_start(),
{
    let r = vec!['/', '/'];
    assert(r@ =~= comment_start());
    r
}

fn stub_body_exec() -> (r: Vec<char>)
    ensures
        r@ == stub_body(),
{
    let r = vec!['{', ' ', 'l', 'o', 'o', 'p', ' ', '{', '}', ' ', '}'];
    assert(r@ =~= stub_body());
    r
}

fn step_depth(d: usize, c: char) -> (r: usize)
    requires
        d < usize::MAX,
    ensures
        r == next_depth(d as nat, c),
{
    if c == '(' || c == '[' || c == '{' {
        d + 1
    } else if (c == ')' || c == ']' || c == '}') && d > 0 {
        d - 1
    } else {
        d
    }
}

/// Copies the signature from `i` up to the first `{` at bracket depth zero onto
/// `output` and returns that brace's index (the input's length when there is none).
fn eat_until(input: &Vec<char>, i: usize, output: &mut Vec<char>) -> (r: usize)
    requires
        i <= input@.len(),
    ensures
        r == signature_end(input@, i as int, 0),
        i <= r <= input@.len(),
        final(output)@ == old(output)@ + input@.subrange(i as int, r as int),
{
    let mut k: usize = i;
    let mut d: usize = 0;
    proof {
        lemma_signature_end_bounds(input@, i as int, 0);
    }
    while k < input.len()
        invariant_except_break
            i <= k <= input@.len(),
            d <= k - i,
            signature_end(input@, k as int, d as nat) == signature_end(input@, i as int, 0),
            output@ == old(output)@ + input@.subrange(i as int, k as int),
        ensures
            i <= k <= input@.len(),
            k == signature_end(input@, i as int, 0),
            output@ == old(output)@ + input@.subrange(i as int, k as int),
        decreases input@.len() - k,
    {
        let c = input[k];
        if d == 0 && c == '{' {
            break;
        }
        d = step_depth(d, c);
        output.push(c);
        k = k + 1;
        assert(output@ =~= old(output)@ + input@.subrange(i as int, k as int));
    }
    k
}

/// Returns the index just past the body that opens at `i`.
fn skip_body(input: &Vec<char>, i: usize) -> (r: usize)
    requires
        i <= input@.len(),
    ensures
        r == body_end(input@, i as int, 0),
{
    let mut k: usize = i;
    let mut d: usize = 0;
    while k < input.len()
        invariant_except_break
            i <= k <= input@.len(),
            d <= k - i,
            body_end(input@, k as int, d as nat) == body_end(input@, i as int, 0),
        ensures
            k == body_end(input@, i as int, 0),
        decreases input@.len() - k,
    {
        let c = input[k];
        if (c == ')' || c == ']' || c == '}') && d <= 1 {
            k = k + 1;
            break;
        }
        d = step_depth(d, c);
        k = k + 1;
    }
    k
}

/// Returns the index of the first line feed from `i` on, or the input's length.
fn find_line_end(input: &Vec<char>, i: usize) -> (r: usize)
    requires
        i <= input@.len(),
    ensures
        r == line_end(input@, i as int),
{
    let mut k: usize = i;
    while k < input.len() && input[k] != '\n'
        invariant
            i <= k <= input@.len(),
            line_end(input@, k as int) == line_end(input@, i as int),
        decreases input@.len() - k,
    {
        k = k + 1;
    }
    k
}

/// Replaces the body of every function in `input` by the stub body.
pub fn strip_chars(input: &Vec<char>) -> (r: Vec<char>)
    ensures
        r@ == stripped(input@),
{
    let s = input;
    let kw = fn_keyword_exec();
    let cm = comment_start_exec();
    let stub = stub_body_exec();
    let mut output: Vec<char> = Vec::new();
    let mut i: usize = 0;
    let mut boundary = true;
    while i < s.len()
        invariant
            i <= s@.len(),
            kw@ == fn_keyword(),
            cm@ == comment_start(),
            stub@ == stub_body(),
            output@ + strip_from(s@, i as int, boundary) == stripped(s@),
        decreases s@.len() - i,
    {
        if boundary && occurs_at_exec(s, i, &kw) {
            let ghost before = output@;
            push_all(&mut output, &kw);
            let j = eat_until(s, i + 3, &mut output);
            proof {
                assert(output@ =~= before + s@.subrange(i as int, j as int));
            }
            push_all(&mut output, &stub);
            let k = skip_body(s, j);
            proof {
                lemma_body_end_bounds(s@, j as int, 0);
                assert(output@ + strip_from(s@, k as int, false) =~= before + (s@.subrange(
                    i as int,
                    j as int,
                ) + stub_body() + strip_from(s@, k as int, false)));
            }
            i = k;
            boundary = false;
        } else if occurs_at_exec(s, i, &cm) {
            let e = find_line_end(s, i);
            proof {
                assert(s@[i as int] == s@.subrange(i as int, i + 2)[0]);
                lemma_line_end_bounds(s@, i + 1);
            }
            let ghost before = output@;
            let mut k: usize = i;
            while k < e
                invariant
                    i <= k <= e <= s@.len(),
                    output@ == before + s@.subrange(i as int, k as int),
                decreases e - k,
            {
                output.push(s[k]);
                k = k + 1;
                assert(output@ =~= before + s@.subrange(i as int, k as int));
            }
            proof {
                assert(output@ + strip_from(s@, e as int, false) =~= before + (s@.subrange(
                    i as int,
                    e as int,
                ) + strip_from(s@, e as int, false)));
            }
            i = e;
            boundary = false;
        } else {
            let c = s[i];
            let ghost before = output@;
            output.push(c);
            proof {
                assert(output@ + strip_from(s@, i + 1, is_ws(c)) =~= before + (seq![c]
                    + strip_from(s@, i + 1, is_ws(c))));
            }
            boundary = is_whitespace(c);
            i = i + 1;
        }
    }
    assert(output@ =~= stripped(s@));
    output
}

/// Bracket depth where `signature_end` stops, reading from depth `d` at `i`.
pub open spec fn signature_depth(s: Seq<char>, i: int, d: nat) -> nat
    decreases s.len() - i,
{
    if i < 0 || i >= s.len() {
        d
    } else if d == 0 && s[i] == '{' {
        d
    } else {
        signature_depth(s, i + 1, next_depth(d, s[i]))
    }
}

/// Every function that stripping meets in `s` from `i` on has a signature that
/// either ends at a `{` or, running to the end of `s`, leaves no bracket open.
pub open spec fn signatures_closed_from(s: Seq<char>, i: int, boundary: bool) -> bool
    decreases s.len() - i,
{
    if i < 0 || i >= s.len() {
        true
    } else if boundary && occurs_at(s, i, fn_keyword()) {
        let j = signature_end(s, i + 3, 0);
        let k = body_end(s, j, 0);
        (j < s.len() || signature_depth(s, i + 3, 0) == 0) && (j < i + 3 || k < j || k > s.len()
            || signatures_closed_from(s, k, false))
    } else if occurs_at(s, i, comment_start()) {
        let e = line_end(s, i);
        e <= i || e > s.len() || signatures_closed_from(s, e, false)
    } else {
        signatures_closed_from(s, i + 1, is_ws(s[i]))
    }
}

/// No function signature in `s` runs to the end of the input with a bracket open.
pub open spec fn signatures_closed(s: Seq<char>) -> bool {
    signatures_closed_from(s, 0, true)
}

proof fn lemma_signature_depth_at_brace(s: Seq<char>, i: int, d: nat)
    requires
        0 <= i,
        signature_end(s, i, d) < s.len(),
    ensures
        signature_depth(s, i, d) == 0,
        s[signature_end(s, i, d)] == '{',
    decreases s.len() - i,
{
    if i < s.len() && !(d == 0 && s[i] == '{') {
        lemma_signature_depth_at_brace(s, i + 1, next_depth(d, s[i]));
    }
}

/// `signature_end` reads the same in `x` from `a` as in `s` from `i`, when the
/// signature's characters agree and `x` has a `{` where the signature stops.
proof fn lemma_signature_end_transfer(s: Seq<char>, i: int, d: nat, x: Seq<char>, a: int)
    requires
        0 <= i <= s.len(),
        0 <= a,
        a + (signature_end(s, i, d) - i) < x.len(),
        x.subrange(a, a + (signature_end(s, i, d) - i)) == s.subrange(i, signature_end(s, i, d)),
        x[a + (signature_end(s, i, d) - i)] == '{',
        signature_depth(s, i, d) == 0,
    ensures
        signature_end(x, a, d) == a + (signature_end(s, i, d) - i),
    decreases s.len() - i,
{
    lemma_signature_end_bounds(s, i, d);
    let j = signature_end(s, i, d);
    if i < s.len() && !(d == 0 && s[i] == '{') {
        lemma_signature_end_bounds(s, i + 1, next_depth(d, s[i]));
        assert(x[a] == x.subrange(a, a + (j - i))[0]);
        assert(s[i] == s.subrange(i, j)[0]);
        assert(x.subrange(a + 1, a + (j - i)) =~= x.subrange(a, a + (j - i)).subrange(1, j - i));
        assert(s.subrange(i + 1, j) =~= s.subrange(i, j).subrange(1, j - i));
        let nd = next_depth(d, s[i]);
        assert(signature_end(s, i, d) == signature_end(s, i + 1, nd));
        assert(signature_depth(s, i, d) == signature_depth(s, i + 1, nd));
        lemma_signature_end_transfer(s, i + 1, nd, x, a + 1);
        assert(signature_end(x, a, d) == signature_end(x, a + 1, nd));
    } else {
        assert(d == 0);
        assert(x[a] == '{');
        assert(signature_end(x, a, d) == a);
    }
}

/// `line_end` reads the same in `x` from `a` as in `s` from `i`, when the
/// characters up to the line's end agree and `x` ends its line at the same place.
proof fn lemma_line_end_transfer(s: Seq<char>, i: int, x: Seq<char>, a: int)
    requires
        0 <= i <= s.len(),
        0 <= a,
        a + (line_end(s, i) - i) <= x.len(),
        x.subrange(a, a + (line_end(s, i) - i)) == s.subrange(i, line_end(s, i)),
        line_end(s, i) < s.len() ==> a + (line_end(s, i) - i) < x.len() && x[a + (line_end(s, i)
            - i)] == '\n',
        line_end(s, i) == s.len() ==> a + (line_end(s, i) - i) == x.len(),
    ensures
        line_end(x, a) == a + (line_end(s, i) - i),
    decreases s.len() - i,
{
    lemma_line_end_bounds(s, i);
    let e = line_end(s, i);
    if e > i {
        assert(x[a] == x.subrange(a, a + (e - i))[0]);
        assert(x.subrange(a + 1, a + (e - i)) =~= x.subrange(a, a + (e - i)).subrange(1, e - i));
        assert(s.subrange(i + 1, e) =~= s.subrange(i, e).subrange(1, e - i));
        lemma_line_end_transfer(s, i + 1, x, a + 1);
    }
}

/// A stub body is skipped whole.
proof fn lemma_body_end_stub(x: Seq<char>, a: int)
    requires
        0 <= a,
        a + 11 <= x.len(),
        x.subrange(a, a + 11) == stub_body(),
    ensures
        body_end(x, a, 0) == a + 11,
{
    let b = stub_body();
    assert forall|t: int| 0 <= t < 11 implies x[a + t] == b[t] by {
        assert(x[a + t] == x.subrange(a, a + 11)[t]);
    }
    assert(body_end(x, a + 10, 1) == a + 11);
    assert(body_end(x, a + 9, 1) == a + 11);
    assert(body_end(x, a + 8, 2) == a + 11);
    assert(body_end(x, a + 7, 1) == a + 11);
    assert(body_end(x, a + 6, 1) == a + 11);
    assert(body_end(x, a + 5, 1) == a + 11);
    assert(body_end(x, a + 4, 1) == a + 11);
    assert(body_end(x, a + 3, 1) == a + 11);
    assert(body_end(x, a + 2, 1) == a + 11);
    assert(body_end(x, a + 1, 1) == a + 11);
    assert(body_end(x, a, 0) == a + 11);
}

/// Stripping from `k` on begins with the characters of `s` at `k` and `k + 1`.
proof fn lemma_strip_from_starts(s: Seq<char>, k: int, b: bool)
    requires
        0 <= k < s.len(),
    ensures
        strip_from(s, k, b).len() >= 1,
        strip_from(s, k, b)[0] == s[k],
        k + 1 < s.len() ==> strip_from(s, k, b).len() >= 2 && strip_from(s, k, b)[1] == s[k + 1],
        k + 1 == s.len() ==> strip_from(s, k, b) == seq![s[k]],
    decreases s.len() - k,
{
    if b && occurs_at(s, k, fn_keyword()) {
        lemma_signature_end_bounds(s, k + 3, 0);
        let j = signature_end(s, k + 3, 0);
        lemma_body_end_bounds(s, j, 0);
        assert(s.subrange(k, j)[0] == s[k]);
        assert(s.subrange(k, j)[1] == s[k + 1]);
    } else if occurs_at(s, k, comment_start()) {
        assert(s[k + 1] == s.subrange(k, k + 2)[1]);
        lemma_line_end_bounds(s, k + 2);
        assert(s[k] == s.subrange(k, k + 2)[0]);
        assert(line_end(s, k) == line_end(s, k + 1));
        assert(line_end(s, k + 1) == line_end(s, k + 2));
        let e = line_end(s, k);
        assert(s.subrange(k, e)[0] == s[k]);
        assert(s.subrange(k, e)[1] == s[k + 1]);
    } else {
        if k + 1 < s.len() {
            lemma_strip_from_starts(s, k + 1, is_ws(s[k]));
        } else {
            assert(strip_from(s, k + 1, is_ws(s[k])) == Seq::<char>::empty());
            assert(seq![s[k]] + Seq::<char>::empty() =~= seq![s[k]]);
        }
    }
}

/// Stripping `x` from `p`, where `x` from `p` on is what stripping made of `s` from
/// `i` on, changes nothing.
proof fn lemma_restrip(s: Seq<char>, i: int, b: bool, x: Seq<char>, p: int)
    requires
        0 <= i <= s.len(),
        0 <= p <= x.len(),
        x.subrange(p, x.len() as int) == strip_from(s, i, b),
        signatures_closed_from(s, i, b),
    ensures
        strip_from(x, p, b) == strip_from(s, i, b),
    decreases s.len() - i,
{
    let o = strip_from(s, i, b);
    if i == s.len() {
        assert(x.subrange(p, x.len() as int).len() == 0);
    } else if b && occurs_at(s, i, fn_keyword()) {
        lemma_signature_end_bounds(s, i + 3, 0);
        let j = signature_end(s, i + 3, 0);
        lemma_body_end_bounds(s, j, 0);
        let k = body_end(s, j, 0);
        let ok = strip_from(s, k, false);
        let jx = p + (j - i);
        assert(o == s.subrange(i, j) + stub_body() + ok);
        assert forall|t: int| 0 <= t < o.len() implies x[p + t] == o[t] by {
            assert(x[p + t] == x.subrange(p, x.len() as int)[t]);
        }
        assert(x.subrange(p, p + 3) =~= s.subrange(i, i + 3)) by {
            assert forall|t: int| 0 <= t < 3 implies #[trigger] x.subrange(p, p + 3)[t] == s.subrange(i, i + 3)[t] by {
                assert(o[t] == s.subrange(i, j)[t]);
            }
        }
        assert(occurs_at(x, p, fn_keyword()));
        assert(x.subrange(p + 3, jx) =~= s.subrange(i + 3, j)) by {
            assert forall|t: int| 0 <= t < j - i - 3 implies #[trigger] x.subrange(p + 3, jx)[t] == s.subrange(i + 3, j)[t] by {
                assert(o[t + 3] == s.subrange(i, j)[t + 3]);
            }
        }
        assert(x[jx] == '{') by {
            assert(o[j - i] == stub_body()[0]);
        }
        if j < s.len() {
            lemma_signature_depth_at_brace(s, i + 3, 0);
        }
        lemma_signature_end_transfer(s, i + 3, 0, x, p + 3);
        assert(signature_end(x, p + 3, 0) == jx);
        assert(x.subrange(jx, jx + 11) =~= stub_body()) by {
            assert forall|t: int| 0 <= t < 11 implies #[trigger] x.subrange(jx, jx + 11)[t] == stub_body()[t] by {
                assert(o[j - i + t] == stub_body()[t]);
            }
        }
        lemma_body_end_stub(x, jx);
        let kx = jx + 11;
        assert(x.subrange(kx, x.len() as int) =~= ok) by {
            assert(o.subrange(j - i + 11, o.len() as int) =~= ok);
            assert(x.subrange(kx, x.len() as int) =~= x.subrange(p, x.len() as int).subrange(j - i + 11, o.len() as int));
        }
        lemma_restrip(s, k, false, x, kx);
        assert(x.subrange(p, jx) =~= s.subrange(i, j)) by {
            assert forall|t: int| 0 <= t < j - i implies #[trigger] x.subrange(p, jx)[t] == s.subrange(i, j)[t] by {
                assert(o[t] == s.subrange(i, j)[t]);
            }
        }
    } else if occurs_at(s, i, comment_start()) {
        assert(s[i + 1] == s.subrange(i, i + 2)[1]);
        assert(s[i] == s.subrange(i, i + 2)[0]);
        lemma_line_end_bounds(s, i + 2);
        assert(line_end(s, i) == line_end(s, i + 1));
        assert(line_end(s, i + 1) == line_end(s, i + 2));
        let e = line_end(s, i);
        let oe = strip_from(s, e, false);
        let ex = p + (e - i);
        assert(o == s.subrange(i, e) + oe);
        assert forall|t: int| 0 <= t < o.len() implies x[p + t] == o[t] by {
            assert(x[p + t] == x.subrange(p, x.len() as int)[t]);
        }
        assert(x[p] == '/') by {
            assert(o[0] == s.subrange(i, e)[0]);
        }
        assert(x.subrange(p, p + 2) =~= s.subrange(i, i + 2)) by {
            assert(o[0] == s.subrange(i, e)[0]);
            assert(o[1] == s.subrange(i, e)[1]);
        }
        assert(!occurs_at(x, p, fn_keyword())) by {
            if occurs_at(x, p, fn_keyword()) {
                assert(x.subrange(p, p + 3)[0] == x[p]);
            }
        }
        assert(x.subrange(p, ex) =~= s.subrange(i, e)) by {
            assert forall|t: int| 0 <= t < e - i implies #[trigger] x.subrange(p, ex)[t] == s.subrange(i, e)[t] by {
                assert(o[t] == s.subrange(i, e)[t]);
            }
        }
        if e < s.len() {
            lemma_strip_from_starts(s, e, false);
            assert(o[e - i] == oe[0]);
            assert(x[ex] == o[e - i]);
        }
        lemma_line_end_transfer(s, i, x, p);
        assert(x.subrange(ex, x.len() as int) =~= oe) by {
            assert(o.subrange(e - i, o.len() as int) =~= oe);
            assert(x.subrange(ex, x.len() as int) =~= x.subrange(p, x.len() as int).subrange(e - i, o.len() as int));
        }
        lemma_restrip(s, e, false, x, ex);
    } else {
        let c = s[i];
        let o1 = strip_from(s, i + 1, is_ws(c));
        assert(o == seq![c] + o1);
        assert forall|t: int| 0 <= t < o.len() implies x[p + t] == o[t] by {
            assert(x[p + t] == x.subrange(p, x.len() as int)[t]);
        }
        if i + 1 < s.len() {
            lemma_strip_from_starts(s, i + 1, is_ws(c));
            assert(o[1] == s[i + 1]);
            if i + 2 < s.len() {
                assert(o[2] == o1[1]);
                assert(o[2] == s[i + 2]);
            } else {
                assert(o.len() == 2);
            }
        } else {
            assert(o.len() == 1);
        }
        assert(!(b && occurs_at(x, p, fn_keyword()))) by {
            if b && occurs_at(x, p, fn_keyword()) {
                assert(x.subrange(p, p + 3)[0] == x[p]);
                assert(x.subrange(p, p + 3)[1] == x[p + 1]);
                assert(x.subrange(p, p + 3)[2] == x[p + 2]);
                assert(s.subrange(i, i + 3) =~= fn_keyword());
            }
        }
        assert(!occurs_at(x, p, comment_start())) by {
            if occurs_at(x, p, comment_start()) {
                assert(x.subrange(p, p + 2)[0] == x[p]);
                assert(x.subrange(p, p + 2)[1] == x[p + 1]);
                assert(s.subrange(i, i + 2) =~= comment_start());
            }
        }
        assert(x[p] == x.subrange(p, x.len() as int)[0]);
        assert(x[p] == c);
        assert(x.subrange(p + 1, x.len() as int) =~= o1) by {
            assert(x.subrange(p + 1, x.len() as int) =~= x.subrange(p, x.len() as int).subrange(1, o.len() as int));
        }
        lemma_restrip(s, i + 1, is_ws(c), x, p + 1);
    }
}

/// Stripping a stripped text changes nothing, unless a function signature ran to
/// the end of the unstripped text with a bracket still open.
pub proof fn lemma_strip_idempotent(s: Seq<char>)
    requires
        signatures_closed(s),
    ensures
        stripped(stripped(s)) == stripped(s),
{
    let o = stripped(s);
    assert(o.subrange(0, o.len() as int) =~= o);
    lemma_restrip(s, 0, true, o, 0);
}

/// Replaces the body of every function in `input` by `{ loop {} }`, keeping each
/// signature as written. A function is recognised where `fn ` stands at the start of
/// the input or right after a whitespace character, outside a `//` line comment.
pub fn remove_function_body(input: &str) -> (r: String)
    ensures
        r@ == stripped(input@),
{
    let chars = chars_of(input);
    let out = strip_chars(&chars);
    string_of(&out)
}

} // verus!
