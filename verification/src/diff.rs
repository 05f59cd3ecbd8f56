//! Line diffs for the diff widget: an exact longest-common-subsequence
//! diff over whole lines, with a linear positional fallback for inputs
//! too large for the quadratic table.

use vstd::prelude::*;
use crate::text::{append_str, chars_eq, chars_of, lines_of, owned, split_lines, string_from};

verus! {

/// How a diff line relates the two sides.
#[derive(Debug, Clone, Copy, PartialEq, Eq, Structural)]
pub enum DiffKind {
    /// Present in both.
    Context,
    /// Only in the new text.
    Add,
    /// Only in the old text.
    Removal,
}

/// One diff line: its kind and its text (without the newline).
#[derive(Debug, Clone)]
pub struct DiffLine {
    pub kind: DiffKind,
    pub text: String,
}

impl View for DiffLine {
    type V = (DiffKind, Seq<char>);

    open spec fn view(&self) -> (DiffKind, Seq<char>) {
        (self.kind, self.text@)
    }
}

/// Above this many lines on either side the diff is positional.
pub const MAX_DIFF_LINES: usize = 4_000;

// --- the specification ----------------------------------------------------

/// The length of a longest common subsequence of `a[i..]` and `b[j..]`.
pub open spec fn lcs(a: Seq<Seq<char>>, b: Seq<Seq<char>>, i: int, j: int) -> nat
    decreases a.len() - i + b.len() - j,
{
    if i < 0 || j < 0 || i >= a.len() || j >= b.len() {
        0
    } else if a[i] == b[j] {
        1 + lcs(a, b, i + 1, j + 1)
    } else {
        let x = lcs(a, b, i + 1, j);
        let y = lcs(a, b, i, j + 1);
        if x >= y { x } else { y }
    }
}

/// The diff of `a[i..]` against `b[j..]` read off the LCS table: a common
/// line is context; otherwise the old line is removed when that keeps at
/// least as long a common subsequence, else the new line is added.
pub open spec fn lcs_walk(a: Seq<Seq<char>>, b: Seq<Seq<char>>, i: int, j: int) -> Seq<(DiffKind, Seq<char>)>
    decreases a.len() - i + b.len() - j,
{
    if i < 0 || j < 0 || i > a.len() || j > b.len() {
        Seq::empty()
    } else if i < a.len() && j < b.len() {
        if a[i] == b[j] {
            seq![(DiffKind::Context, a[i])] + lcs_walk(a, b, i + 1, j + 1)
        } else if lcs(a, b, i + 1, j) >= lcs(a, b, i, j + 1) {
            seq![(DiffKind::Removal, a[i])] + lcs_walk(a, b, i + 1, j)
        } else {
            seq![(DiffKind::Add, b[j])] + lcs_walk(a, b, i, j + 1)
        }
    } else if i < a.len() {
        seq![(DiffKind::Removal, a[i])] + lcs_walk(a, b, i + 1, j)
    } else if j < b.len() {
        seq![(DiffKind::Add, b[j])] + lcs_walk(a, b, i, j + 1)
    } else {
        Seq::empty()
    }
}

/// The positional diff: equal lines at the same index are context, a
/// differing pair a removal then an addition, and the longer side's tail
/// all removals or all additions.
pub open spec fn positional(a: Seq<Seq<char>>, b: Seq<Seq<char>>) -> Seq<(DiffKind, Seq<char>)>
    decreases a.len() + b.len(),
{
    if a.len() > 0 && b.len() > 0 {
        (if a[0] == b[0] {
            seq![(DiffKind::Context, a[0])]
        } else {
            seq![(DiffKind::Removal, a[0]), (DiffKind::Add, b[0])]
        }) + positional(a.drop_first(), b.drop_first())
    } else if a.len() > 0 {
        seq![(DiffKind::Removal, a[0])] + positional(a.drop_first(), b)
    } else if b.len() > 0 {
        seq![(DiffKind::Add, b[0])] + positional(a, b.drop_first())
    } else {
        Seq::empty()
    }
}

/// The diff of two line sequences.
pub open spec fn line_diff(a: Seq<Seq<char>>, b: Seq<Seq<char>>) -> Seq<(DiffKind, Seq<char>)> {
    if a.len() > MAX_DIFF_LINES || b.len() > MAX_DIFF_LINES {
        positional(a, b)
    } else {
        lcs_walk(a, b, 0, 0)
    }
}

/// The diff of two texts, line by line.
pub open spec fn text_diff(old: Seq<char>, new: Seq<char>) -> Seq<(DiffKind, Seq<char>)> {
    line_diff(lines_of(old), lines_of(new))
}

/// The old side of a diff: its context and removed lines, in order.
pub open spec fn old_side(d: Seq<(DiffKind, Seq<char>)>) -> Seq<Seq<char>>
    decreases d.len(),
{
    if d.len() == 0 {
        Seq::empty()
    } else if d[0].0 == DiffKind::Add {
        old_side(d.drop_first())
    } else {
        seq![d[0].1] + old_side(d.drop_first())
    }
}

/// The new side of a diff: its context and added lines, in order.
pub open spec fn new_side(d: Seq<(DiffKind, Seq<char>)>) -> Seq<Seq<char>>
    decreases d.len(),
{
    if d.len() == 0 {
        Seq::empty()
    } else if d[0].0 == DiffKind::Removal {
        new_side(d.drop_first())
    } else {
        seq![d[0].1] + new_side(d.drop_first())
    }
}

/// The number of lines of kind `k` in `d`.
pub open spec fn count_kind(d: Seq<(DiffKind, Seq<char>)>, k: DiffKind) -> nat
    decreases d.len(),
{
    if d.len() == 0 {
        0
    } else {
        count_kind(d.drop_first(), k) + if d[0].0 == k { 1nat } else { 0 }
    }
}

// --- laws -----------------------------------------------------------------

proof fn lemma_sides_append(x: Seq<(DiffKind, Seq<char>)>, y: Seq<(DiffKind, Seq<char>)>)
    ensures
        old_side(x + y) == old_side(x) + old_side(y),
        new_side(x + y) == new_side(x) + new_side(y),
        count_kind(x + y, DiffKind::Context) == count_kind(x, DiffKind::Context) + count_kind(y, DiffKind::Context),
    decreases x.len(),
{
    if x.len() == 0 {
        assert(x + y =~= y);
    } else {
        assert((x + y).drop_first() =~= x.drop_first() + y);
        lemma_sides_append(x.drop_first(), y);
        assert(seq![x[0].1] + (old_side(x.drop_first()) + old_side(y)) =~= (seq![x[0].1] + old_side(x.drop_first())) + old_side(y));
        assert(seq![x[0].1] + (new_side(x.drop_first()) + new_side(y)) =~= (seq![x[0].1] + new_side(x.drop_first())) + new_side(y));
    }
}

proof fn lemma_sides_single(x: (DiffKind, Seq<char>))
    ensures
        old_side(seq![x]) == if x.0 == DiffKind::Add { Seq::<Seq<char>>::empty() } else { seq![x.1] },
        new_side(seq![x]) == if x.0 == DiffKind::Removal { Seq::<Seq<char>>::empty() } else { seq![x.1] },
        count_kind(seq![x], DiffKind::Context) == if x.0 == DiffKind::Context { 1nat } else { 0 },
{
    let e = Seq::<(DiffKind, Seq<char>)>::empty();
    assert(seq![x].drop_first() =~= e);
    assert(old_side(e) == Seq::<Seq<char>>::empty());
    assert(new_side(e) == Seq::<Seq<char>>::empty());
    assert(count_kind(e, DiffKind::Context) == 0);
    assert(seq![x.1] + Seq::<Seq<char>>::empty() =~= seq![x.1]);
}

proof fn lemma_lcs_bound(a: Seq<Seq<char>>, b: Seq<Seq<char>>, i: int, j: int)
    requires
        0 <= i <= a.len(),
        0 <= j <= b.len(),
    ensures
        lcs(a, b, i, j) <= a.len() - i,
        lcs(a, b, i, j) <= b.len() - j,
    decreases a.len() - i + b.len() - j,
{
    if i < a.len() && j < b.len() {
        if a[i] == b[j] {
            lemma_lcs_bound(a, b, i + 1, j + 1);
        } else {
            lemma_lcs_bound(a, b, i + 1, j);
            lemma_lcs_bound(a, b, i, j + 1);
        }
    }
}

/// Reading the LCS diff of `a[i..]` and `b[j..]` back gives the two
/// suffixes, and its context lines number exactly the LCS length.
pub proof fn lemma_lcs_walk_sides(a: Seq<Seq<char>>, b: Seq<Seq<char>>, i: int, j: int)
    requires
        0 <= i <= a.len(),
        0 <= j <= b.len(),
    ensures
        old_side(lcs_walk(a, b, i, j)) == a.skip(i),
        new_side(lcs_walk(a, b, i, j)) == b.skip(j),
        count_kind(lcs_walk(a, b, i, j), DiffKind::Context) == lcs(a, b, i, j),
    decreases a.len() - i + b.len() - j,
{
    let w = lcs_walk(a, b, i, j);
    if i < a.len() && j < b.len() {
        if a[i] == b[j] {
            lemma_lcs_walk_sides(a, b, i + 1, j + 1);
            let head = seq![(DiffKind::Context, a[i])];
            lemma_sides_append(head, lcs_walk(a, b, i + 1, j + 1));
            lemma_sides_single(head[0]);
            assert(head =~= seq![head[0]]);
            assert(seq![a[i]] + a.skip(i + 1) =~= a.skip(i));
            assert(seq![b[j]] + b.skip(j + 1) =~= b.skip(j));
        } else if lcs(a, b, i + 1, j) >= lcs(a, b, i, j + 1) {
            lemma_lcs_walk_sides(a, b, i + 1, j);
            let head = seq![(DiffKind::Removal, a[i])];
            lemma_sides_append(head, lcs_walk(a, b, i + 1, j));
            lemma_sides_single(head[0]);
            assert(head =~= seq![head[0]]);
            assert(seq![a[i]] + a.skip(i + 1) =~= a.skip(i));
            assert(Seq::<Seq<char>>::empty() + b.skip(j) =~= b.skip(j));
        } else {
            lemma_lcs_walk_sides(a, b, i, j + 1);
            let head = seq![(DiffKind::Add, b[j])];
            lemma_sides_append(head, lcs_walk(a, b, i, j + 1));
            lemma_sides_single(head[0]);
            assert(head =~= seq![head[0]]);
            assert(Seq::<Seq<char>>::empty() + a.skip(i) =~= a.skip(i));
            assert(seq![b[j]] + b.skip(j + 1) =~= b.skip(j));
        }
    } else if i < a.len() {
        lemma_lcs_walk_sides(a, b, i + 1, j);
        let head = seq![(DiffKind::Removal, a[i])];
        lemma_sides_append(head, lcs_walk(a, b, i + 1, j));
        lemma_sides_single(head[0]);
        assert(head =~= seq![head[0]]);
        assert(seq![a[i]] + a.skip(i + 1) =~= a.skip(i));
        assert(Seq::<Seq<char>>::empty() + b.skip(j) =~= b.skip(j));
    } else if j < b.len() {
        lemma_lcs_walk_sides(a, b, i, j + 1);
        let head = seq![(DiffKind::Add, b[j])];
        lemma_sides_append(head, lcs_walk(a, b, i, j + 1));
        lemma_sides_single(head[0]);
        assert(head =~= seq![head[0]]);
        assert(Seq::<Seq<char>>::empty() + a.skip(i) =~= a.skip(i));
        assert(seq![b[j]] + b.skip(j + 1) =~= b.skip(j));
    } else {
        assert(a.skip(i) =~= Seq::<Seq<char>>::empty());
        assert(b.skip(j) =~= Seq::<Seq<char>>::empty());
    }
}

/// Reading a positional diff back gives the two sides.
pub proof fn lemma_positional_sides(a: Seq<Seq<char>>, b: Seq<Seq<char>>)
    ensures
        old_side(positional(a, b)) == a,
        new_side(positional(a, b)) == b,
    decreases a.len() + b.len(),
{
    if a.len() > 0 && b.len() > 0 {
        lemma_positional_sides(a.drop_first(), b.drop_first());
        let head = if a[0] == b[0] {
            seq![(DiffKind::Context, a[0])]
        } else {
            seq![(DiffKind::Removal, a[0]), (DiffKind::Add, b[0])]
        };
        lemma_sides_append(head, positional(a.drop_first(), b.drop_first()));
        if a[0] == b[0] {
            lemma_sides_single(head[0]);
            assert(head =~= seq![head[0]]);
        } else {
            lemma_sides_single(head[0]);
            lemma_sides_single(head[1]);
            lemma_sides_append(seq![head[0]], seq![head[1]]);
            assert(head =~= seq![head[0]] + seq![head[1]]);
            assert(Seq::<Seq<char>>::empty() + seq![b[0]] =~= seq![b[0]]);
            assert(seq![a[0]] + Seq::<Seq<char>>::empty() =~= seq![a[0]]);
        }
        assert(seq![a[0]] + a.drop_first() =~= a);
        assert(seq![b[0]] + b.drop_first() =~= b);
    } else if a.len() > 0 {
        lemma_positional_sides(a.drop_first(), b);
        let head = seq![(DiffKind::Removal, a[0])];
        lemma_sides_append(head, positional(a.drop_first(), b));
        lemma_sides_single(head[0]);
        assert(head =~= seq![head[0]]);
        assert(seq![a[0]] + a.drop_first() =~= a);
        assert(Seq::<Seq<char>>::empty() + b =~= b);
    } else if b.len() > 0 {
        lemma_positional_sides(a, b.drop_first());
        let head = seq![(DiffKind::Add, b[0])];
        lemma_sides_append(head, positional(a, b.drop_first()));
        lemma_sides_single(head[0]);
        assert(head =~= seq![head[0]]);
        assert(seq![b[0]] + b.drop_first() =~= b);
        assert(Seq::<Seq<char>>::empty() + a =~= a);
    }
}

/// A diff never loses or invents a line: its context and removed lines
/// spell the old text's lines, its context and added lines the new
/// text's; and within the exact range its context lines are as many as a
/// longest common subsequence of lines.
pub proof fn law_diff_reconstructs_both_sides(old: Seq<char>, new: Seq<char>)
    ensures
        old_side(text_diff(old, new)) == lines_of(old),
        new_side(text_diff(old, new)) == lines_of(new),
        lines_of(old).len() <= MAX_DIFF_LINES && lines_of(new).len() <= MAX_DIFF_LINES ==>
            count_kind(text_diff(old, new), DiffKind::Context) == lcs(lines_of(old), lines_of(new), 0, 0),
{
    let a = lines_of(old);
    let b = lines_of(new);
    if a.len() > MAX_DIFF_LINES || b.len() > MAX_DIFF_LINES {
        lemma_positional_sides(a, b);
    } else {
        lemma_lcs_walk_sides(a, b, 0, 0);
        assert(a.skip(0) =~= a);
        assert(b.skip(0) =~= b);
    }
}

// --- execution --------------------------------------------------------------

/// The plain value of a list of lines.
pub open spec fn lines_view(v: Seq<Vec<char>>) -> Seq<Seq<char>> {
    v.map_values(|x: Vec<char>| x@)
}

/// The plain value of a list of diff lines.
pub open spec fn diff_view(v: Seq<DiffLine>) -> Seq<(DiffKind, Seq<char>)> {
    v.map_values(|d: DiffLine| d@)
}

fn push_line(out: &mut Vec<DiffLine>, kind: DiffKind, text: &Vec<char>)
    ensures
        diff_view(final(out)@) == diff_view(old(out)@).push((kind, text@)),
{
    let ghost before = diff_view(out@);
    out.push(DiffLine { kind, text: string_from(text.as_slice()) });
    assert(diff_view(out@) =~= before.push((kind, text@)));
}

/// Lines `a[i..]` against `b[j..]` diffed positionally, appended to `out`.
fn positional_into(out: &mut Vec<DiffLine>, a: &Vec<Vec<char>>, b: &Vec<Vec<char>>)
    ensures
        diff_view(final(out)@) == diff_view(old(out)@) + positional(lines_view(a@), lines_view(b@)),
{
    let ghost av = lines_view(a@);
    let ghost bv = lines_view(b@);
    let ghost start = diff_view(out@);
    let common = if a.len() < b.len() { a.len() } else { b.len() };
    let mut k: usize = 0;
    assert(av.skip(0) =~= av);
    assert(bv.skip(0) =~= bv);
    while k < common
        invariant
            k <= common,
            common <= a.len(),
            common <= b.len(),
            common == a.len() || common == b.len(),
            av == lines_view(a@),
            bv == lines_view(b@),
            diff_view(out@) + positional(av.skip(k as int), bv.skip(k as int)) == start + positional(av, bv),
        decreases common - k,
    {
        let ghost x = av.skip(k as int);
        let ghost y = bv.skip(k as int);
        assert(x[0] == a@[k as int]@);
        assert(y[0] == b@[k as int]@);
        assert(x.drop_first() =~= av.skip(k + 1));
        assert(y.drop_first() =~= bv.skip(k + 1));
        let ghost before = diff_view(out@);
        if chars_eq(a[k].as_slice(), b[k].as_slice()) {
            push_line(out, DiffKind::Context, &a[k]);
            assert(before.push((DiffKind::Context, x[0])) + positional(av.skip(k + 1), bv.skip(k + 1))
                =~= before + positional(x, y));
        } else {
            push_line(out, DiffKind::Removal, &a[k]);
            push_line(out, DiffKind::Add, &b[k]);
            assert(before.push((DiffKind::Removal, x[0])).push((DiffKind::Add, y[0])) + positional(av.skip(k + 1), bv.skip(k + 1))
                =~= before + positional(x, y));
        }
        k += 1;
    }
    let mut i: usize = common;
    while i < a.len()
        invariant
            common <= i <= a.len(),
            common <= b.len(),
            common == a.len() || common == b.len(),
            av == lines_view(a@),
            bv == lines_view(b@),
            i > common ==> common == b.len(),
            diff_view(out@) + positional(av.skip(i as int), bv.skip(common as int)) == start + positional(av, bv),
        decreases a.len() - i,
    {
        let ghost x = av.skip(i as int);
        let ghost y = bv.skip(common as int);
        assert(y.len() == 0);
        assert(x[0] == a@[i as int]@);
        assert(x.drop_first() =~= av.skip(i + 1));
        let ghost before = diff_view(out@);
        push_line(out, DiffKind::Removal, &a[i]);
        assert(before.push((DiffKind::Removal, x[0])) + positional(av.skip(i + 1), y) =~= before + positional(x, y));
        i += 1;
    }
    let mut j: usize = common;
    while j < b.len()
        invariant
            common <= j <= b.len(),
            common <= a.len(),
            common == a.len() || common == b.len(),
            av == lines_view(a@),
            bv == lines_view(b@),
            diff_view(out@) + positional(av.skip(a.len() as int), bv.skip(j as int)) == start + positional(av, bv),
        decreases b.len() - j,
    {
        let ghost x = av.skip(a.len() as int);
        let ghost y = bv.skip(j as int);
        assert(x.len() == 0);
        assert(y[0] == b@[j as int]@);
        assert(y.drop_first() =~= bv.skip(j + 1));
        let ghost before = diff_view(out@);
        push_line(out, DiffKind::Add, &b[j]);
        assert(before.push((DiffKind::Add, y[0])) + positional(x, bv.skip(j + 1)) =~= before + positional(x, y));
        j += 1;
    }
    assert(av.skip(a.len() as int) =~= Seq::<Seq<char>>::empty());
    assert(bv.skip(b.len() as int) =~= Seq::<Seq<char>>::empty());
    assert(diff_view(out@) + Seq::<(DiffKind, Seq<char>)>::empty() =~= diff_view(out@));
}

/// The positional diff of two line lists: linear and allocation-bounded.
pub fn positional_diff(old_lines: &[&str], new_lines: &[&str]) -> (r: Vec<DiffLine>)
    ensures
        diff_view(r@) == positional(old_lines@.map_values(|l: &str| l@), new_lines@.map_values(|l: &str| l@)),
{
    let a = str_lines(old_lines);
    let b = str_lines(new_lines);
    let mut out: Vec<DiffLine> = Vec::new();
    assert(diff_view(out@) =~= Seq::<(DiffKind, Seq<char>)>::empty());
    positional_into(&mut out, &a, &b);
    assert(Seq::<(DiffKind, Seq<char>)>::empty() + positional(lines_view(a@), lines_view(b@))
        =~= positional(lines_view(a@), lines_view(b@)));
    out
}

fn str_lines(v: &[&str]) -> (r: Vec<Vec<char>>)
    ensures
        lines_view(r@) == v@.map_values(|l: &str| l@),
{
    let mut out: Vec<Vec<char>> = Vec::new();
    let mut i: usize = 0;
    while i < v.len()
        invariant
            i <= v.len(),
            lines_view(out@) == v@.take(i as int).map_values(|l: &str| l@),
        decreases v.len() - i,
    {
        let ghost before = lines_view(out@);
        let c = chars_of(v[i]);
        out.push(c);
        assert(lines_view(out@) =~= before.push(v@[i as int]@));
        assert(v@.take(i + 1).map_values(|l: &str| l@) =~= v@.take(i as int).map_values(|l: &str| l@).push(v@[i as int]@));
        i += 1;
    }
    assert(v@.take(v.len() as int) =~= v@);
    out
}

/// The LCS table: `t[i][j]` is the LCS length of `a[i..]` and `b[j..]`.
fn lcs_table(a: &Vec<Vec<char>>, b: &Vec<Vec<char>>) -> (t: Vec<Vec<usize>>)
    requires
        a.len() <= MAX_DIFF_LINES,
        b.len() <= MAX_DIFF_LINES,
    ensures
        t@.len() == a.len() + 1,
        forall|i: int| 0 <= i <= a.len() ==> (#[trigger] t@[i])@.len() == b.len() + 1,
        forall|i: int, j: int| 0 <= i <= a.len() && 0 <= j <= b.len()
            ==> #[trigger] t@[i]@[j] == lcs(lines_view(a@), lines_view(b@), i, j),
{
    let ghost av = lines_view(a@);
    let ghost bv = lines_view(b@);
    let m = a.len();
    let n = b.len();
    let mut last: Vec<usize> = Vec::new();
    let mut z: usize = 0;
    while z <= n
        invariant
            z <= n + 1,
            n == b.len(),
            n <= MAX_DIFF_LINES,
            last@.len() == z,
            forall|j: int| 0 <= j < z ==> last@[j] == 0,
        decreases n + 1 - z,
    {
        last.push(0);
        z += 1;
    }
    let mut rows: Vec<Vec<usize>> = Vec::new();
    rows.push(last);
    let mut i: usize = m;
    while i > 0
        invariant
            i <= m,
            m == a.len(),
            n == b.len(),
            m <= MAX_DIFF_LINES,
            n <= MAX_DIFF_LINES,
            av == lines_view(a@),
            bv == lines_view(b@),
            rows@.len() == m + 1 - i,
            forall|k: int| 0 <= k < rows@.len() ==> (#[trigger] rows@[k])@.len() == n + 1,
            forall|k: int, j: int| 0 <= k < rows@.len() && 0 <= j <= n
                ==> #[trigger] rows@[k]@[j] == lcs(av, bv, i + k, j),
        decreases i,
    {
        let ii = i - 1;
        let mut row: Vec<usize> = Vec::new();
        let mut z: usize = 0;
        while z <= n
            invariant
                z <= n + 1,
                n == b.len(),
                n <= MAX_DIFF_LINES,
                row@.len() == z,
                forall|q: int| 0 <= q < z ==> row@[q] == 0,
            decreases n + 1 - z,
        {
            row.push(0);
            z += 1;
        }
        proof {
            assert(lcs(av, bv, ii as int, n as int) == 0);
        }
        let mut j: usize = n;
        while j > 0
            invariant
                j <= n,
                ii < m,
                m == a.len(),
                n == b.len(),
                m <= MAX_DIFF_LINES,
                n <= MAX_DIFF_LINES,
                av == lines_view(a@),
                bv == lines_view(b@),
                row@.len() == n + 1,
                rows@.len() >= 1,
                rows@[0]@.len() == n + 1,
                forall|jj: int| 0 <= jj <= n ==> rows@[0]@[jj] == lcs(av, bv, ii + 1, jj),
                forall|jj: int| j <= jj <= n && jj != n ==> row@[jj] == lcs(av, bv, ii as int, jj),
                row@[n as int] == 0,
            decreases j,
        {
            let jj = j - 1;
            assert(av[ii as int] == a@[ii as int]@);
            assert(bv[jj as int] == b@[jj as int]@);
            proof {
                lemma_lcs_bound(av, bv, ii + 1, jj + 1);
                if jj + 1 == n {
                    assert(lcs(av, bv, ii as int, n as int) == 0);
                }
                assert(row@[jj + 1] == lcs(av, bv, ii as int, jj + 1));
                assert(rows@[0]@[jj + 1] == lcs(av, bv, ii + 1, jj + 1));
                assert(rows@[0]@[jj as int] == lcs(av, bv, ii + 1, jj as int));
            }
            let v = if chars_eq(a[ii].as_slice(), b[jj].as_slice()) {
                rows[0][jj + 1] + 1
            } else {
                let down = rows[0][jj];
                let right = row[jj + 1];
                if down >= right { down } else { right }
            };
            row.set(jj, v);
            assert(row@[jj as int] == lcs(av, bv, ii as int, jj as int));
            j = jj;
        }
        proof {
            assert forall|jj: int| 0 <= jj <= n implies row@[jj] == lcs(av, bv, ii as int, jj) by {
                if jj == n {
                    assert(lcs(av, bv, ii as int, n as int) == 0);
                }
            }
        }
        let ghost old_rows = rows@;
        rows.insert(0, row);
        proof {
            assert forall|k: int| 0 <= k < rows@.len() implies (#[trigger] rows@[k])@.len() == n + 1 by {
                if k > 0 {
                    assert(rows@[k] == old_rows[k - 1]);
                }
            }
            assert forall|k: int, j: int| 0 <= k < rows@.len() && 0 <= j <= n
                implies #[trigger] rows@[k]@[j] == lcs(av, bv, ii + k, j) by {
                if k > 0 {
                    assert(rows@[k] == old_rows[k - 1]);
                }
            }
        }
        i = ii;
    }
    rows
}

fn walk_into(out: &mut Vec<DiffLine>, a: &Vec<Vec<char>>, b: &Vec<Vec<char>>, t: &Vec<Vec<usize>>)
    requires
        t@.len() == a.len() + 1,
        forall|i: int| 0 <= i <= a.len() ==> (#[trigger] t@[i])@.len() == b.len() + 1,
        forall|i: int, j: int| 0 <= i <= a.len() && 0 <= j <= b.len()
            ==> #[trigger] t@[i]@[j] == lcs(lines_view(a@), lines_view(b@), i, j),
    ensures
        diff_view(final(out)@) == diff_view(old(out)@) + lcs_walk(lines_view(a@), lines_view(b@), 0, 0),
{
    let ghost av = lines_view(a@);
    let ghost bv = lines_view(b@);
    let ghost start = diff_view(out@);
    let m = a.len();
    let n = b.len();
    let mut i: usize = 0;
    let mut j: usize = 0;
    while i < m || j < n
        invariant
            i <= m,
            j <= n,
            m == a.len(),
            n == b.len(),
            av == lines_view(a@),
            bv == lines_view(b@),
            t@.len() == a.len() + 1,
            forall|i: int| 0 <= i <= a.len() ==> (#[trigger] t@[i])@.len() == b.len() + 1,
            forall|i: int, j: int| 0 <= i <= a.len() && 0 <= j <= b.len()
                ==> #[trigger] t@[i]@[j] == lcs(av, bv, i, j),
            diff_view(out@) + lcs_walk(av, bv, i as int, j as int) == start + lcs_walk(av, bv, 0, 0),
        decreases m - i + n - j,
    {
        let ghost before = diff_view(out@);
        let ghost w = lcs_walk(av, bv, i as int, j as int);
        if i < m && j < n {
            assert(av[i as int] == a@[i as int]@);
            assert(bv[j as int] == b@[j as int]@);
            if chars_eq(a[i].as_slice(), b[j].as_slice()) {
                push_line(out, DiffKind::Context, &a[i]);
                assert(before.push((DiffKind::Context, av[i as int])) + lcs_walk(av, bv, i + 1, j + 1) =~= before + w);
                i += 1;
                j += 1;
            } else if t[i + 1][j] >= t[i][j + 1] {
                push_line(out, DiffKind::Removal, &a[i]);
                assert(before.push((DiffKind::Removal, av[i as int])) + lcs_walk(av, bv, i + 1, j as int) =~= before + w);
                i += 1;
            } else {
                push_line(out, DiffKind::Add, &b[j]);
                assert(before.push((DiffKind::Add, bv[j as int])) + lcs_walk(av, bv, i as int, j + 1) =~= before + w);
                j += 1;
            }
        } else if i < m {
            assert(av[i as int] == a@[i as int]@);
            push_line(out, DiffKind::Removal, &a[i]);
            assert(before.push((DiffKind::Removal, av[i as int])) + lcs_walk(av, bv, i + 1, j as int) =~= before + w);
            i += 1;
        } else {
            assert(bv[j as int] == b@[j as int]@);
            push_line(out, DiffKind::Add, &b[j]);
            assert(before.push((DiffKind::Add, bv[j as int])) + lcs_walk(av, bv, i as int, j + 1) =~= before + w);
            j += 1;
        }
    }
    assert(lcs_walk(av, bv, m as int, n as int) =~= Seq::<(DiffKind, Seq<char>)>::empty());
    assert(diff_view(out@) + Seq::<(DiffKind, Seq<char>)>::empty() =~= diff_view(out@));
}

/// The line diff of `old` against `new`: an exact LCS diff when both have
/// at most [`MAX_DIFF_LINES`] lines, the positional diff otherwise.
pub fn compute_diff(old: &str, new: &str) -> (r: Vec<DiffLine>)
    ensures
        diff_view(r@) == text_diff(old@, new@),
{
    let oc = chars_of(old);
    let nc = chars_of(new);
    let a = split_lines(oc.as_slice());
    let b = split_lines(nc.as_slice());
    assert(lines_view(a@) == lines_of(old@));
    assert(lines_view(b@) == lines_of(new@));
    let mut out: Vec<DiffLine> = Vec::new();
    assert(diff_view(out@) =~= Seq::<(DiffKind, Seq<char>)>::empty());
    if a.len() > MAX_DIFF_LINES || b.len() > MAX_DIFF_LINES {
        positional_into(&mut out, &a, &b);
    } else {
        let t = lcs_table(&a, &b);
        walk_into(&mut out, &a, &b, &t);
    }
    assert(Seq::<(DiffKind, Seq<char>)>::empty() + text_diff(old@, new@) =~= text_diff(old@, new@));
    out
}

/// The text of one diff row: a two-column sign (`+ `, `- ` or two
/// spaces) before the line.
pub open spec fn row_text(l: (DiffKind, Seq<char>)) -> Seq<char> {
    (match l.0 {
        DiffKind::Add => "+ "@,
        DiffKind::Removal => "- "@,
        DiffKind::Context => "  "@,
    }) + l.1
}

/// The rows of the diff of `old` against `new`, as text.
pub fn diff_rows(old: &str, new: &str) -> (r: Vec<String>)
    ensures
        r@.map_values(|s: String| s@) == text_diff(old@, new@).map_values(|l: (DiffKind, Seq<char>)| row_text(l)),
{
    let d = compute_diff(old, new);
    let ghost dv = diff_view(d@);
    let mut out: Vec<String> = Vec::new();
    let mut i: usize = 0;
    while i < d.len()
        invariant
            i <= d.len(),
            dv == diff_view(d@),
            out@.map_values(|s: String| s@) == dv.take(i as int).map_values(|l: (DiffKind, Seq<char>)| row_text(l)),
        decreases d.len() - i,
    {
        let mut row = match d[i].kind {
            DiffKind::Add => owned("+ "),
            DiffKind::Removal => owned("- "),
            DiffKind::Context => owned("  "),
        };
        append_str(&mut row, d[i].text.as_str());
        assert(row@ == row_text(dv[i as int]));
        let ghost before = out@.map_values(|s: String| s@);
        out.push(row);
        assert(out@.map_values(|s: String| s@) =~= before.push(row_text(dv[i as int])));
        assert(dv.take(i + 1).map_values(|l: (DiffKind, Seq<char>)| row_text(l))
            =~= dv.take(i as int).map_values(|l: (DiffKind, Seq<char>)| row_text(l)).push(row_text(dv[i as int])));
        i += 1;
    }
    assert(dv.take(d.len() as int) =~= dv);
    out
}

/// The numbers of added and removed lines.
pub fn count_changes(lines: &[DiffLine]) -> (r: (usize, usize))
    ensures
        r.0 == count_kind(diff_view(lines@), DiffKind::Add),
        r.1 == count_kind(diff_view(lines@), DiffKind::Removal),
{
    let ghost d = diff_view(lines@);
    let mut adds: usize = 0;
    let mut removals: usize = 0;
    let mut i: usize = lines.len();
    assert(d.skip(lines.len() as int) =~= Seq::<(DiffKind, Seq<char>)>::empty());
    while i > 0
        invariant
            i <= lines.len(),
            d == diff_view(lines@),
            adds == count_kind(d.skip(i as int), DiffKind::Add),
            removals == count_kind(d.skip(i as int), DiffKind::Removal),
            adds + removals <= lines.len() - i,
        decreases i,
    {
        let k = i - 1;
        assert(d.skip(k as int).drop_first() =~= d.skip(i as int));
        assert(d.skip(k as int)[0] == lines@[k as int]@);
        match lines[k].kind {
            DiffKind::Add => { adds = adds + 1; },
            DiffKind::Removal => { removals = removals + 1; },
            DiffKind::Context => {},
        }
        i = k;
    }
    assert(d.skip(0) =~= d);
    (adds, removals)
}

/// One colour channel of the background tint for an added or removed row:
/// about 18% of the accent channel mixed over the near-black diff
/// background (`0x0d`), rounded down.
pub fn tint_channel(ch: u8) -> (r: u8)
    ensures
        r == (ch * 18 + 0x0d * 82) / 100,
{
    let v: u16 = ch as u16 * 18 + 0x0d * 82;
    (v / 100) as u8
}

} // verus!
