//! Workspace checkpoints: the decisions behind capturing a set of files
//! and restoring them later. Ids sort chronologically; captured files are
//! numbered blobs; repeated paths are captured once; a path outside the
//! workspace is never captured nor restored; a file absent at capture is
//! deleted on restore. Reading and writing the files is the caller's I/O.

use vstd::prelude::*;
use crate::text::{
    append_str, chars_of, decimal, digit_char, has_prefix, lemma_lex_asymmetric, lemma_lex_irreflexive, lemma_lex_total,
    lemma_lex_transitive, lex_lt, owned, push_char, seq_lt, starts_with, u64_decimal,
};

verus! {

/// A checkpoint's identifier. Ids begin with the creation time, so their
/// order is chronological.
#[derive(Debug, Clone, PartialEq, Eq, PartialOrd, Ord, Hash)]
pub struct CheckpointId(pub String);

/// `n` in decimal, left-padded with zeros to `width` digits.
pub open spec fn padded(n: nat, width: nat) -> Seq<char> {
    let d = decimal(n);
    if d.len() >= width { d } else { Seq::new((width - d.len()) as nat, |i: int| '0') + d }
}

fn zero_padded(n: u64, width: usize) -> (r: String)
    ensures
        r@ == padded(n as nat, width as nat),
{
    let d = u64_decimal(n);
    let len = chars_of(d.as_str()).len();
    let mut s = String::new();
    if len < width {
        let mut k: usize = 0;
        while k < width - len
            invariant
                k <= width - len,
                s@ == Seq::new(k as nat, |i: int| '0'),
            decreases width - len - k,
        {
            push_char(&mut s, '0');
            assert(s@ =~= Seq::new((k + 1) as nat, |i: int| '0'));
            k += 1;
        }
    }
    let ghost z = s@;
    append_str(&mut s, d.as_str());
    if len >= width {
        assert(z =~= Seq::<char>::empty());
        assert(s@ =~= d@);
    }
    s
}

/// The id of a checkpoint created at `created_at` (Unix seconds), the
/// `seq`-th of its second, with the process-wide counter value `unique`:
/// `<created_at:020>-<seq:04>-<unique:010>`.
pub open spec fn id_text(created_at: u64, seq: u32, unique: u64) -> Seq<char> {
    padded(created_at as nat, 20) + seq!['-'] + padded(seq as nat, 4) + seq!['-'] + padded(unique as nat, 10)
}

/// Builds a checkpoint id.
pub fn checkpoint_id(created_at: u64, seq: u32, unique: u64) -> (r: CheckpointId)
    ensures
        r.0@ == id_text(created_at, seq, unique),
{
    let mut s = zero_padded(created_at, 20);
    push_char(&mut s, '-');
    let b = zero_padded(seq as u64, 4);
    append_str(&mut s, b.as_str());
    push_char(&mut s, '-');
    let c = zero_padded(unique, 10);
    append_str(&mut s, c.as_str());
    CheckpointId(s)
}

/// The value of a digit character (0 for anything that is not a digit).
pub open spec fn digit_value(c: char) -> nat {
    if c == '1' { 1 } else if c == '2' { 2 } else if c == '3' { 3 } else if c == '4' { 4 }
    else if c == '5' { 5 } else if c == '6' { 6 } else if c == '7' { 7 } else if c == '8' { 8 }
    else if c == '9' { 9 } else { 0 }
}

/// The number a string of decimal digits denotes, most significant first.
pub open spec fn digits_value(s: Seq<char>) -> nat
    decreases s.len(),
{
    if s.len() == 0 { 0 } else { digits_value(s.drop_last()) * 10 + digit_value(s.last()) }
}

/// Whether `s` is made of decimal digits only.
pub open spec fn all_digits(s: Seq<char>) -> bool {
    forall|i: int| 0 <= i < s.len() ==> '0' <= #[trigger] s[i] && s[i] <= '9'
}

proof fn lemma_digit_round_trip(d: nat)
    requires
        d < 10,
    ensures
        digit_value(digit_char(d)) == d,
        '0' <= digit_char(d) <= '9',
{
}

proof fn lemma_decimal_digits(n: nat)
    ensures
        all_digits(decimal(n)),
        digits_value(decimal(n)) == n,
    decreases n,
{
    if n >= 10 {
        lemma_decimal_digits(n / 10);
        let d = decimal(n);
        assert(d.drop_last() =~= decimal(n / 10));
        lemma_digit_round_trip(n % 10);
        assert(d.last() == digit_char(n % 10));
        assert(digits_value(d) == digits_value(d.drop_last()) * 10 + digit_value(d.last()));
        assert(n == (n / 10) * 10 + n % 10);
    } else {
        lemma_digit_round_trip(n);
        let d = decimal(n);
        assert(d.drop_last() =~= Seq::<char>::empty());
        assert(digits_value(d.drop_last()) == 0);
        assert(digits_value(d) == digits_value(d.drop_last()) * 10 + digit_value(d.last()));
    }
}

proof fn lemma_leading_zeros(k: nat, d: Seq<char>)
    ensures
        digits_value(Seq::new(k, |i: int| '0') + d) == digits_value(d),
    decreases d.len(), k,
{
    let z = Seq::new(k, |i: int| '0');
    if d.len() == 0 {
        if k > 0 {
            assert((z + d).drop_last() =~= Seq::new((k - 1) as nat, |i: int| '0') + d);
            lemma_leading_zeros((k - 1) as nat, d);
        }
    } else {
        assert((z + d).drop_last() =~= z + d.drop_last());
        lemma_leading_zeros(k, d.drop_last());
    }
}

proof fn lemma_padded(n: nat, width: nat)
    ensures
        all_digits(padded(n, width)),
        digits_value(padded(n, width)) == n,
{
    lemma_decimal_digits(n);
    let d = decimal(n);
    if d.len() < width {
        lemma_leading_zeros((width - d.len()) as nat, d);
    }
}

proof fn lemma_split_at_dash(a: Seq<char>, b: Seq<char>, c: Seq<char>, d: Seq<char>)
    requires
        all_digits(a),
        all_digits(c),
        a + seq!['-'] + b == c + seq!['-'] + d,
    ensures
        a == c,
        b == d,
{
    let x = a + seq!['-'] + b;
    let y = c + seq!['-'] + d;
    if a.len() < c.len() {
        assert(x[a.len() as int] == '-');
        assert(y[a.len() as int] == c[a.len() as int]);
    } else if c.len() < a.len() {
        assert(y[c.len() as int] == '-');
        assert(x[c.len() as int] == a[c.len() as int]);
    } else {
        assert(a =~= x.subrange(0, a.len() as int));
        assert(c =~= y.subrange(0, c.len() as int));
        assert(b =~= x.subrange(a.len() as int + 1, x.len() as int));
        assert(d =~= y.subrange(c.len() as int + 1, y.len() as int));
    }
}

/// Checkpoint ids never collide: two ids are the same text exactly when they
/// were minted from the same second, the same within-second ordinal and the
/// same counter value. Ids drawn with distinct counter values therefore always
/// differ, even within one second.
pub proof fn law_ids_never_collide(c1: u64, s1: u32, u1: u64, c2: u64, s2: u32, u2: u64)
    ensures
        id_text(c1, s1, u1) == id_text(c2, s2, u2) <==> (c1 == c2 && s1 == s2 && u1 == u2),
{
    if id_text(c1, s1, u1) == id_text(c2, s2, u2) {
        let (a1, b1, e1) = (padded(c1 as nat, 20), padded(s1 as nat, 4), padded(u1 as nat, 10));
        let (a2, b2, e2) = (padded(c2 as nat, 20), padded(s2 as nat, 4), padded(u2 as nat, 10));
        lemma_padded(c1 as nat, 20);
        lemma_padded(s1 as nat, 4);
        lemma_padded(u1 as nat, 10);
        lemma_padded(c2 as nat, 20);
        lemma_padded(s2 as nat, 4);
        lemma_padded(u2 as nat, 10);
        assert(id_text(c1, s1, u1) =~= a1 + seq!['-'] + (b1 + seq!['-'] + e1));
        assert(id_text(c2, s2, u2) =~= a2 + seq!['-'] + (b2 + seq!['-'] + e2));
        lemma_split_at_dash(a1, b1 + seq!['-'] + e1, a2, b2 + seq!['-'] + e2);
        lemma_split_at_dash(b1, e1, b2, e2);
    }
}

/// `10` raised to `k`.
pub open spec fn pow10(k: nat) -> nat
    decreases k,
{
    if k == 0 { 1 } else { 10 * pow10((k - 1) as nat) }
}

proof fn lemma_decimal_len(n: nat, k: nat)
    requires
        n < pow10(k),
    ensures
        decimal(n).len() <= k || (k == 0 && n == 0),
    decreases n,
{
    if n >= 10 {
        assert(k >= 1);
        assert(n / 10 < pow10((k - 1) as nat));
        lemma_decimal_len(n / 10, (k - 1) as nat);
    } else if k == 0 {
        assert(n == 0);
    }
}

proof fn lemma_padded_len(n: nat, width: nat)
    requires
        width >= 1,
        n < pow10(width),
    ensures
        padded(n, width).len() == width,
{
    lemma_decimal_len(n, width);
}

proof fn lemma_value_bound(s: Seq<char>)
    requires
        all_digits(s),
    ensures
        digits_value(s) < pow10(s.len()),
    decreases s.len(),
{
    if s.len() > 0 {
        lemma_value_bound(s.drop_last());
        assert(digit_value(s.last()) <= 9);
    }
}

proof fn lemma_value_first(s: Seq<char>)
    requires
        s.len() >= 1,
    ensures
        digits_value(s) == digit_value(s[0]) * pow10((s.len() - 1) as nat) + digits_value(s.drop_first()),
    decreases s.len(),
{
    if s.len() == 1 {
        assert(s.drop_last() =~= Seq::<char>::empty());
        assert(s.drop_first() =~= Seq::<char>::empty());
        assert(digits_value(Seq::<char>::empty()) == 0);
    } else {
        let dl = s.drop_last();
        lemma_value_first(dl);
        assert(s.drop_first().drop_last() =~= dl.drop_first());
        assert(s.drop_first().last() == s.last());
        let a = digit_value(s[0]) as int;
        let p = pow10((s.len() - 2) as nat) as int;
        let b = digits_value(dl.drop_first()) as int;
        assert((a * p + b) * 10 == a * (10 * p) + b * 10) by (nonlinear_arith);
    }
}

proof fn lemma_lex_by_value(a: Seq<char>, b: Seq<char>)
    requires
        a.len() == b.len(),
        all_digits(a),
        all_digits(b),
        digits_value(a) < digits_value(b),
    ensures
        lex_lt(a, b),
    decreases a.len(),
{
    if a.len() == 0 {
        assert(digits_value(a) == 0);
        assert(digits_value(b) == 0);
    } else {
        lemma_value_first(a);
        lemma_value_first(b);
        lemma_value_bound(a.drop_first());
        lemma_value_bound(b.drop_first());
        let p = pow10((a.len() - 1) as nat) as int;
        let x = digit_value(a[0]) as int;
        let y = digit_value(b[0]) as int;
        assert(all_digits(a.drop_first()));
        assert(all_digits(b.drop_first()));
        if a[0] == b[0] {
            lemma_lex_by_value(a.drop_first(), b.drop_first());
        } else if b[0] < a[0] {
            assert('0' <= a[0] <= '9' && '0' <= b[0] <= '9');
            assert(y < x);
            assert(y * p + p <= x * p) by (nonlinear_arith)
                requires
                    y < x,
                    p >= 0,
            ;
        }
    }
}

proof fn lemma_lex_equal_length_prefix(a: Seq<char>, b: Seq<char>, x: Seq<char>, y: Seq<char>)
    requires
        a.len() == b.len(),
        lex_lt(a, b),
    ensures
        lex_lt(a + x, b + y),
    decreases a.len(),
{
    if a[0] == b[0] {
        assert((a + x).drop_first() =~= a.drop_first() + x);
        assert((b + y).drop_first() =~= b.drop_first() + y);
        lemma_lex_equal_length_prefix(a.drop_first(), b.drop_first(), x, y);
    }
}

proof fn lemma_lex_common_prefix(w: Seq<char>, x: Seq<char>, y: Seq<char>)
    requires
        lex_lt(x, y),
    ensures
        lex_lt(w + x, w + y),
    decreases w.len(),
{
    if w.len() == 0 {
        assert(w + x =~= x);
        assert(w + y =~= y);
    } else {
        assert((w + x).drop_first() =~= w.drop_first() + x);
        assert((w + y).drop_first() =~= w.drop_first() + y);
        lemma_lex_common_prefix(w.drop_first(), x, y);
    }
}

/// Ids sort chronologically: an id minted in an earlier second sorts before
/// one minted in a later second, and within one second a lower ordinal sorts
/// first (as long as the ordinals keep to their four digits).
pub proof fn law_ids_sort_chronologically(c1: u64, s1: u32, u1: u64, c2: u64, s2: u32, u2: u64)
    ensures
        c1 < c2 ==> lex_lt(id_text(c1, s1, u1), id_text(c2, s2, u2)),
        c1 == c2 && s1 < s2 && s2 < 10000 ==> lex_lt(id_text(c1, s1, u1), id_text(c2, s2, u2)),
{
    let (a1, b1, e1) = (padded(c1 as nat, 20), padded(s1 as nat, 4), padded(u1 as nat, 10));
    let (a2, b2, e2) = (padded(c2 as nat, 20), padded(s2 as nat, 4), padded(u2 as nat, 10));
    lemma_padded(c1 as nat, 20);
    lemma_padded(c2 as nat, 20);
    lemma_padded(s1 as nat, 4);
    lemma_padded(s2 as nat, 4);
    reveal_with_fuel(pow10, 21);
    assert(pow10(20) == 100000000000000000000nat);
    assert(pow10(4) == 10000nat);
    lemma_padded_len(c1 as nat, 20);
    lemma_padded_len(c2 as nat, 20);
    if c1 < c2 {
        lemma_lex_by_value(a1, a2);
        assert(id_text(c1, s1, u1) =~= a1 + (seq!['-'] + b1 + seq!['-'] + e1));
        assert(id_text(c2, s2, u2) =~= a2 + (seq!['-'] + b2 + seq!['-'] + e2));
        lemma_lex_equal_length_prefix(a1, a2, seq!['-'] + b1 + seq!['-'] + e1, seq!['-'] + b2 + seq!['-'] + e2);
    }
    if c1 == c2 && s1 < s2 && s2 < 10000 {
        lemma_padded_len(s1 as nat, 4);
        lemma_padded_len(s2 as nat, 4);
        lemma_lex_by_value(b1, b2);
        lemma_lex_equal_length_prefix(b1, b2, seq!['-'] + e1, seq!['-'] + e2);
        assert(id_text(c1, s1, u1) =~= (a1 + seq!['-']) + (b1 + (seq!['-'] + e1)));
        assert(id_text(c2, s2, u2) =~= (a1 + seq!['-']) + (b2 + (seq!['-'] + e2)));
        lemma_lex_common_prefix(a1 + seq!['-'], b1 + (seq!['-'] + e1), b2 + (seq!['-'] + e2));
    }
}

/// The prefix every id created in the second `created_at` starts with.
pub fn id_prefix(created_at: u64) -> (r: String)
    ensures
        r@ == padded(created_at as nat, 20) + seq!['-'],
{
    let mut s = zero_padded(created_at, 20);
    push_char(&mut s, '-');
    s
}

/// The number of `names` that start with `prefix`.
pub open spec fn count_prefixed(names: Seq<Seq<char>>, prefix: Seq<char>) -> nat
    decreases names.len(),
{
    if names.len() == 0 {
        0
    } else {
        count_prefixed(names.drop_last(), prefix) + if has_prefix(names.last(), prefix) { 1nat } else { 0 }
    }
}

/// The within-second ordinal of a new checkpoint: how many of the store's
/// entries were created in the same second.
pub fn next_seq(names: &Vec<String>, created_at: u64) -> (r: u32)
    ensures
        r == count_prefixed(names@.map_values(|s: String| s@), padded(created_at as nat, 20) + seq!['-']) as u32,
{
    let ghost nv = names@.map_values(|s: String| s@);
    let prefix = id_prefix(created_at);
    let pv = chars_of(prefix.as_str());
    let mut count: usize = 0;
    let mut i: usize = 0;
    while i < names.len()
        invariant
            i <= names.len(),
            nv == names@.map_values(|s: String| s@),
            pv@ == padded(created_at as nat, 20) + seq!['-'],
            count == count_prefixed(nv.take(i as int), pv@),
            count <= i,
        decreases names.len() - i,
    {
        assert(nv.take(i + 1).drop_last() =~= nv.take(i as int));
        assert(nv[i as int] == names@[i as int]@);
        let cs = chars_of(names[i].as_str());
        if starts_with(cs.as_slice(), pv.as_slice()) {
            count = count + 1;
        }
        i += 1;
    }
    assert(nv.take(names.len() as int) =~= nv);
    #[verifier::truncate]
    (count as u32)
}

/// The blob holding captured file number `index`: four zero-padded digits.
pub fn blob_name(index: usize) -> (r: String)
    ensures
        r@ == padded(index as nat, 4),
{
    zero_padded(index as u64, 4)
}

/// One captured file: where it came from, and the blob holding its bytes
/// (`None` when it did not exist at capture time).
#[derive(Debug, Clone, PartialEq, Eq)]
pub struct FileEntry {
    pub path: String,
    pub blob: Option<String>,
}

/// A checkpoint's metadata.
#[derive(Debug, Clone)]
pub struct CheckpointMeta {
    pub id: CheckpointId,
    /// The caller's label (a turn summary, a command name).
    pub label: String,
    /// Unix seconds when it was captured.
    pub created_at: u64,
    pub files: Vec<FileEntry>,
}

impl CheckpointMeta {
    pub closed spec fn spec_files(&self) -> Seq<FileEntry> {
        self.files@
    }

    /// Metadata for the captured `files`.
    pub fn new(id: CheckpointId, label: String, created_at: u64, files: Vec<FileEntry>) -> (r: Self)
        ensures
            r.id == id,
            r.label == label,
            r.created_at == created_at,
            r.spec_files() == files@,
    {
        CheckpointMeta { id, label, created_at, files }
    }

    /// The captured files.
    pub fn files(&self) -> (r: &Vec<FileEntry>)
        ensures
            r@ == self.spec_files(),
    {
        &self.files
    }

    /// The number of files captured.
    pub fn file_count(&self) -> (r: usize)
        ensures
            r == self.spec_files().len(),
    {
        self.files.len()
    }

    /// The paths a restore writes back, in capture order.
    pub fn paths(&self) -> (r: Vec<&str>)
        ensures
            r@.map_values(|p: &str| p@) == self.spec_files().map_values(|f: FileEntry| f.path@),
    {
        let mut out: Vec<&str> = Vec::new();
        let mut i: usize = 0;
        while i < self.files.len()
            invariant
                i <= self.files@.len(),
                out@.map_values(|p: &str| p@) == self.files@.take(i as int).map_values(|f: FileEntry| f.path@),
            decreases self.files@.len() - i,
        {
            let ghost before = out@.map_values(|p: &str| p@);
            out.push(self.files[i].path.as_str());
            assert(out@.map_values(|p: &str| p@) =~= before.push(self.files@[i as int].path@));
            assert(self.files@.take(i + 1).map_values(|f: FileEntry| f.path@)
                =~= self.files@.take(i as int).map_values(|f: FileEntry| f.path@).push(self.files@[i as int].path@));
            i += 1;
        }
        assert(self.files@.take(self.files@.len() as int) =~= self.files@);
        out
    }
}

/// A store of checkpoints rooted at one directory, confined to one
/// workspace.
#[derive(Debug, Clone)]
pub struct CheckpointStore {
    root: String,
    workspace_root: String,
    seq_counter: u64,
}

impl CheckpointStore {
    pub closed spec fn spec_root(&self) -> Seq<char> {
        self.root@
    }

    pub closed spec fn spec_workspace_root(&self) -> Seq<char> {
        self.workspace_root@
    }

    pub closed spec fn spec_counter(&self) -> u64 {
        self.seq_counter
    }

    /// A store in `dir` confined to `workspace_root`. Nothing is touched
    /// until the first capture.
    pub fn new(dir: String, workspace_root: String) -> (r: Self)
        ensures
            r.spec_root() == dir@,
            r.spec_workspace_root() == workspace_root@,
            r.spec_counter() == 0,
    {
        CheckpointStore { root: dir, workspace_root, seq_counter: 0 }
    }

    /// The store's directory.
    pub fn root(&self) -> (r: &str)
        ensures
            r@ == self.spec_root(),
    {
        self.root.as_str()
    }

    /// The workspace captures and restores are confined to.
    pub fn workspace_root(&self) -> (r: &str)
        ensures
            r@ == self.spec_workspace_root(),
    {
        self.workspace_root.as_str()
    }

    /// Draws the next value of the per-store counter folded into ids, so
    /// two captures in the same second never share an id.
    pub fn next_unique(&mut self) -> (r: u64)
        ensures
            r == old(self).spec_counter(),
            final(self).spec_counter() == (if old(self).spec_counter() == u64::MAX { 0 } else { (old(self).spec_counter() + 1) as u64 }),
            final(self).spec_root() == old(self).spec_root(),
            final(self).spec_workspace_root() == old(self).spec_workspace_root(),
    {
        let v = self.seq_counter;
        self.seq_counter = if v == u64::MAX { 0 } else { v + 1 };
        v
    }
}

// --- capture and restore plans --------------------------------------------------

/// The components of the path `p`, each as its text
/// (`std::path::Path::components`): a root is `/`, a leading `.` is `.`,
/// a `..` is `..`, and a name is itself; repeated separators, inner `.`
/// components and a trailing separator leave no component. The split
/// follows the path syntax of the target the crate is compiled for (the
/// Unix one here), so it is fixed per compilation target.
pub uninterp spec fn path_components(p: Seq<char>) -> Seq<Seq<char>>;

/// `std::path::Path::components`, each component as its text.
#[verifier::external_body]
fn components_of(p: &str) -> (r: Vec<String>)
    ensures
        r@.map_values(|s: String| s@) == path_components(p@),
{
    std::path::Path::new(p).components().map(|c| c.as_os_str().to_string_lossy().into_owned()).collect()
}

/// Two paths name the same path as `std::path::Path`'s `==` compares them:
/// component by component.
pub open spec fn same_path(a: Seq<char>, b: Seq<char>) -> bool {
    path_components(a) == path_components(b)
}

/// Some path of `s` is the same path as `p`.
pub open spec fn has_same_path(s: Seq<Seq<char>>, p: Seq<char>) -> bool {
    exists|i: int| 0 <= i < s.len() && same_path(s[i], p)
}

/// `paths` with repeats dropped, first occurrences kept in order; two
/// paths repeat each other when they are the same path component by
/// component (`/w/a//b` repeats `/w/a/b`).
pub open spec fn first_seen(paths: Seq<Seq<char>>) -> Seq<Seq<char>>
    decreases paths.len(),
{
    if paths.len() == 0 {
        Seq::empty()
    } else {
        let prev = first_seen(paths.drop_last());
        if has_same_path(prev, paths.last()) { prev } else { prev.push(paths.last()) }
    }
}

fn same_texts(a: &Vec<String>, b: &Vec<String>) -> (r: bool)
    ensures
        r == (a@.map_values(|s: String| s@) == b@.map_values(|s: String| s@)),
{
    let ghost av = a@.map_values(|s: String| s@);
    let ghost bv = b@.map_values(|s: String| s@);
    if a.len() != b.len() {
        assert(av.len() != bv.len());
        return false;
    }
    let mut i: usize = 0;
    while i < a.len()
        invariant
            i <= a.len(),
            a.len() == b.len(),
            av == a@.map_values(|s: String| s@),
            bv == b@.map_values(|s: String| s@),
            forall|j: int| 0 <= j < i ==> av[j] == bv[j],
        decreases a.len() - i,
    {
        if a[i] != b[i] {
            assert(av[i as int] != bv[i as int]);
            return false;
        }
        i += 1;
    }
    assert(av =~= bv);
    true
}

/// Drops repeated paths, keeping the first occurrence of each in order;
/// paths are compared component by component, as `std::path::PathBuf`s.
pub fn dedupe_paths(paths: &Vec<String>) -> (r: Vec<String>)
    ensures
        r@.map_values(|s: String| s@) == first_seen(paths@.map_values(|s: String| s@)),
{
    let ghost pv = paths@.map_values(|s: String| s@);
    let mut out: Vec<String> = Vec::new();
    let mut keys: Vec<Vec<String>> = Vec::new();
    let mut i: usize = 0;
    while i < paths.len()
        invariant
            i <= paths.len(),
            pv == paths@.map_values(|s: String| s@),
            out@.map_values(|s: String| s@) == first_seen(pv.take(i as int)),
            keys.len() == out.len(),
            forall|q: int| 0 <= q < keys.len() ==>
                (#[trigger] keys@[q])@.map_values(|s: String| s@) == path_components(out@[q]@),
        decreases paths.len() - i,
    {
        assert(pv.take(i + 1).drop_last() =~= pv.take(i as int));
        assert(pv[i as int] == paths@[i as int]@);
        let ghost ov = out@.map_values(|s: String| s@);
        let key = components_of(paths[i].as_str());
        let mut seen = false;
        let mut j: usize = 0;
        while j < keys.len()
            invariant
                j <= keys.len(),
                keys.len() == out.len(),
                ov == out@.map_values(|s: String| s@),
                i < paths.len(),
                key@.map_values(|s: String| s@) == path_components(paths@[i as int]@),
                forall|q: int| 0 <= q < keys.len() ==>
                    (#[trigger] keys@[q])@.map_values(|s: String| s@) == path_components(out@[q]@),
                seen == exists|q: int| 0 <= q < j && same_path(#[trigger] ov[q], paths@[i as int]@),
            decreases keys.len() - j,
        {
            if same_texts(&keys[j], &key) {
                assert(same_path(ov[j as int], paths@[i as int]@));
                seen = true;
            } else {
                assert(!same_path(ov[j as int], paths@[i as int]@));
            }
            j += 1;
        }
        if !seen {
            out.push(owned(paths[i].as_str()));
            keys.push(key);
            assert(out@.map_values(|s: String| s@) =~= ov.push(pv[i as int]));
        }
        i += 1;
    }
    assert(pv.take(paths.len() as int) =~= pv);
    out
}

/// The entries a capture records for the distinct `paths`: a path outside
/// the workspace (`within[i]` false) is dropped; a file that exists gets
/// the next numbered blob; an absent one is recorded without a blob.
pub open spec fn captured(paths: Seq<Seq<char>>, within: Seq<bool>, present: Seq<bool>) -> Seq<(Seq<char>, Option<Seq<char>>)>
    decreases paths.len(),
{
    if paths.len() == 0 {
        Seq::empty()
    } else {
        let prev = captured(paths.drop_last(), within.take(paths.len() - 1), present.take(paths.len() - 1));
        let k = paths.len() - 1;
        if !within[k] {
            prev
        } else if present[k] {
            prev.push((paths[k], Some(padded(prev.len(), 4))))
        } else {
            prev.push((paths[k], None))
        }
    }
}

/// `p` is one of `paths` that lies in the workspace.
pub open spec fn in_workspace_list(paths: Seq<Seq<char>>, within: Seq<bool>, p: Seq<char>) -> bool {
    exists|i: int| 0 <= i < paths.len() && within[i] && paths[i] == p
}

/// A capture records only paths that lie in the workspace, each file that
/// existed under the blob numbered by its place among the entries, and
/// never more entries than paths.
pub proof fn law_capture_stays_in_workspace(paths: Seq<Seq<char>>, within: Seq<bool>, present: Seq<bool>)
    requires
        within.len() == paths.len(),
        present.len() == paths.len(),
    ensures
        captured(paths, within, present).len() <= paths.len(),
        forall|j: int| 0 <= j < captured(paths, within, present).len() ==>
            in_workspace_list(paths, within, (#[trigger] captured(paths, within, present)[j]).0),
        forall|j: int| 0 <= j < captured(paths, within, present).len() ==>
            ((#[trigger] captured(paths, within, present)[j]).1 matches Some(b) ==> b == padded(j as nat, 4)),
    decreases paths.len(),
{
    if paths.len() > 0 {
        let k = paths.len() - 1;
        let pp = paths.drop_last();
        let wp = within.take(k);
        let qp = present.take(k);
        law_capture_stays_in_workspace(pp, wp, qp);
        let prev = captured(pp, wp, qp);
        let cur = captured(paths, within, present);
        assert forall|j: int| 0 <= j < cur.len() implies in_workspace_list(paths, within, (#[trigger] cur[j]).0) by {
            if j < prev.len() {
                assert(cur[j] == prev[j]);
                assert(in_workspace_list(pp, wp, prev[j].0));
                let i = choose|i: int| 0 <= i < pp.len() && wp[i] && pp[i] == prev[j].0;
                assert(paths[i] == pp[i] && within[i] == wp[i]);
            } else {
                assert(within[k] && cur[j].0 == paths[k]);
            }
        }
        assert forall|j: int| 0 <= j < cur.len() implies
            ((#[trigger] cur[j]).1 matches Some(b) ==> b == padded(j as nat, 4)) by {
            if j < prev.len() {
                assert(cur[j] == prev[j]);
            }
        }
    } else {
        assert(captured(paths, within, present).len() == 0);
    }
}

/// The plain value of a file entry.
pub open spec fn entry_view(f: FileEntry) -> (Seq<char>, Option<Seq<char>>) {
    (f.path@, match f.blob { Some(b) => Some(b@), None => None })
}

/// The entries a capture records, as [`captured`] describes.
pub fn capture_entries(paths: &Vec<String>, within: &Vec<bool>, present: &Vec<bool>) -> (r: Vec<FileEntry>)
    requires
        within.len() == paths.len(),
        present.len() == paths.len(),
    ensures
        r@.map_values(|f: FileEntry| entry_view(f)) == captured(paths@.map_values(|s: String| s@), within@, present@),
{
    let ghost pv = paths@.map_values(|s: String| s@);
    let mut out: Vec<FileEntry> = Vec::new();
    let mut i: usize = 0;
    while i < paths.len()
        invariant
            i <= paths.len(),
            within.len() == paths.len(),
            present.len() == paths.len(),
            pv == paths@.map_values(|s: String| s@),
            out@.map_values(|f: FileEntry| entry_view(f)) == captured(pv.take(i as int), within@.take(i as int), present@.take(i as int)),
            out@.len() <= i,
        decreases paths.len() - i,
    {
        assert(pv.take(i + 1).drop_last() =~= pv.take(i as int));
        assert(within@.take(i + 1).take(i as int) =~= within@.take(i as int));
        assert(present@.take(i + 1).take(i as int) =~= present@.take(i as int));
        assert(pv[i as int] == paths@[i as int]@);
        let ghost ov = out@.map_values(|f: FileEntry| entry_view(f));
        if within[i] {
            let blob = if present[i] { Some(blob_name(out.len())) } else { None };
            let entry = FileEntry { path: owned(paths[i].as_str()), blob };
            out.push(entry);
            assert(out@.map_values(|f: FileEntry| entry_view(f)) =~= ov.push(entry_view(entry)));
        }
        i += 1;
    }
    assert(pv.take(paths.len() as int) =~= pv);
    assert(within@.take(paths.len() as int) =~= within@);
    assert(present@.take(paths.len() as int) =~= present@);
    out
}

/// One step of a restore.
#[derive(Debug, Clone, PartialEq, Eq)]
pub enum RestoreAction {
    /// Write the bytes of `blob` back to `path`.
    Write { path: String, blob: String },
    /// Delete `path`: it did not exist at capture time.
    Delete { path: String },
}

/// The plan of a restore: for each entry whose path lies in the workspace
/// (`within[i]`), a write of its blob, or a delete when it had none.
pub open spec fn restore_steps(entries: Seq<FileEntry>, within: Seq<bool>) -> Seq<(bool, Seq<char>, Seq<char>)>
    decreases entries.len(),
{
    if entries.len() == 0 {
        Seq::empty()
    } else {
        let k = entries.len() - 1;
        let prev = restore_steps(entries.drop_last(), within.take(k));
        if !within[k] {
            prev
        } else {
            match entries[k].blob {
                Some(b) => prev.push((true, entries[k].path@, b@)),
                None => prev.push((false, entries[k].path@, Seq::empty())),
            }
        }
    }
}

/// The restore step that undoes the capture of one entry: write its blob
/// back, or delete the file when it had none.
pub open spec fn undo_step(e: (Seq<char>, Option<Seq<char>>)) -> (bool, Seq<char>, Seq<char>) {
    match e.1 {
        Some(b) => (true, e.0, b),
        None => (false, e.0, Seq::empty()),
    }
}

/// Restoring a checkpoint whose paths all still lie in the workspace plans
/// exactly one step per captured file, in capture order: each captured
/// file is written back from the blob it was saved under, and each file
/// that was absent at capture is deleted.
pub proof fn law_restore_undoes_capture(entries: Seq<FileEntry>, within: Seq<bool>)
    requires
        within.len() == entries.len(),
        forall|i: int| 0 <= i < within.len() ==> #[trigger] within[i],
    ensures
        restore_steps(entries, within) == entries.map_values(|f: FileEntry| undo_step(entry_view(f))),
    decreases entries.len(),
{
    if entries.len() > 0 {
        let k = entries.len() - 1;
        law_restore_undoes_capture(entries.drop_last(), within.take(k));
        assert(within[k]);
        assert(entries.map_values(|f: FileEntry| undo_step(entry_view(f)))
            =~= entries.drop_last().map_values(|f: FileEntry| undo_step(entry_view(f))).push(undo_step(entry_view(entries[k]))));
    } else {
        assert(entries.map_values(|f: FileEntry| undo_step(entry_view(f))) =~= Seq::<(bool, Seq<char>, Seq<char>)>::empty());
    }
}

/// The plain value of a restore step: write or not, path, blob.
pub open spec fn action_view(a: RestoreAction) -> (bool, Seq<char>, Seq<char>) {
    match a {
        RestoreAction::Write { path, blob } => (true, path@, blob@),
        RestoreAction::Delete { path } => (false, path@, Seq::empty()),
    }
}

/// Plans a restore of `meta`; `within[i]` says whether entry `i`'s path
/// lies in the workspace.
pub fn restore_plan(meta: &CheckpointMeta, within: &Vec<bool>) -> (r: Vec<RestoreAction>)
    requires
        within.len() == meta.spec_files().len(),
    ensures
        r@.map_values(|a: RestoreAction| action_view(a)) == restore_steps(meta.spec_files(), within@),
{
    let files = meta.files();
    let mut out: Vec<RestoreAction> = Vec::new();
    let mut i: usize = 0;
    while i < files.len()
        invariant
            i <= files.len(),
            files@ == meta.spec_files(),
            within.len() == files.len(),
            out@.map_values(|a: RestoreAction| action_view(a)) == restore_steps(files@.take(i as int), within@.take(i as int)),
        decreases files.len() - i,
    {
        assert(files@.take(i + 1).drop_last() =~= files@.take(i as int));
        assert(within@.take(i + 1).take(i as int) =~= within@.take(i as int));
        let ghost ov = out@.map_values(|a: RestoreAction| action_view(a));
        if within[i] {
            let path = owned(files[i].path.as_str());
            let action = match &files[i].blob {
                Some(b) => RestoreAction::Write { path, blob: owned(b.as_str()) },
                None => RestoreAction::Delete { path },
            };
            out.push(action);
            assert(out@.map_values(|a: RestoreAction| action_view(a)) =~= ov.push(action_view(action)));
        }
        i += 1;
    }
    assert(files@.take(files.len() as int) =~= files@);
    assert(within@.take(files.len() as int) =~= within@);
    out
}

// --- the lexical part of the workspace check --------------------------------------

/// Whether `std::path::Path::new(p).is_absolute()`; fixed per
/// compilation target (on Unix: `p` starts with `/`).
pub uninterp spec fn path_is_absolute(p: Seq<char>) -> bool;

/// Whether some component of `p` is `..` (`std::path::Component::ParentDir`,
/// the one component whose text is `..`).
pub open spec fn path_has_parent_dir(p: Seq<char>) -> bool {
    path_components(p).contains(".."@)
}

/// `std::path::Path::is_absolute`.
#[verifier::external_body]
fn is_absolute(p: &str) -> (r: bool)
    ensures
        r == path_is_absolute(p@),
{
    std::path::Path::new(p).is_absolute()
}

/// Whether some component of `p` is `..`.
fn has_parent_dir(p: &str) -> (r: bool)
    ensures
        r == path_has_parent_dir(p@),
{
    let comps = components_of(p);
    let ghost cv = comps@.map_values(|s: String| s@);
    let dots = owned("..");
    let mut i: usize = 0;
    while i < comps.len()
        invariant
            i <= comps.len(),
            cv == comps@.map_values(|s: String| s@),
            cv == path_components(p@),
            dots@ == ".."@,
            forall|j: int| 0 <= j < i ==> cv[j] != ".."@,
        decreases comps.len() - i,
    {
        if comps[i] == dots {
            assert(cv[i as int] == ".."@);
            return true;
        }
        i += 1;
    }
    false
}

/// The checks on a path before the filesystem is asked: it must be
/// absolute, with no `..` component. A path that passes must still
/// resolve (through its longest existing ancestor) inside the workspace.
pub fn path_lexically_confined(path: &str) -> (r: bool)
    ensures
        r == (path_is_absolute(path@) && !path_has_parent_dir(path@)),
{
    is_absolute(path) && !has_parent_dir(path)
}

// --- listing ----------------------------------------------------------------

/// Listed newest first: no checkpoint's id sorts before a later one's.
pub open spec fn newest_first(s: Seq<CheckpointMeta>) -> bool {
    forall|i: int, j: int| 0 <= i < j < s.len() ==> !lex_lt(#[trigger] s[i].id.0@, #[trigger] s[j].id.0@)
}

/// A checkpoint's id is `x`.
pub open spec fn id_is(x: Seq<char>) -> spec_fn(CheckpointMeta) -> bool {
    |m: CheckpointMeta| m.id.0@ == x
}

/// The checkpoints of `s` whose id is `x`, in their order in `s`.
pub open spec fn with_id(s: Seq<CheckpointMeta>, x: Seq<char>) -> Seq<CheckpointMeta> {
    s.filter(id_is(x))
}

proof fn lemma_with_id_insert(s: Seq<CheckpointMeta>, k: int, m: CheckpointMeta, x: Seq<char>)
    requires
        0 <= k <= s.len(),
        forall|j: int| k <= j < s.len() ==> (#[trigger] s[j]).id.0@ != m.id.0@,
    ensures
        with_id(s.insert(k, m), x) == if m.id.0@ == x { with_id(s, x).push(m) } else { with_id(s, x) },
{
    let pred = id_is(x);
    let a = s.take(k);
    let b = s.skip(k);
    assert(s.insert(k, m) =~= a.push(m) + b);
    assert(s =~= a + b);
    Seq::filter_distributes_over_add(a.push(m), b, pred);
    Seq::filter_distributes_over_add(a, b, pred);
    a.lemma_filter_push(m, pred);
    if m.id.0@ == x {
        assert(b.all(|y: CheckpointMeta| !pred(y))) by {
            assert forall|i: int| 0 <= i < b.len() implies !pred(#[trigger] b[i]) by {
                assert(b[i] == s[k + i]);
            }
        }
        b.lemma_all_neg_filter_empty(pred);
        assert(b.filter(pred) =~= Seq::<CheckpointMeta>::empty());
        assert(a.filter(pred).push(m) + b.filter(pred) =~= a.filter(pred).push(m));
        assert(a.filter(pred) + b.filter(pred) =~= a.filter(pred));
    }
}

/// Orders checkpoints for listing: ids are timestamp-prefixed, so
/// descending id order is newest first. Checkpoints with equal ids keep
/// their order.
pub fn order_newest_first(metas: Vec<CheckpointMeta>) -> (r: Vec<CheckpointMeta>)
    ensures
        r@.to_multiset() == metas@.to_multiset(),
        newest_first(r@),
        forall|x: Seq<char>| #[trigger] with_id(r@, x) == with_id(metas@, x),
{
    broadcast use vstd::seq_lib::group_to_multiset_ensures;
    let ghost all = metas@;
    let mut rest = metas;
    let mut out: Vec<CheckpointMeta> = Vec::new();
    let ghost mut done: int = 0;
    proof {
        assert(out@.to_multiset() =~= vstd::multiset::Multiset::<CheckpointMeta>::empty());
        assert(all.skip(0) =~= all);
        assert forall|x: Seq<char>| #[trigger] with_id(out@, x) == with_id(all.take(0), x) by {
            assert(out@ =~= all.take(0));
        }
    }
    while rest.len() > 0
        invariant
            out@.to_multiset().add(rest@.to_multiset()) == all.to_multiset(),
            newest_first(out@),
            0 <= done <= all.len(),
            rest@ == all.skip(done),
            forall|x: Seq<char>| #[trigger] with_id(out@, x) == with_id(all.take(done), x),
        decreases rest.len(),
    {
        let ghost rest0 = rest@;
        let m = rest.remove(0);
        proof {
            assert(m == all[done]);
        }
        proof {
            vstd::seq_lib::to_multiset_remove(rest0, 0);
        }
        let mid = chars_of(m.id.0.as_str());
        let mut k: usize = 0;
        while k < out.len() && !seq_lt(chars_of(out[k].id.0.as_str()).as_slice(), mid.as_slice())
            invariant
                k <= out.len(),
                mid@ == m.id.0@,
                forall|j: int| 0 <= j < k ==> !lex_lt(#[trigger] out@[j].id.0@, m.id.0@),
            decreases out.len() - k,
        {
            k += 1;
        }
        let ghost before = out@;
        proof {
            vstd::seq_lib::to_multiset_insert(before, k as int, m);
            assert forall|j: int| k <= j < before.len() implies lex_lt(#[trigger] before[j].id.0@, m.id.0@) by {
                assert(lex_lt(before[k as int].id.0@, m.id.0@));
                if j > k {
                    assert(!lex_lt(before[k as int].id.0@, before[j].id.0@));
                    lemma_lex_total(before[k as int].id.0@, before[j].id.0@);
                    if before[k as int].id.0@ != before[j].id.0@ {
                        lemma_lex_transitive(before[j].id.0@, before[k as int].id.0@, m.id.0@);
                    }
                }
            }
        }
        out.insert(k, m);
        proof {
            let now = out@;
            assert(now =~= before.insert(k as int, m));
            assert forall|j: int| k <= j < before.len() implies (#[trigger] before[j]).id.0@ != m.id.0@ by {
                lemma_lex_irreflexive(m.id.0@);
            }
            assert(all.take(done + 1) =~= all.take(done).push(m));
            assert forall|x: Seq<char>| #[trigger] with_id(now, x) == with_id(all.take(done + 1), x) by {
                lemma_with_id_insert(before, k as int, m, x);
                all.take(done).lemma_filter_push(m, id_is(x));
            }
            assert(rest@ =~= all.skip(done + 1));
            done = done + 1;
            assert forall|i: int, j: int| 0 <= i < j < now.len() implies !lex_lt(#[trigger] now[i].id.0@, #[trigger] now[j].id.0@) by {
                if i < k && j < k {
                    assert(now[i] == before[i] && now[j] == before[j]);
                } else if i < k && j == k {
                    assert(now[i] == before[i]);
                } else if i < k {
                    assert(now[i] == before[i] && now[j] == before[j - 1]);
                } else if i == k {
                    assert(now[j] == before[j - 1]);
                    lemma_lex_asymmetric(before[j - 1].id.0@, m.id.0@);
                } else {
                    assert(now[i] == before[i - 1] && now[j] == before[j - 1]);
                }
            }
            broadcast use vstd::multiset::group_multiset_axioms;
            assert(rest0[0] == m);
            assert(rest0.contains(m));
            vstd::seq_lib::to_multiset_contains(rest0, m);
            assert(rest0.to_multiset().count(m) > 0);
            assert(out@.to_multiset().add(rest@.to_multiset()) =~= all.to_multiset());
        }
    }
    proof {
        assert(rest@.to_multiset() =~= vstd::multiset::Multiset::<CheckpointMeta>::empty());
        assert(out@.to_multiset().add(vstd::multiset::Multiset::<CheckpointMeta>::empty()) =~= out@.to_multiset());
        assert(done == all.len());
        assert(all.take(done) =~= all);
    }
    out
}


/// Deduplication keeps one path for each path given: no two kept paths are
/// the same path, every kept path was given, and every given path is the
/// same path as a kept one.
pub proof fn law_dedupe_keeps_each_path_once(paths: Seq<Seq<char>>)
    ensures
        forall|i: int, j: int| 0 <= i < j < first_seen(paths).len() ==>
            !same_path(#[trigger] first_seen(paths)[i], #[trigger] first_seen(paths)[j]),
        forall|x: Seq<char>| #[trigger] first_seen(paths).contains(x) ==> paths.contains(x),
        forall|x: Seq<char>| has_same_path(first_seen(paths), x) <==> has_same_path(paths, x),
    decreases paths.len(),
{
    if paths.len() > 0 {
        let init = paths.drop_last();
        law_dedupe_keeps_each_path_once(init);
        let prev = first_seen(init);
        let l = paths.last();
        let cur = first_seen(paths);
        assert forall|x: Seq<char>| #[trigger] cur.contains(x) implies paths.contains(x) by {
            let q = choose|q: int| 0 <= q < cur.len() && cur[q] == x;
            if q < prev.len() {
                assert(prev[q] == x);
                assert(prev.contains(x));
                let k = choose|k: int| 0 <= k < init.len() && init[k] == x;
                assert(paths[k] == x);
            } else {
                assert(paths[paths.len() - 1] == x);
            }
        }
        assert forall|x: Seq<char>| has_same_path(cur, x) <==> has_same_path(paths, x) by {
            if has_same_path(paths, x) {
                let k = choose|k: int| 0 <= k < paths.len() && same_path(paths[k], x);
                if k < paths.len() - 1 {
                    assert(init[k] == paths[k]);
                    assert(has_same_path(init, x));
                    assert(has_same_path(prev, x));
                    let q = choose|q: int| 0 <= q < prev.len() && same_path(prev[q], x);
                    if !has_same_path(prev, l) {
                        assert(cur[q] == prev[q]);
                    }
                } else {
                    if has_same_path(prev, l) {
                        let q = choose|q: int| 0 <= q < prev.len() && same_path(prev[q], l);
                        assert(same_path(prev[q], x));
                    } else {
                        assert(cur[prev.len() as int] == l);
                    }
                }
            }
            if has_same_path(cur, x) {
                let q = choose|q: int| 0 <= q < cur.len() && same_path(cur[q], x);
                if q < prev.len() {
                    assert(cur[q] == prev[q]);
                    assert(has_same_path(prev, x));
                    assert(has_same_path(init, x));
                    let k = choose|k: int| 0 <= k < init.len() && same_path(init[k], x);
                    assert(paths[k] == init[k]);
                } else {
                    assert(cur[q] == l);
                    assert(same_path(paths[paths.len() - 1], x));
                }
            }
        }
        if !has_same_path(prev, l) {
            assert forall|i: int, j: int| 0 <= i < j < cur.len() implies
                !same_path(#[trigger] cur[i], #[trigger] cur[j]) by {
                if j == prev.len() {
                    assert(cur[i] == prev[i]);
                    assert(cur[j] == l);
                } else {
                    assert(cur[i] == prev[i] && cur[j] == prev[j]);
                }
            }
        }
    }
}

} // verus!
