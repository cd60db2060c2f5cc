//! Paths held as text, `/` between components, and their order.
use vstd::prelude::*;

use crate::strs::chars_of;

verus! {

/// Three-way comparison of two texts, character by character, a proper
/// prefix first: -1, 0 or 1.
pub open spec fn seq_cmp(a: Seq<char>, b: Seq<char>) -> int
    decreases a.len(),
{
    if a.len() == 0 {
        if b.len() == 0 {
            0
        } else {
            -1
        }
    } else if b.len() == 0 {
        1
    } else if (a[0] as int) < (b[0] as int) {
        -1
    } else if (a[0] as int) > (b[0] as int) {
        1
    } else {
        seq_cmp(a.drop_first(), b.drop_first())
    }
}

pub proof fn lemma_cmp_eq(a: Seq<char>, b: Seq<char>)
    ensures
        (seq_cmp(a, b) == 0) <==> (a == b),
        -1 <= seq_cmp(a, b) <= 1,
        seq_cmp(a, b) == -seq_cmp(b, a),
    decreases a.len(),
{
    if a.len() > 0 && b.len() > 0 {
        lemma_cmp_eq(a.drop_first(), b.drop_first());
        if (a[0] as int) == (b[0] as int) {
            assert(a[0] == b[0]);
            if a.drop_first() == b.drop_first() {
                assert(a =~= seq![a[0]] + a.drop_first());
                assert(b =~= seq![b[0]] + b.drop_first());
            }
        }
        if a == b {
            assert(a.drop_first() == b.drop_first());
        }
    } else if a.len() == 0 && b.len() == 0 {
        assert(a =~= b);
    }
}

pub proof fn lemma_cmp_trans(a: Seq<char>, b: Seq<char>, c: Seq<char>)
    requires
        seq_cmp(a, b) < 0,
        seq_cmp(b, c) < 0,
    ensures
        seq_cmp(a, c) < 0,
    decreases a.len(),
{
    if a.len() > 0 && b.len() > 0 && c.len() > 0 {
        if (a[0] as int) == (b[0] as int) && (b[0] as int) == (c[0] as int) {
            lemma_cmp_trans(a.drop_first(), b.drop_first(), c.drop_first());
        }
    }
}

proof fn lemma_cmp_skip(a: Seq<char>, b: Seq<char>, i: int)
    requires
        0 <= i <= a.len(),
        i <= b.len(),
        a.subrange(0, i) == b.subrange(0, i),
    ensures
        seq_cmp(a, b) == seq_cmp(a.subrange(i, a.len() as int), b.subrange(i, b.len() as int)),
    decreases i,
{
    if i > 0 {
        assert(a[0] == a.subrange(0, i)[0]);
        assert(b[0] == b.subrange(0, i)[0]);
        assert(a.drop_first().subrange(0, i - 1) =~= a.subrange(0, i).drop_first());
        assert(b.drop_first().subrange(0, i - 1) =~= b.subrange(0, i).drop_first());
        lemma_cmp_skip(a.drop_first(), b.drop_first(), i - 1);
        assert(a.drop_first().subrange(i - 1, a.len() - 1) =~= a.subrange(i, a.len() as int));
        assert(b.drop_first().subrange(i - 1, b.len() - 1) =~= b.subrange(i, b.len() as int));
    } else {
        assert(a.subrange(0, a.len() as int) =~= a);
        assert(b.subrange(0, b.len() as int) =~= b);
    }
}

/// Compares two paths as texts.
pub fn compare_paths(a: &str, b: &str) -> (r: i8)
    ensures
        r as int == seq_cmp(a@, b@),
{
    let x = chars_of(a);
    let y = chars_of(b);
    let n = x.len();
    let m = y.len();
    let mut i: usize = 0;
    while i < n && i < m && x[i] == y[i]
        invariant
            n == x@.len(),
            m == y@.len(),
            x@ == a@,
            y@ == b@,
            i <= n,
            i <= m,
            x@.subrange(0, i as int) == y@.subrange(0, i as int),
        decreases n - i,
    {
        proof {
            assert(x@.subrange(0, i + 1) =~= x@.subrange(0, i as int).push(x@[i as int]));
            assert(y@.subrange(0, i + 1) =~= y@.subrange(0, i as int).push(y@[i as int]));
        }
        i = i + 1;
    }
    proof {
        lemma_cmp_skip(x@, y@, i as int);
        let xs = x@.subrange(i as int, n as int);
        let ys = y@.subrange(i as int, m as int);
        if xs.len() > 0 && ys.len() > 0 {
            assert(xs[0] == x@[i as int]);
            assert(ys[0] == y@[i as int]);
            assert((x@[i as int] as int) != (y@[i as int] as int));
        }
    }
    if i == n {
        if i == m {
            0
        } else {
            -1
        }
    } else if i == m {
        1
    } else if x[i] < y[i] {
        -1
    } else {
        1
    }
}

/// The index of the last `/` of a path, or -1.
pub open spec fn last_slash(p: Seq<char>) -> int
    decreases p.len(),
{
    if p.len() == 0 {
        -1
    } else if p.last() == '/' {
        p.len() - 1
    } else {
        last_slash(p.drop_last())
    }
}

proof fn lemma_last_slash(p: Seq<char>)
    ensures
        -1 <= last_slash(p) < p.len(),
        last_slash(p) >= 0 ==> p[last_slash(p)] == '/',
        forall|j: int| last_slash(p) < j < p.len() ==> p[j] != '/',
    decreases p.len(),
{
    if p.len() > 0 {
        lemma_last_slash(p.drop_last());
        assert forall|j: int| last_slash(p) < j < p.len() implies p[j] != '/' by {
            if j < p.len() - 1 {
                assert(p[j] == p.drop_last()[j]);
            }
        }
    }
}

/// The length of a path once trailing `/` separators and trailing `.`
/// components are dropped: `a/b/` and `a/b/./` end where `a/b` does.
pub open spec fn trimmed_len(p: Seq<char>) -> int
    decreases p.len(),
{
    if p.len() > 0 && p.last() == '/' {
        trimmed_len(p.drop_last())
    } else if p.len() >= 2 && p.last() == '.' && p[p.len() - 2] == '/' {
        trimmed_len(p.drop_last())
    } else {
        p.len() as int
    }
}

proof fn lemma_trimmed_len(p: Seq<char>)
    ensures
        0 <= trimmed_len(p) <= p.len(),
        trimmed_len(p) == trimmed_len(p.subrange(0, trimmed_len(p))),
    decreases p.len(),
{
    if (p.len() > 0 && p.last() == '/') || (p.len() >= 2 && p.last() == '.' && p[p.len() - 2] == '/') {
        lemma_trimmed_len(p.drop_last());
        let t = trimmed_len(p);
        assert(p.drop_last().subrange(0, t) =~= p.subrange(0, t));
    } else {
        assert(p.subrange(0, p.len() as int) =~= p);
    }
}

/// The last component of a path, read as `std::path::Path::file_name`
/// reads it: what follows the last `/` once trailing separators and `.`
/// components are dropped; none when that is empty, `.` or `..` (as for
/// `/`, `.` or `a/..`).
pub open spec fn path_name(p: Seq<char>) -> Option<Seq<char>> {
    let t = p.subrange(0, trimmed_len(p));
    let seg = t.subrange(last_slash(t) + 1, t.len() as int);
    if seg.len() == 0 || seg == seq!['.'] || seg == seq!['.', '.'] {
        None
    } else {
        Some(seg)
    }
}

/// The label of a path: its last component, or the whole path when it has
/// none.
pub open spec fn display_name(p: Seq<char>) -> Seq<char> {
    match path_name(p) {
        Some(n) => n,
        None => p,
    }
}

/// The last component of a path, if it has one.
pub fn path_name_of(path: &str) -> (r: Option<String>)
    ensures
        r is Some <==> path_name(path@) is Some,
        r matches Some(s) ==> path_name(path@) == Some(s@),
{
    let cs = chars_of(path);
    let n = cs.len();
    let mut e: usize = n;
    proof {
        lemma_trimmed_len(path@);
        assert(cs@.subrange(0, n as int) =~= cs@);
    }
    while e > 0 && (cs[e - 1] == '/' || (e >= 2 && cs[e - 1] == '.' && cs[e - 2] == '/'))
        invariant
            n == cs@.len(),
            cs@ == path@,
            e <= n,
            trimmed_len(cs@) == trimmed_len(cs@.subrange(0, e as int)),
        decreases e,
    {
        proof {
            let t = cs@.subrange(0, e as int);
            assert(t.drop_last() =~= cs@.subrange(0, e - 1));
        }
        e = e - 1;
    }
    let ghost t = cs@.subrange(0, e as int);
    assert(trimmed_len(t) == e);
    let mut i: usize = e;
    proof {
        lemma_last_slash(t);
        assert(t.subrange(0, e as int) =~= t);
    }
    while i > 0 && cs[i - 1] != '/'
        invariant
            n == cs@.len(),
            e <= n,
            t == cs@.subrange(0, e as int),
            i <= e,
            last_slash(t) == last_slash(t.subrange(0, i as int)),
        decreases i,
    {
        proof {
            assert(t.subrange(0, i as int).drop_last() =~= t.subrange(0, i - 1));
        }
        i = i - 1;
    }
    proof {
        if i > 0 {
            assert(t.subrange(0, i as int).last() == '/');
        }
        assert(last_slash(t) + 1 == i);
    }
    let len = e - i;
    let seg = path.substring_char(i, e);
    proof {
        assert(seg@ =~= t.subrange(i as int, e as int));
    }
    if len == 0 || (len == 1 && cs[i] == '.') || (len == 2 && cs[i] == '.' && cs[i + 1] == '.') {
        proof {
            if len == 1 {
                assert(seg@ =~= seq!['.']);
            } else if len == 2 {
                assert(seg@ =~= seq!['.', '.']);
            }
        }
        None
    } else {
        proof {
            if seg@ == seq!['.'] {
                assert(seg@[0] == '.');
            }
            if seg@ == seq!['.', '.'] {
                assert(seg@[0] == '.' && seg@[1] == '.');
            }
        }
        Some(String::from_str(seg))
    }
}

/// The label of a path: its last component, or the whole path when it has
/// none.
pub fn name_of(path: &str) -> (r: String)
    ensures
        r@ == display_name(path@),
{
    match path_name_of(path) {
        Some(n) => n,
        None => String::from_str(path),
    }
}

/// A path without its trailing `/` separators.
pub open spec fn trim_slashes(p: Seq<char>) -> Seq<char>
    decreases p.len(),
{
    if p.len() > 0 && p.last() == '/' {
        trim_slashes(p.drop_last())
    } else {
        p
    }
}

fn trim_slashes_len(cs: &Vec<char>) -> (r: usize)
    ensures
        r <= cs@.len(),
        trim_slashes(cs@) == cs@.subrange(0, r as int),
{
    let mut e = cs.len();
    assert(cs@.subrange(0, e as int) =~= cs@);
    while e > 0 && cs[e - 1] == '/'
        invariant
            e <= cs@.len(),
            trim_slashes(cs@) == trim_slashes(cs@.subrange(0, e as int)),
        decreases e,
    {
        assert(cs@.subrange(0, e as int).drop_last() =~= cs@.subrange(0, e - 1));
        e = e - 1;
    }
    e
}

/// `path` read relative to `root`, as `Path::strip_prefix` reads it for
/// plain paths: what follows `root` and a `/`, or the empty text for `root`
/// itself; trailing `/` on either side does not count.
pub open spec fn relative_to(path: Seq<char>, root: Seq<char>) -> Option<Seq<char>> {
    let r = trim_slashes(root);
    if root.len() == 0 {
        Some(path)
    } else if trim_slashes(path) == r {
        Some(Seq::empty())
    } else if path.len() > r.len() && path.subrange(0, r.len() as int) == r && path[r.len() as int] == '/' {
        Some(path.subrange(r.len() as int + 1, path.len() as int))
    } else {
        None
    }
}

/// `path` relative to `root`, when `root` is `path` or one of its leading
/// directories.
pub fn strip_root(path: &str, root: &str) -> (r: Option<String>)
    ensures
        r is Some <==> relative_to(path@, root@) is Some,
        r matches Some(s) ==> relative_to(path@, root@) == Some(s@),
{
    let pc = chars_of(path);
    let rc = chars_of(root);
    if rc.len() == 0 {
        return Some(String::from_str(path));
    }
    let n = pc.len();
    let k = trim_slashes_len(&rc);
    let pk = trim_slashes_len(&pc);
    let rt = root.substring_char(0, k);
    if pk == k && crate::strs::str_eq(path.substring_char(0, pk), rt) {
        return Some(String::new());
    }
    proof {
        if trim_slashes(path@) == trim_slashes(root@) {
            assert(pk == k);
        }
    }
    if n <= k {
        return None;
    }
    let head = path.substring_char(0, k);
    if crate::strs::str_eq(head, rt) && path.get_char(k) == '/' {
        Some(String::from_str(path.substring_char(k + 1, n)))
    } else {
        None
    }
}

} // verus!
