//! Slash-separated paths as character sequences: joining, containment by
//! whole components, and making a path relative to a root. Paths are
//! compared in their normal form, where a run of separators counts as one
//! and a trailing separator is dropped.
use vstd::prelude::*;

verus! {

/// `name` appended to `base` as one more component.
pub open spec fn join_path(base: Seq<char>, name: Seq<char>) -> Seq<char> {
    if base.len() == 0 {
        name
    } else if base.last() == '/' {
        base + name
    } else {
        base + seq!['/'] + name
    }
}

/// `p` with every run of separators collapsed into one.
pub open spec fn collapse(p: Seq<char>) -> Seq<char>
    decreases p.len(),
{
    if p.len() == 0 {
        Seq::empty()
    } else {
        let r = collapse(p.drop_last());
        if p.last() == '/' && r.len() > 0 && r.last() == '/' {
            r
        } else {
            r.push(p.last())
        }
    }
}

/// The normal form of `p`: separators collapsed, and a trailing separator
/// dropped unless the path is the root `/` itself.
pub open spec fn normalize(p: Seq<char>) -> Seq<char> {
    let c = collapse(p);
    if c.len() > 1 && c.last() == '/' {
        c.drop_last()
    } else {
        c
    }
}

/// Whether normal path `q` is normal path `b` or lies below it.
pub open spec fn prefix_within(b: Seq<char>, q: Seq<char>) -> bool {
    q == b || (0 < b.len() < q.len() && q.subrange(0, b.len() as int) == b && (q[b.len() as int]
        == '/' || b.last() == '/'))
}

/// Normal path `q` relative to normal path `b`, where it lies within `b`.
pub open spec fn strip_normal(b: Seq<char>, q: Seq<char>) -> Seq<char> {
    if q == b {
        Seq::empty()
    } else if q[b.len() as int] == '/' {
        q.subrange(b.len() as int + 1, q.len() as int)
    } else {
        q.subrange(b.len() as int, q.len() as int)
    }
}

/// Whether `p` is `base` or lies below it, comparing whole components.
pub open spec fn within(base: Seq<char>, p: Seq<char>) -> bool {
    prefix_within(normalize(base), normalize(p))
}

/// `p` relative to `root`, in normal form, when it lies within `root`; `p`
/// itself otherwise.
pub open spec fn strip_root(root: Seq<char>, p: Seq<char>) -> Seq<char> {
    if within(root, p) {
        strip_normal(normalize(root), normalize(p))
    } else {
        p
    }
}

pub fn same_str(a: &str, b: &str) -> (r: bool)
    ensures
        r == (a@ == b@),
{
    let x = a.to_owned();
    let y = b.to_owned();
    x == y
}

fn ends_with_slash(s: &str) -> (r: bool)
    ensures
        r == (s@.len() > 0 && s@.last() == '/'),
{
    let n = s.unicode_len();
    if n == 0 {
        false
    } else {
        s.get_char(n - 1) == '/'
    }
}

/// Joins `name` onto `base` as one more path component.
pub fn join(base: &str, name: &str) -> (r: String)
    ensures
        r@ == join_path(base@, name@),
{
    let mut r = base.to_owned();
    if base.unicode_len() != 0 && !ends_with_slash(base) {
        r.append("/");
        proof {
            reveal_strlit("/");
        }
    }
    r.append(name);
    assert(r@ =~= join_path(base@, name@));
    r
}

/// The normal form of `p`.
pub fn normalized(p: &str) -> (r: String)
    ensures
        r@ == normalize(p@),
{
    let n = p.unicode_len();
    let mut c = String::new();
    let mut count: usize = 0;
    let mut last_slash = false;
    let mut i: usize = 0;
    while i < n
        invariant
            i <= n,
            n == p@.len(),
            c@ == collapse(p@.subrange(0, i as int)),
            count == c@.len(),
            count <= i,
            last_slash == (c@.len() > 0 && c@.last() == '/'),
        decreases n - i,
    {
        let ch = p.get_char(i);
        assert(p@.subrange(0, i + 1).drop_last() =~= p@.subrange(0, i as int));
        if !(ch == '/' && last_slash) {
            let one = p.substring_char(i, i + 1);
            assert(one@ =~= seq![ch]);
            c.append(one);
            count = count + 1;
            last_slash = ch == '/';
        }
        i = i + 1;
        assert(c@ =~= collapse(p@.subrange(0, i as int)));
    }
    assert(p@.subrange(0, n as int) =~= p@);
    if count > 1 && last_slash {
        let r = c.as_str().substring_char(0, count - 1).to_owned();
        assert(r@ =~= normalize(p@));
        r
    } else {
        c
    }
}

fn normal_within(b: &str, q: &str) -> (r: bool)
    ensures
        r == prefix_within(b@, q@),
{
    if same_str(b, q) {
        return true;
    }
    let bl = b.unicode_len();
    let ql = q.unicode_len();
    if bl == 0 || bl >= ql {
        return false;
    }
    let prefix = q.substring_char(0, bl);
    if !same_str(prefix, b) {
        return false;
    }
    q.get_char(bl) == '/' || ends_with_slash(b)
}

/// Whether `p` is `base` or lies below it.
pub fn is_within(base: &str, p: &str) -> (r: bool)
    ensures
        r == within(base@, p@),
{
    let b = normalized(base);
    let q = normalized(p);
    normal_within(b.as_str(), q.as_str())
}

/// `p` made relative to `root`; a path outside `root` is left as it is.
pub fn strip(root: &str, p: &str) -> (r: String)
    ensures
        r@ == strip_root(root@, p@),
{
    let b = normalized(root);
    let q = normalized(p);
    if !normal_within(b.as_str(), q.as_str()) {
        return p.to_owned();
    }
    if same_str(q.as_str(), b.as_str()) {
        return String::new();
    }
    let bl = b.unicode_len();
    let ql = q.unicode_len();
    let start = if q.get_char(bl) == '/' {
        bl + 1
    } else {
        bl
    };
    q.as_str().substring_char(start, ql).to_owned()
}

/// Whether character `a` sorts before character `b` in a path: the separator
/// comes first, the other characters follow by code.
pub open spec fn char_before(a: char, b: char) -> bool {
    if a == '/' {
        b != '/'
    } else if b == '/' {
        false
    } else {
        a < b
    }
}

/// The order of paths: lexicographic, with the separator before every other
/// character, so that paths compare component by component.
pub open spec fn path_less(a: Seq<char>, b: Seq<char>) -> bool
    decreases a.len(),
{
    if a.len() == 0 {
        b.len() > 0
    } else if b.len() == 0 {
        false
    } else if a[0] != b[0] {
        char_before(a[0], b[0])
    } else {
        path_less(a.drop_first(), b.drop_first())
    }
}

/// The order of paths is transitive.
pub proof fn lemma_path_less_transitive(a: Seq<char>, b: Seq<char>, c: Seq<char>)
    requires
        path_less(a, b),
        path_less(b, c),
    ensures
        path_less(a, c),
    decreases a.len(),
{
    if a.len() > 0 && b.len() > 0 && c.len() > 0 && a[0] == b[0] && b[0] == c[0] {
        lemma_path_less_transitive(a.drop_first(), b.drop_first(), c.drop_first());
    }
}

/// Of two distinct paths, one comes before the other.
pub proof fn lemma_path_less_total(a: Seq<char>, b: Seq<char>)
    requires
        a != b,
    ensures
        path_less(a, b) || path_less(b, a),
    decreases a.len(),
{
    if a.len() > 0 && b.len() > 0 && a[0] == b[0] {
        assert(a =~= seq![a[0]] + a.drop_first());
        assert(b =~= seq![b[0]] + b.drop_first());
        lemma_path_less_total(a.drop_first(), b.drop_first());
    } else if a.len() == 0 && b.len() == 0 {
        assert(a =~= b);
    }
}

/// Whether path `a` comes before path `b`.
pub fn path_precedes(a: &str, b: &str) -> (r: bool)
    ensures
        r == path_less(a@, b@),
{
    let al = a.unicode_len();
    let bl = b.unicode_len();
    let mut i: usize = 0;
    assert(a@.skip(0) =~= a@);
    assert(b@.skip(0) =~= b@);
    while i < al && i < bl
        invariant
            i <= al,
            i <= bl,
            al == a@.len(),
            bl == b@.len(),
            path_less(a@, b@) == path_less(a@.skip(i as int), b@.skip(i as int)),
        decreases al - i,
    {
        let ca = a.get_char(i);
        let cb = b.get_char(i);
        if ca != cb {
            return if ca == '/' {
                true
            } else if cb == '/' {
                false
            } else {
                ca < cb
            };
        }
        assert(a@.skip(i as int).drop_first() =~= a@.skip(i + 1));
        assert(b@.skip(i as int).drop_first() =~= b@.skip(i + 1));
        i = i + 1;
    }
    i == al && i < bl
}

} // verus!
