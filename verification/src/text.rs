//! Character-level helpers shared by the template engine and the catalog:
//! building strings from character vectors, locating delimiters, and the
//! derivation of logical names from file paths.

use vstd::prelude::*;
use vstd::string::StrSliceExecFns;

verus! {

/// The reserved environments-subdirectory marker, `/envs/`.
pub open spec fn env_marker() -> Seq<char> {
    seq!['/', 'e', 'n', 'v', 's', '/']
}

/// The extension stripped when deriving logical names, `.json`.
pub open spec fn json_suffix() -> Seq<char> {
    seq!['.', 'j', 's', 'o', 'n']
}

/// Remove `p` from the front of `s` when it is a prefix; otherwise leave `s`.
pub open spec fn strip_prefix(s: Seq<char>, p: Seq<char>) -> Seq<char> {
    if p.is_prefix_of(s) {
        s.skip(p.len() as int)
    } else {
        s
    }
}

/// Remove `p` from the back of `s` when it is a suffix; otherwise leave `s`.
pub open spec fn strip_suffix(s: Seq<char>, p: Seq<char>) -> Seq<char> {
    if p.is_suffix_of(s) {
        s.take(s.len() - p.len())
    } else {
        s
    }
}

/// The logical name of a discovered file: the path with the root directory
/// prefix removed, then either the `/envs/` marker (environment documents)
/// or the leading separator (request templates) removed, and finally the
/// `.json` extension removed.
pub open spec fn name_spec(path: Seq<char>, dir: Seq<char>) -> Seq<char> {
    let s = strip_prefix(path, dir);
    let t = if env_marker().is_prefix_of(s) {
        s.skip(env_marker().len() as int)
    } else {
        strip_prefix(s, seq!['/'])
    };
    strip_suffix(t, json_suffix())
}

/// Collect the characters of a string slice into a vector.
pub fn chars_of(s: &str) -> (r: Vec<char>)
    ensures
        r@ == s@,
{
    let n = s.unicode_len();
    let mut r: Vec<char> = Vec::new();
    let mut i: usize = 0;
    while i < n
        invariant
            i <= n,
            n == s@.len(),
            r@ == s@.take(i as int),
        decreases n - i,
    {
        let c = s.get_char(i);
        r.push(c);
        proof {
            assert(s@.take(i + 1 as int) =~= s@.take(i as int).push(c));
        }
        i = i + 1;
    }
    proof {
        assert(s@.take(n as int) =~= s@);
    }
    r
}

/// Relies on `String::push`: appends the given character to the end of the
/// string's character sequence.
#[verifier::external_body]
pub(crate) fn push_char(s: &mut String, c: char)
    ensures
        final(s)@ == old(s)@.push(c),
{
    s.push(c);
}

/// Append the characters `v[from..to]` to `out`.
pub fn append_range(out: &mut String, v: &Vec<char>, from: usize, to: usize)
    requires
        from <= to <= v@.len(),
    ensures
        final(out)@ == old(out)@ + v@.subrange(from as int, to as int),
{
    let mut i = from;
    proof {
        assert(out@ + v@.subrange(from as int, from as int) =~= out@);
    }
    while i < to
        invariant
            from <= i <= to <= v@.len(),
            out@ == old(out)@ + v@.subrange(from as int, i as int),
        decreases to - i,
    {
        push_char(out, v[i]);
        proof {
            assert(old(out)@ + v@.subrange(from as int, i + 1 as int) =~= (old(out)@
                + v@.subrange(from as int, i as int)).push(v@[i as int]));
        }
        i = i + 1;
    }
}

/// Build a string holding exactly the characters `v[from..to]`.
pub fn string_range(v: &Vec<char>, from: usize, to: usize) -> (r: String)
    requires
        from <= to <= v@.len(),
    ensures
        r@ == v@.subrange(from as int, to as int),
{
    let mut r = String::new();
    append_range(&mut r, v, from, to);
    proof {
        assert(Seq::<char>::empty() + v@.subrange(from as int, to as int) =~= v@.subrange(
            from as int,
            to as int,
        ));
    }
    r
}

/// Does the pattern `p` occur in `v` starting at position `at`?
pub fn matches_at(v: &Vec<char>, at: usize, p: &Vec<char>) -> (r: bool)
    requires
        at <= v@.len(),
    ensures
        r == p@.is_prefix_of(v@.skip(at as int)),
{
    let vl = v.len();
    let pl = p.len();
    if vl - at < pl {
        return false;
    }
    let mut i: usize = 0;
    while i < pl
        invariant
            vl == v@.len(),
            pl == p@.len(),
            at + pl <= vl,
            i <= pl,
            forall|k: int| 0 <= k < i ==> v@[at + k] == p@[k],
        decreases pl - i,
    {
        if v[at + i] != p[i] {
            proof {
                assert(v@.skip(at as int)[i as int] == v@[at + i]);
            }
            return false;
        }
        i = i + 1;
    }
    proof {
        assert(p@ =~= v@.skip(at as int).subrange(0, p@.len() as int));
    }
    true
}

/// The position of the first occurrence of `c` in `s` at or after `i`.
pub open spec fn find_char(s: Seq<char>, c: char, i: int) -> Option<int>
    decreases s.len() - i,
{
    if i < 0 || i >= s.len() {
        None
    } else if s[i] == c {
        Some(i)
    } else {
        find_char(s, c, i + 1)
    }
}

/// What `find_char` returns: the first position holding `c`, if any.
pub proof fn lemma_find_char(s: Seq<char>, c: char, i: int)
    requires
        0 <= i,
    ensures
        match find_char(s, c, i) {
            Some(j) => i <= j < s.len() && s[j] == c && (forall|k: int| i <= k < j ==> s[k] != c),
            None => forall|k: int| i <= k < s.len() ==> s[k] != c,
        },
    decreases s.len() - i,
{
    if i < s.len() && s[i] != c {
        lemma_find_char(s, c, i + 1);
    }
}

/// Scan `v[from..to]` for the character `c`, returning the first position.
pub fn find_char_in(v: &Vec<char>, c: char, from: usize, to: usize) -> (r: Option<usize>)
    requires
        from <= to <= v@.len(),
    ensures
        match r {
            Some(j) => from <= j < to && v@[j as int] == c && (forall|k: int|
                from <= k < j ==> v@[k] != c),
            None => forall|k: int| from <= k < to ==> v@[k] != c,
        },
{
    let mut i = from;
    while i < to
        invariant
            from <= i <= to <= v@.len(),
            forall|k: int| from <= k < i ==> v@[k] != c,
        decreases to - i,
    {
        if v[i] == c {
            return Some(i);
        }
        i = i + 1;
    }
    None
}

/// The position of the first occurrence of the two-character pattern `a b`
/// in `s` at or after `i`.
pub open spec fn find_pair(s: Seq<char>, a: char, b: char, i: int) -> Option<int>
    decreases s.len() - i,
{
    if i < 0 || i + 2 > s.len() {
        None
    } else if s[i] == a && s[i + 1] == b {
        Some(i)
    } else {
        find_pair(s, a, b, i + 1)
    }
}

/// What `find_pair` returns: the first position where the pattern stands.
pub proof fn lemma_find_pair(s: Seq<char>, a: char, b: char, i: int)
    requires
        0 <= i,
    ensures
        match find_pair(s, a, b, i) {
            Some(j) => i <= j && j + 2 <= s.len() && s[j] == a && s[j + 1] == b,
            None => true,
        },
    decreases s.len() - i,
{
    if i + 2 <= s.len() && !(s[i] == a && s[i + 1] == b) {
        lemma_find_pair(s, a, b, i + 1);
    }
}

/// Scan `v` for the two-character pattern `a b` from position `from` on.
pub fn find_pair_in(v: &Vec<char>, a: char, b: char, from: usize) -> (r: Option<usize>)
    requires
        from <= v@.len(),
    ensures
        match r {
            Some(j) => find_pair(v@, a, b, from as int) == Some(j as int),
            None => find_pair(v@, a, b, from as int) is None,
        },
{
    let n = v.len();
    if n < 2 {
        return None;
    }
    let mut i = from;
    while i <= n - 2
        invariant
            from <= i <= n,
            2 <= n == v@.len(),
            find_pair(v@, a, b, from as int) == find_pair(v@, a, b, i as int),
        decreases n - i,
    {
        if v[i] == a && v[i + 1] == b {
            return Some(i);
        }
        i = i + 1;
    }
    None
}

/// Is the character blank space, as tolerated around a placeholder's key?
pub open spec fn is_space(c: char) -> bool {
    c == ' ' || c == '\t' || c == '\r' || c == '\n'
}

/// The position of the first non-blank character in `s[a..b]`, or `b`.
pub open spec fn skip_front(s: Seq<char>, a: int, b: int) -> int
    decreases b - a,
{
    if a < b && is_space(s[a]) {
        skip_front(s, a + 1, b)
    } else {
        a
    }
}

/// The position after the last non-blank character in `s[a..b]`, or `a`.
pub open spec fn skip_back(s: Seq<char>, a: int, b: int) -> int
    decreases b - a,
{
    if a < b && is_space(s[b - 1]) {
        skip_back(s, a, b - 1)
    } else {
        b
    }
}

/// The delimited text with surrounding blank space removed.
pub open spec fn trim(s: Seq<char>) -> Seq<char> {
    let a = skip_front(s, 0, s.len() as int);
    let b = skip_back(s, a, s.len() as int);
    s.subrange(a, b)
}

/// Report whether the character is blank space.
pub fn space_check(c: char) -> (r: bool)
    ensures
        r == is_space(c),
{
    c == ' ' || c == '\t' || c == '\r' || c == '\n'
}

/// Narrow `v[x..y]` to the bounds of its blank-trimmed middle: the returned
/// pair delimits exactly `trim(v[x..y])`.
#[verifier::loop_isolation(false)]
pub fn trim_range(v: &Vec<char>, x: usize, y: usize) -> (r: (usize, usize))
    requires
        x <= y <= v@.len(),
    ensures
        x <= r.0 <= r.1 <= y,
        v@.subrange(r.0 as int, r.1 as int) == trim(v@.subrange(x as int, y as int)),
{
    let ghost sub = v@.subrange(x as int, y as int);
    let ghost l = sub.len() as int;
    let mut a = x;
    while a < y && space_check(v[a])
        invariant
            x <= a <= y,
            skip_front(sub, 0, l) == skip_front(sub, a - x, l),
        decreases y - a,
    {
        proof {
            assert(sub[a - x] == v@[a as int]);
        }
        a = a + 1;
    }
    proof {
        if a < y {
            assert(sub[a - x] == v@[a as int]);
        }
        assert(skip_front(sub, 0, l) == a - x);
    }
    let mut b = y;
    while b > a && space_check(v[b - 1])
        invariant
            a <= b <= y,
            skip_back(sub, a - x, l) == skip_back(sub, a - x, b - x),
        decreases b - a,
    {
        proof {
            assert(sub[b - x - 1] == v@[b - 1]);
        }
        b = b - 1;
    }
    proof {
        if b > a {
            assert(sub[b - x - 1] == v@[b - 1]);
        }
        assert(skip_back(sub, a - x, l) == b - x);
        assert(v@.subrange(a as int, b as int) =~= sub.subrange(a - x, b - x));
    }
    (a, b)
}

/// Compare the string `s` with the characters `v[from..to]`.
pub fn str_eq_range(s: &str, v: &Vec<char>, from: usize, to: usize) -> (r: bool)
    requires
        from <= to <= v@.len(),
    ensures
        r == (s@ == v@.subrange(from as int, to as int)),
{
    let n = s.unicode_len();
    if n != to - from {
        return false;
    }
    let mut i: usize = 0;
    while i < n
        invariant
            n == s@.len(),
            from + n == to,
            to <= v@.len(),
            i <= n,
            forall|k: int| 0 <= k < i ==> s@[k] == v@[from + k],
        decreases n - i,
    {
        if s.get_char(i) != v[from + i] {
            proof {
                assert(v@.subrange(from as int, to as int)[i as int] == v@[from + i]);
            }
            return false;
        }
        i = i + 1;
    }
    proof {
        assert(s@ =~= v@.subrange(from as int, to as int));
    }
    true
}

/// Derive the logical name of the file at `fpath` relative to the root
/// directory `dir`, as `name_spec` describes.
#[verifier::rlimit(50)]
pub fn derived_name(fpath: &str, dir: &str) -> (r: String)
    ensures
        r@ == name_spec(fpath@, dir@),
{
    let v = chars_of(fpath);
    let d = chars_of(dir);
    let mut em: Vec<char> = Vec::new();
    em.push('/');
    em.push('e');
    em.push('n');
    em.push('v');
    em.push('s');
    em.push('/');
    let mut js: Vec<char> = Vec::new();
    js.push('.');
    js.push('j');
    js.push('s');
    js.push('o');
    js.push('n');
    proof {
        assert(em@ =~= env_marker());
        assert(js@ =~= json_suffix());
        assert(v@.skip(0) =~= v@);
    }
    let n = v.len();
    let mut a: usize = 0;
    if matches_at(&v, 0, &d) {
        a = d.len();
    }
    let ghost s = strip_prefix(fpath@, dir@);
    proof {
        assert(v@.skip(a as int) =~= s);
    }
    let ghost t = if env_marker().is_prefix_of(s) {
        s.skip(env_marker().len() as int)
    } else {
        strip_prefix(s, seq!['/'])
    };
    if matches_at(&v, a, &em) {
        proof {
            assert(a + 6 <= n);
            assert(v@.skip(a as int).skip(6) =~= v@.skip(a + 6));
        }
        a = a + 6;
    } else if a < n && v[a] == '/' {
        proof {
            assert(s[0] == v@[a as int]);
            assert(seq!['/'] =~= s.subrange(0, 1));
            assert(seq!['/'].is_prefix_of(s));
            assert(v@.skip(a as int).skip(1) =~= v@.skip(a + 1));
        }
        a = a + 1;
    } else {
        proof {
            if seq!['/'].is_prefix_of(s) {
                assert(s[0] == v@[a as int]);
            }
        }
    }
    proof {
        assert(v@.skip(a as int) =~= t);
    }
    let mut b: usize = n;
    if n - a >= 5 && matches_at(&v, n - 5, &js) {
        proof {
            assert(t.subrange(t.len() - 5, t.len() as int) =~= v@.skip(n - 5 as int).subrange(
                0,
                5,
            ));
            assert(json_suffix().is_suffix_of(t));
            assert(t.take(t.len() - 5) =~= v@.subrange(a as int, n - 5));
        }
        b = n - 5;
    } else {
        proof {
            if json_suffix().is_suffix_of(t) {
                assert(t.len() >= 5);
                assert(json_suffix() =~= t.subrange(t.len() - 5, t.len() as int));
                assert(v@.skip(n - 5 as int).subrange(0, 5) =~= t.subrange(
                    t.len() - 5,
                    t.len() as int,
                ));
                assert(json_suffix().is_prefix_of(v@.skip(n - 5 as int)));
            }
            assert(t =~= v@.subrange(a as int, n as int));
        }
    }
    let r = string_range(&v, a, b);
    proof {
        assert(r@ =~= name_spec(fpath@, dir@));
    }
    r
}

} // verus!
