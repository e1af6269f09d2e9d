//! Path algebra on character sequences.
//!
//! A version directory stores the file `/a/b/c` at `<root>/a/b/c`: the
//! absolute path with its leading slashes trimmed, joined onto the version
//! root. `layout_path` and `original_path` are the two directions of that
//! convention.
use vstd::prelude::*;

verus! {

/// Relies on `str::chars`, collected into a `Vec`: the characters of `s`, in order.
#[verifier::external_body]
pub(crate) fn chars_of(s: &str) -> (r: Vec<char>)
    ensures
        r@ == s@,
{
    s.chars().collect()
}

/// Relies on `String`'s `FromIterator<char>`: a string made of exactly these characters.
#[verifier::external_body]
pub(crate) fn string_of(c: &[char]) -> (r: String)
    ensures
        r@ == c@,
{
    c.iter().collect()
}

/// The character sequences of a list of strings.
pub open spec fn texts(v: Seq<String>) -> Seq<Seq<char>> {
    v.map_values(|s: String| s@)
}

/// The character sequence of an optional string.
pub open spec fn text_of(o: Option<String>) -> Option<Seq<char>> {
    match o {
        Some(s) => Some(s@),
        None => None,
    }
}

/// A path is absolute when it starts with `/`.
pub open spec fn is_absolute(s: Seq<char>) -> bool {
    s.len() > 0 && s[0] == '/'
}

/// `s` without its leading slashes.
pub open spec fn trim_slashes(s: Seq<char>) -> Seq<char>
    decreases s.len(),
{
    if s.len() > 0 && s[0] == '/' {
        trim_slashes(s.drop_first())
    } else {
        s
    }
}

/// Joining a path onto a base, as a path buffer pushes a component: an
/// absolute `rest` replaces the base, otherwise one separator is put between
/// them unless the base is empty or already ends with one.
pub open spec fn join(base: Seq<char>, rest: Seq<char>) -> Seq<char> {
    if is_absolute(rest) {
        rest
    } else if base.len() == 0 || base.last() == '/' {
        base + rest
    } else {
        base + seq!['/'] + rest
    }
}

/// Where a file is stored under a version root.
pub open spec fn layout(file: Seq<char>, root: Seq<char>) -> Seq<char> {
    join(root, trim_slashes(file))
}

/// The path that a stored file stands for: the stored path without the root
/// prefix, or nothing when the root is not a prefix.
pub open spec fn recover(stored: Seq<char>, root: Seq<char>) -> Option<Seq<char>> {
    if root.is_prefix_of(stored) {
        Some(stored.skip(root.len() as int))
    } else {
        None
    }
}

/// A file path that the layout convention can carry both ways: absolute,
/// with exactly one leading slash.
pub open spec fn single_rooted(p: Seq<char>) -> bool {
    is_absolute(p) && (p.len() == 1 || p[1] != '/')
}

/// A version root that the layout convention can carry both ways: not empty,
/// with no trailing slash.
pub open spec fn proper_root(r: Seq<char>) -> bool {
    r.len() > 0 && r.last() != '/'
}

proof fn lemma_trim_single_rooted(p: Seq<char>)
    requires
        single_rooted(p),
    ensures
        trim_slashes(p) == p.drop_first(),
        !is_absolute(trim_slashes(p)),
{
    let d = p.drop_first();
    assert(trim_slashes(p) == trim_slashes(d));
    if d.len() > 0 {
        assert(d[0] == p[1]);
    }
    assert(trim_slashes(d) == d);
}

/// The layout convention round-trips: a file with one leading slash, stored
/// under a root without a trailing slash, is recovered as the same path.
pub proof fn lemma_layout_round_trip(p: Seq<char>, r: Seq<char>)
    requires
        single_rooted(p),
        proper_root(r),
    ensures
        recover(layout(p, r), r) == Some(p),
{
    lemma_trim_single_rooted(p);
    let t = trim_slashes(p);
    let s = layout(p, r);
    assert(s == r + seq!['/'] + t);
    assert(r.is_prefix_of(s)) by {
        assert(s.subrange(0, r.len() as int) =~= r);
    }
    assert(s.skip(r.len() as int) =~= p);
}

/// Whether `p` is a prefix of `s`, as `str::starts_with` decides it.
pub(crate) fn starts_with_chars(s: &Vec<char>, p: &Vec<char>) -> (r: bool)
    ensures
        r == p@.is_prefix_of(s@),
{
    if p.len() > s.len() {
        return false;
    }
    let mut i: usize = 0;
    while i < p.len()
        invariant
            p@.len() <= s@.len(),
            i <= p@.len(),
            forall|k: int| 0 <= k < i ==> s@[k] == p@[k],
        decreases p.len() - i,
    {
        if s[i] != p[i] {
            assert(s@.subrange(0, p@.len() as int)[i as int] != p@[i as int]);
            return false;
        }
        i = i + 1;
    }
    assert(p@ =~= s@.subrange(0, p@.len() as int));
    true
}

/// Whether two character sequences are equal.
pub(crate) fn eq_chars(a: &Vec<char>, b: &Vec<char>) -> (r: bool)
    ensures
        r == (a@ == b@),
{
    if a.len() != b.len() {
        return false;
    }
    let r = starts_with_chars(a, b);
    proof {
        if r {
            assert(a@ =~= a@.subrange(0, b@.len() as int));
        }
    }
    r
}

/// The characters of `s` from index `a` up to index `b`.
pub(crate) fn slice_chars(s: &Vec<char>, a: usize, b: usize) -> (r: Vec<char>)
    requires
        a <= b <= s@.len(),
    ensures
        r@ == s@.subrange(a as int, b as int),
{
    let mut r: Vec<char> = Vec::new();
    let mut i: usize = a;
    while i < b
        invariant
            a <= i <= b <= s@.len(),
            r@ =~= s@.subrange(a as int, i as int),
        decreases b - i,
    {
        r.push(s[i]);
        i = i + 1;
    }
    r
}

/// The characters of `s` from index `n` on.
pub(crate) fn skip_chars(s: &Vec<char>, n: usize) -> (r: Vec<char>)
    requires
        n <= s@.len(),
    ensures
        r@ == s@.skip(n as int),
{
    let r = slice_chars(s, n, s.len());
    assert(r@ =~= s@.skip(n as int));
    r
}

/// Whether `p` is one of the strings of `v`.
pub(crate) fn contains_text(v: &Vec<String>, p: &Vec<char>) -> (r: bool)
    ensures
        r == texts(v@).contains(p@),
{
    let mut i: usize = 0;
    while i < v.len()
        invariant
            i <= v@.len(),
            forall|k: int| 0 <= k < i ==> v@[k]@ != p@,
        decreases v.len() - i,
    {
        let c = chars_of(v[i].as_str());
        if eq_chars(&c, p) {
            assert(texts(v@)[i as int] == p@);
            return true;
        }
        i = i + 1;
    }
    assert forall|k: int| 0 <= k < texts(v@).len() implies texts(v@)[k] != p@ by {
        assert(texts(v@)[k] == v@[k]@);
    }
    false
}

/// The concatenation of two character sequences.
pub(crate) fn concat_chars(a: &Vec<char>, b: &Vec<char>) -> (r: Vec<char>)
    ensures
        r@ == a@ + b@,
{
    let mut r: Vec<char> = Vec::new();
    let mut i: usize = 0;
    while i < a.len()
        invariant
            i <= a@.len(),
            r@ =~= a@.subrange(0, i as int),
        decreases a.len() - i,
    {
        r.push(a[i]);
        i = i + 1;
    }
    let mut j: usize = 0;
    while j < b.len()
        invariant
            i == a@.len(),
            j <= b@.len(),
            r@ =~= a@ + b@.subrange(0, j as int),
        decreases b.len() - j,
    {
        r.push(b[j]);
        j = j + 1;
    }
    assert(b@.subrange(0, j as int) =~= b@);
    r
}

proof fn lemma_trim_skip(s: Seq<char>, i: int)
    requires
        0 <= i <= s.len(),
        forall|k: int| 0 <= k < i ==> s[k] == '/',
    ensures
        trim_slashes(s) == trim_slashes(s.skip(i)),
    decreases i,
{
    if i > 0 {
        assert(s.skip(1) =~= s.drop_first());
        assert(s.drop_first().skip(i - 1) =~= s.skip(i));
        lemma_trim_skip(s.drop_first(), i - 1);
    } else {
        assert(s.skip(0) =~= s);
    }
}

/// `s` without its leading slashes.
pub(crate) fn trim_leading_slashes(s: &Vec<char>) -> (r: Vec<char>)
    ensures
        r@ == trim_slashes(s@),
{
    let mut i: usize = 0;
    while i < s.len() && s[i] == '/'
        invariant
            i <= s@.len(),
            forall|k: int| 0 <= k < i ==> s@[k] == '/',
        decreases s.len() - i,
    {
        i = i + 1;
    }
    proof {
        lemma_trim_skip(s@, i as int);
    }
    skip_chars(s, i)
}

/// `rest` joined onto `base` (see `join`).
pub(crate) fn join_chars(base: &Vec<char>, rest: &Vec<char>) -> (r: Vec<char>)
    ensures
        r@ == join(base@, rest@),
{
    if rest.len() > 0 && rest[0] == '/' {
        rest.clone()
    } else if base.len() == 0 || base[base.len() - 1] == '/' {
        concat_chars(base, rest)
    } else {
        let mut b = base.clone();
        b.push('/');
        concat_chars(&b, rest)
    }
}

/// Where `file` is stored under the version root `root`: the file's path with
/// its leading slashes trimmed, joined onto the root.
pub fn layout_path(file: &str, root: &str) -> (r: String)
    ensures
        r@ == layout(file@, root@),
{
    let f = chars_of(file);
    let t = trim_leading_slashes(&f);
    let j = join_chars(&chars_of(root), &t);
    string_of(j.as_slice())
}

/// The path that a file stored under `root` stands for: the stored path with
/// the root prefix removed once, or `None` when `root` is not its prefix.
pub fn original_path(stored: &str, root: &str) -> (r: Option<String>)
    ensures
        match recover(stored@, root@) {
            Some(p) => r is Some && r->0@ == p,
            None => r is None,
        },
{
    let s = chars_of(stored);
    let p = chars_of(root);
    if starts_with_chars(&s, &p) {
        let rest = skip_chars(&s, p.len());
        Some(string_of(rest.as_slice()))
    } else {
        None
    }
}

} // verus!
