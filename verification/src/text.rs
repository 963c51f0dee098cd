//! Character-level helpers on string slices: stripping, trimming, splitting
//! and comparing, each stated over the slice's sequence of characters.
use vstd::prelude::*;
use vstd::string::*;

verus! {

broadcast use vstd::string::group_string_axioms;

/// The Unicode `White_Space` property, which `str::trim` strips.
pub open spec fn is_unicode_whitespace(c: char) -> bool {
    let u = c as u32;
    ||| 0x09 <= u <= 0x0d
    ||| u == 0x20
    ||| u == 0x85
    ||| u == 0xa0
    ||| u == 0x1680
    ||| 0x2000 <= u <= 0x200a
    ||| u == 0x2028
    ||| u == 0x2029
    ||| u == 0x202f
    ||| u == 0x205f
    ||| u == 0x3000
}

/// `s` without the longest prefix of characters satisfying `p`.
pub open spec fn trim_start_by(s: Seq<char>, p: spec_fn(char) -> bool) -> Seq<char>
    decreases s.len(),
{
    if s.len() > 0 && p(s[0]) {
        trim_start_by(s.drop_first(), p)
    } else {
        s
    }
}

/// `s` without the longest suffix of characters satisfying `p`.
pub open spec fn trim_end_by(s: Seq<char>, p: spec_fn(char) -> bool) -> Seq<char>
    decreases s.len(),
{
    if s.len() > 0 && p(s.last()) {
        trim_end_by(s.drop_last(), p)
    } else {
        s
    }
}

/// `s` without its leading `/` characters.
pub open spec fn strip_leading_slashes(s: Seq<char>) -> Seq<char> {
    trim_start_by(s, |c: char| c == '/')
}

/// `s` without leading and trailing white space.
pub open spec fn trim_whitespace(s: Seq<char>) -> Seq<char> {
    trim_end_by(trim_start_by(s, |c: char| is_unicode_whitespace(c)), |c: char| is_unicode_whitespace(c))
}

/// `i` is the position of the first occurrence of `c` in `s`.
pub open spec fn is_first_index(s: Seq<char>, c: char, i: int) -> bool {
    &&& 0 <= i < s.len()
    &&& s[i] == c
    &&& forall|j: int| 0 <= j < i ==> s[j] != c
}

/// `s` split around the first occurrence of `c`, when `c` occurs in it.
pub open spec fn split_once(s: Seq<char>, c: char) -> Option<(Seq<char>, Seq<char>)> {
    if exists|i: int| is_first_index(s, c, i) {
        let i = choose|i: int| is_first_index(s, c, i);
        Some((s.take(i), s.skip(i + 1)))
    } else {
        None
    }
}

/// A character that occurs in `s` has a first occurrence.
pub proof fn lemma_first_index_exists(s: Seq<char>, c: char, i: int)
    requires
        0 <= i < s.len(),
        s[i] == c,
    ensures
        exists|k: int| is_first_index(s, c, k),
    decreases i,
{
    if exists|j: int| 0 <= j < i && s[j] == c {
        let j = choose|j: int| 0 <= j < i && s[j] == c;
        lemma_first_index_exists(s, c, j);
    } else {
        assert(is_first_index(s, c, i));
    }
}

/// The characters of `s`, in order.
pub fn chars_of(s: &str) -> (v: Vec<char>)
    ensures
        v@ == s@,
{
    let mut v: Vec<char> = Vec::new();
    for c in it: s.chars()
        invariant
            v@ == it.seq().take(it.index() as int),
            it.seq() == s@,
    {
        v.push(c);
    }
    v
}

/// Whether `c` has the Unicode `White_Space` property.
pub fn is_whitespace_char(c: char) -> (b: bool)
    ensures
        b == is_unicode_whitespace(c),
{
    let u = c as u32;
    (0x09 <= u && u <= 0x0d) || u == 0x20 || u == 0x85 || u == 0xa0 || u == 0x1680 || (0x2000
        <= u && u <= 0x200a) || u == 0x2028 || u == 0x2029 || u == 0x202f || u == 0x205f || u
        == 0x3000
}

proof fn lemma_trim_start_step(s: Seq<char>, i: int, p: spec_fn(char) -> bool)
    requires
        0 <= i < s.len(),
        p(s[i]),
    ensures
        trim_start_by(s.skip(i), p) == trim_start_by(s.skip(i + 1), p),
{
    assert(s.skip(i).drop_first() =~= s.skip(i + 1));
}

proof fn lemma_trim_end_step(s: Seq<char>, j: int, p: spec_fn(char) -> bool)
    requires
        0 < j <= s.len(),
        p(s[j - 1]),
    ensures
        trim_end_by(s.take(j), p) == trim_end_by(s.take(j - 1), p),
{
    assert(s.take(j).drop_last() =~= s.take(j - 1));
}

/// `s` without its leading `/` characters.
pub fn trim_leading_slashes(s: &str) -> (r: &str)
    ensures
        r@ == strip_leading_slashes(s@),
{
    let v = chars_of(s);
    let n = v.len();
    let ghost p = |c: char| c == '/';
    let mut i: usize = 0;
    assert(s@.skip(0) =~= s@);
    while i < n && v[i] == '/'
        invariant
            n == s@.len(),
            v@ == s@,
            i <= n,
            p == (|c: char| c == '/'),
            trim_start_by(s@, p) == trim_start_by(s@.skip(i as int), p),
        decreases n - i,
    {
        proof {
            lemma_trim_start_step(s@, i as int, p);
        }
        i = i + 1;
    }
    proof {
        let t = s@.skip(i as int);
        assert(t.len() == 0 || !p(t[0]));
    }
    s.substring_char(i, n)
}

/// `s` without leading and trailing white space, as `str::trim` returns it.
pub fn trim(s: &str) -> (r: &str)
    ensures
        r@ == trim_whitespace(s@),
{
    let v = chars_of(s);
    let n = v.len();
    let ghost p = |c: char| is_unicode_whitespace(c);
    let mut i: usize = 0;
    assert(s@.skip(0) =~= s@);
    while i < n && is_whitespace_char(v[i])
        invariant
            n == s@.len(),
            v@ == s@,
            i <= n,
            p == (|c: char| is_unicode_whitespace(c)),
            trim_start_by(s@, p) == trim_start_by(s@.skip(i as int), p),
        decreases n - i,
    {
        proof {
            lemma_trim_start_step(s@, i as int, p);
        }
        i = i + 1;
    }
    let ghost t = s@.skip(i as int);
    proof {
        assert(t.len() == 0 || !p(t[0]));
        assert(trim_start_by(s@, p) == t);
        assert(t.take(t.len() as int) =~= t);
    }
    let mut j: usize = n;
    while j > i && is_whitespace_char(v[j - 1])
        invariant
            n == s@.len(),
            v@ == s@,
            i <= j <= n,
            t == s@.skip(i as int),
            p == (|c: char| is_unicode_whitespace(c)),
            trim_end_by(t, p) == trim_end_by(t.take(j - i), p),
        decreases j,
    {
        proof {
            lemma_trim_end_step(t, j - i, p);
        }
        j = j - 1;
    }
    proof {
        let u = t.take(j - i);
        assert(u.len() == 0 || !p(u.last()));
        assert(u =~= s@.subrange(i as int, j as int));
    }
    s.substring_char(i, j)
}

/// `s` split around the first `/`, as `str::split_once('/')` returns it.
pub fn split_once_slash(s: &str) -> (r: Option<(&str, &str)>)
    ensures
        match split_once(s@, '/') {
            Some((a, b)) => r matches Some((x, y)) && x@ == a && y@ == b,
            None => r is None,
        },
{
    let v = chars_of(s);
    let n = v.len();
    let mut i: usize = 0;
    while i < n
        invariant
            n == s@.len(),
            v@ == s@,
            i <= n,
            forall|j: int| 0 <= j < i ==> s@[j] != '/',
        decreases n - i,
    {
        if v[i] == '/' {
            proof {
                assert(is_first_index(s@, '/', i as int));
                let k = choose|k: int| is_first_index(s@, '/', k);
                assert(k == i);
            }
            return Some((s.substring_char(0, i), s.substring_char(i + 1, n)));
        }
        i = i + 1;
    }
    None
}

/// Whether `a` and `b` hold the same characters.
pub fn str_eq(a: &str, b: &str) -> (r: bool)
    ensures
        r == (a@ == b@),
{
    let va = chars_of(a);
    let vb = chars_of(b);
    if va.len() != vb.len() {
        return false;
    }
    let mut i: usize = 0;
    while i < va.len()
        invariant
            va@ == a@,
            vb@ == b@,
            va.len() == vb.len(),
            i <= va.len(),
            forall|j: int| 0 <= j < i ==> a@[j] == b@[j],
        decreases va.len() - i,
    {
        if va[i] != vb[i] {
            return false;
        }
        i = i + 1;
    }
    assert(a@ =~= b@);
    true
}

} // verus!
