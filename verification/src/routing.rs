//! Which upstream alias a request names, and what path it forwards.
use vstd::prelude::*;
use crate::text::{
    is_first_index, is_unicode_whitespace, lemma_first_index_exists, split_once,
    split_once_slash, strip_leading_slashes, trim, trim_end_by, trim_leading_slashes,
    trim_start_by, trim_whitespace,
};
use vstd::string::StrSliceExecFns;

verus! {

/// Header that names the proxy target, in place of the path's first segment.
pub const HOST_HEADER_NAME: &'static str = "x-bouncer-host";

/// The view of an optional pair of string slices.
pub open spec fn pair_view(r: Option<(&str, &str)>) -> Option<(Seq<char>, Seq<char>)> {
    match r {
        Some((a, b)) => Some((a@, b@)),
        None => None,
    }
}

/// The view of an optional string slice.
pub open spec fn opt_str_view(s: Option<&str>) -> Option<Seq<char>> {
    match s {
        Some(x) => Some(x@),
        None => None,
    }
}

/// Path-based routing: the first segment after the leading slashes is the
/// alias, the rest after the next `/` is forwarded; no segment, no route.
pub open spec fn spec_split_path(path: Seq<char>) -> Option<(Seq<char>, Seq<char>)> {
    let t = strip_leading_slashes(path);
    if t.len() == 0 {
        None
    } else {
        match split_once(t, '/') {
            Some(parts) => Some(parts),
            None => Some((t, Seq::empty())),
        }
    }
}

/// A non-blank host header names the alias (trimmed) and the whole path,
/// without its leading slashes, is forwarded; otherwise the path decides.
pub open spec fn spec_extract_alias(path: Seq<char>, host_header: Option<Seq<char>>) -> Option<
    (Seq<char>, Seq<char>),
> {
    if host_header is Some && trim_whitespace(host_header->0).len() > 0 {
        Some((trim_whitespace(host_header->0), strip_leading_slashes(path)))
    } else {
        spec_split_path(path)
    }
}

fn split_path(path: &str) -> (r: Option<(&str, &str)>)
    ensures
        pair_view(r) == spec_split_path(path@),
{
    let trimmed = trim_leading_slashes(path);
    if trimmed.is_empty() {
        return None;
    }
    match split_once_slash(trimmed) {
        Some((alias, rest)) => Some((alias, rest)),
        None => {
            let empty = trimmed.substring_char(0, 0);
            Some((trimmed, empty))
        },
    }
}

/// The alias a request names and the path to forward, from the request path
/// and the optional `x-bouncer-host` header value.
pub fn extract_alias<'a>(
    path: &'a str,
    host_header: Option<&'a str>,
) -> (r: Option<(&'a str, &'a str)>)
    ensures
        pair_view(r) == spec_extract_alias(path@, opt_str_view(host_header)),
{
    if let Some(header) = host_header {
        let alias = trim(header);
        if !alias.is_empty() {
            return Some((alias, trim_leading_slashes(path)));
        }
    }
    split_path(path)
}

proof fn lemma_trim_start_shape(s: Seq<char>, p: spec_fn(char) -> bool)
    ensures
        exists|k: int| 0 <= k <= s.len() && trim_start_by(s, p) == s.skip(k),
        trim_start_by(s, p).len() == 0 || !p(trim_start_by(s, p)[0]),
    decreases s.len(),
{
    if s.len() > 0 && p(s[0]) {
        lemma_trim_start_shape(s.drop_first(), p);
        let k = choose|k: int|
            0 <= k <= s.drop_first().len() && trim_start_by(s.drop_first(), p) == s.drop_first().skip(k);
        assert(s.drop_first().skip(k) =~= s.skip(k + 1));
    } else {
        assert(s.skip(0) =~= s);
    }
}

proof fn lemma_trim_end_shape(s: Seq<char>, p: spec_fn(char) -> bool)
    ensures
        exists|k: int| 0 <= k <= s.len() && trim_end_by(s, p) == s.take(k),
        trim_end_by(s, p).len() == 0 || !p(trim_end_by(s, p).last()),
    decreases s.len(),
{
    if s.len() > 0 && p(s.last()) {
        lemma_trim_end_shape(s.drop_last(), p);
        let k = choose|k: int|
            0 <= k <= s.drop_last().len() && trim_end_by(s.drop_last(), p) == s.drop_last().take(k);
        assert(s.drop_last().take(k) =~= s.take(k));
    } else {
        assert(s.take(s.len() as int) =~= s);
    }
}

/// A blank or absent host header both route by the path: blank means absent.
pub proof fn law_blank_header_means_absent(path: Seq<char>, header: Seq<char>)
    requires
        trim_whitespace(header).len() == 0,
    ensures
        spec_extract_alias(path, Some(header)) == spec_extract_alias(path, None),
{
}

/// A header-named alias is non-empty and carries no surrounding white space,
/// and the path it forwards never starts with `/`.
pub proof fn law_header_route_shape(path: Seq<char>, header: Seq<char>)
    requires
        trim_whitespace(header).len() > 0,
    ensures
        spec_extract_alias(path, Some(header)) matches Some((alias, rest)) && {
            &&& alias.len() > 0
            &&& !is_unicode_whitespace(alias[0])
            &&& !is_unicode_whitespace(alias.last())
            &&& (rest.len() == 0 || rest[0] != '/')
        },
{
    let p = |c: char| is_unicode_whitespace(c);
    let a = trim_start_by(header, p);
    lemma_trim_start_shape(header, p);
    lemma_trim_end_shape(a, p);
    let k = choose|k: int| 0 <= k <= a.len() && trim_end_by(a, p) == a.take(k);
    assert(trim_whitespace(header) == a.take(k));
    assert(a.take(k)[0] == a[0]);
    lemma_trim_start_shape(path, |c: char| c == '/');
}

/// A path-named alias is one non-empty segment without `/`; the path without
/// its leading slashes is the alias, or the alias, `/` and the forwarded rest.
pub proof fn law_path_route_shape(path: Seq<char>)
    ensures
        spec_split_path(path) matches Some((alias, rest)) ==> {
            &&& alias.len() > 0
            &&& forall|i: int| 0 <= i < alias.len() ==> alias[i] != '/'
            &&& strip_leading_slashes(path) == alias + seq!['/'] + rest || (rest.len() == 0
                && strip_leading_slashes(path) == alias)
        },
{
    let t = strip_leading_slashes(path);
    lemma_trim_start_shape(path, |c: char| c == '/');
    if t.len() > 0 {
        if exists|i: int| is_first_index(t, '/', i) {
            let i = choose|i: int| is_first_index(t, '/', i);
            assert(i != 0);
            assert(t =~= t.take(i) + seq!['/'] + t.skip(i + 1));
        } else {
            assert forall|i: int| 0 <= i < t.len() implies t[i] != '/' by {
                if t[i] == '/' {
                    lemma_first_index_exists(t, '/', i);
                }
            }
        }
    }
}

/// Path routing finds a target whenever the path is more than slashes: the
/// alias is the whole first segment after the leading slashes (non-empty,
/// without `/`), and the forwarded path is everything after the `/` that ends
/// it, or nothing when the segment runs to the end.
pub proof fn law_path_route_found(path: Seq<char>)
    requires
        strip_leading_slashes(path).len() > 0,
    ensures
        spec_extract_alias(path, None) matches Some((alias, rest)) && {
            let t = strip_leading_slashes(path);
            &&& 0 < alias.len() <= t.len()
            &&& alias == t.take(alias.len() as int)
            &&& forall|i: int| 0 <= i < alias.len() ==> alias[i] != '/'
            &&& if alias.len() == t.len() {
                rest.len() == 0
            } else {
                t[alias.len() as int] == '/' && rest == t.skip(alias.len() as int + 1)
            }
        },
{
    let t = strip_leading_slashes(path);
    lemma_trim_start_shape(path, |c: char| c == '/');
    if exists|i: int| is_first_index(t, '/', i) {
        let i = choose|i: int| is_first_index(t, '/', i);
        assert(i != 0);
        assert(t.take(i).take(i) =~= t.take(i));
    } else {
        assert forall|i: int| 0 <= i < t.len() implies t[i] != '/' by {
            if t[i] == '/' {
                lemma_first_index_exists(t, '/', i);
            }
        }
        assert(t.take(t.len() as int) =~= t);
    }
}

} // verus!
