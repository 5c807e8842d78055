//! Decisions of the WebDAV front-end: authentication, browser detection and the
//! mapping of request paths to cache paths.
use vstd::prelude::*;
use vstd::utf8::encode_utf8;

use crate::percent::{lossy_text, percent_decode, percent_decoded};
use crate::text::{chars_of, push_char, push_str, same_text};

verus! {

/// The challenge sent with a 401.
pub const AUTH_CHALLENGE: &'static str = "Basic realm=\"quarkdrive-webdav\"";

/// Whether `needle` occurs in `hay` starting at `i`.
pub open spec fn occurs_at(hay: Seq<char>, needle: Seq<char>, i: int) -> bool {
    0 <= i && i + needle.len() <= hay.len() && hay.subrange(i, i + needle.len()) == needle
}

/// Whether `needle` occurs anywhere in `hay`.
pub open spec fn contains_text(hay: Seq<char>, needle: Seq<char>) -> bool {
    exists|i: int| occurs_at(hay, needle, i)
}

/// Whether `needle` occurs in `hay`.
pub fn find_text(hay: &str, needle: &str) -> (r: bool)
    ensures
        r == contains_text(hay@, needle@),
{
    let h = chars_of(hay);
    let n = chars_of(needle);
    if n.len() > h.len() {
        assert forall|i: int| !occurs_at(hay@, needle@, i) by {}
        return false;
    }
    let hl = h.len();
    let last = hl - n.len();
    let mut i: usize = 0;
    loop
        invariant
            h@ == hay@,
            n@ == needle@,
            hl == h@.len(),
            last == h@.len() - n@.len(),
            n@.len() <= h@.len(),
            i <= last,
            forall|j: int| 0 <= j < i ==> !occurs_at(hay@, needle@, j),
        decreases last - i,
    {
        let mut k: usize = 0;
        let mut same = true;
        while k < n.len()
            invariant
                h@ == hay@,
                n@ == needle@,
                hl == h@.len(),
                i <= last,
                last == h@.len() - n@.len(),
                k <= n@.len(),
                same == (forall|j: int| 0 <= j < k ==> h@[i + j] == n@[j]),
            decreases n.len() - k,
        {
            if h[i + k] != n[k] {
                same = false;
            }
            k = k + 1;
        }
        if same {
            assert(hay@.subrange(i as int, i + needle@.len()) =~= needle@);
            assert(occurs_at(hay@, needle@, i as int));
            return true;
        }
        proof {
            let j0 = choose|j: int| 0 <= j < n@.len() && h@[i + j] != n@[j];
            assert(hay@.subrange(i as int, i + needle@.len())[j0] != needle@[j0]);
        }
        if i == last {
            assert forall|j: int| !occurs_at(hay@, needle@, j) by {
                if 0 <= j && j + needle@.len() <= hay@.len() {
                    assert(j <= i);
                }
            }
            return false;
        }
        i = i + 1;
    }
}

/// A request is a browser page view when it is a `GET` whose `Accept` header
/// names `text/html`.
pub open spec fn browser_request(method: Seq<char>, accept: Option<Seq<char>>) -> bool {
    &&& method == "GET"@
    &&& accept matches Some(a)
    &&& contains_text(accept->0, "text/html"@)
}

/// Detects a browser page view; `accept` is the `Accept` header as text, if
/// the request has one that is text.
pub fn is_browser_request(method: &str, accept: Option<&str>) -> (r: bool)
    ensures
        r == browser_request(method@, match accept {
            Some(a) => Some(a@),
            None => None,
        }),
{
    if !same_text(method, "GET") {
        return false;
    }
    match accept {
        Some(a) => find_text(a, "text/html"),
        None => false,
    }
}

/// `s` without trailing `/`.
pub open spec fn trim_end_slashes(s: Seq<char>) -> Seq<char>
    decreases s.len(),
{
    if s.len() > 0 && s.last() == '/' {
        trim_end_slashes(s.drop_last())
    } else {
        s
    }
}

/// `s` without leading `/`.
pub open spec fn trim_start_slashes(s: Seq<char>) -> Seq<char>
    decreases s.len(),
{
    if s.len() > 0 && s[0] == '/' {
        trim_start_slashes(s.skip(1))
    } else {
        s
    }
}

/// `s` without `prefix` when it starts with it, else `s`.
pub open spec fn strip_prefix_or_keep(s: Seq<char>, prefix: Seq<char>) -> Seq<char> {
    if s.len() >= prefix.len() && s.take(prefix.len() as int) == prefix {
        s.skip(prefix.len() as int)
    } else {
        s
    }
}

/// `p` appended to the directory `base` as a path: an absolute `p` replaces
/// `base`; otherwise one `/` separates them unless `base` is empty or ends with
/// one.
pub open spec fn joined(base: Seq<char>, p: Seq<char>) -> Seq<char> {
    if p.len() > 0 && p[0] == '/' {
        p
    } else if base.len() == 0 || base.last() == '/' {
        base + p
    } else {
        base + seq!['/'] + p
    }
}

/// The request path with the configured prefix removed and its outer slashes
/// trimmed, still percent-encoded.
pub open spec fn trimmed_request_path(strip_prefix: Option<Seq<char>>, req_path: Seq<char>) -> Seq<char> {
    let p = match strip_prefix {
        Some(prefix) => strip_prefix_or_keep(req_path, trim_end_slashes(prefix)),
        None => req_path,
    };
    trim_end_slashes(trim_start_slashes(p))
}

/// The cache path for a request path, given its decoded remainder.
pub open spec fn fs_path_from(root: Seq<char>, decoded: Seq<char>) -> Seq<char> {
    if decoded.len() == 0 {
        root
    } else {
        joined(root, decoded)
    }
}

pub(crate) fn trim_slashes(s: &str) -> (r: String)
    ensures
        r@ == trim_end_slashes(trim_start_slashes(s@)),
{
    let v = chars_of(s);
    let mut start: usize = 0;
    assert(v@.skip(0) =~= v@);
    while start < v.len() && v[start] == '/'
        invariant
            v@ == s@,
            start <= v@.len(),
            trim_start_slashes(s@) == trim_start_slashes(v@.skip(start as int)),
        decreases v.len() - start,
    {
        assert(v@.skip(start as int).skip(1) =~= v@.skip(start + 1));
        start = start + 1;
    }
    let mut end: usize = v.len();
    assert(v@.skip(start as int) =~= v@.subrange(start as int, end as int));
    while end > start && v[end - 1] == '/'
        invariant
            v@ == s@,
            start <= end <= v@.len(),
            trim_end_slashes(trim_start_slashes(s@)) == trim_end_slashes(v@.subrange(start as int, end as int)),
        decreases end,
    {
        assert(v@.subrange(start as int, end as int).drop_last() =~= v@.subrange(start as int, end - 1));
        end = end - 1;
    }
    let mut out = String::new();
    let mut i: usize = start;
    while i < end
        invariant
            start <= i <= end,
            end <= v@.len(),
            out@ == v@.subrange(start as int, i as int),
        decreases end - i,
    {
        push_char(&mut out, v[i]);
        i = i + 1;
        assert(out@ =~= v@.subrange(start as int, i as int));
    }
    proof {
        if start < v@.len() {
            assert(trim_start_slashes(v@.skip(start as int)) == v@.skip(start as int));
        } else {
            assert(v@.skip(start as int) =~= seq![]);
        }
        if end > start {
            assert(v@.subrange(start as int, end as int).last() == v@[end - 1]);
        }
    }
    out
}

fn trim_end_slashes_of(s: &str) -> (r: String)
    ensures
        r@ == trim_end_slashes(s@),
{
    let v = chars_of(s);
    let mut end: usize = v.len();
    assert(v@.take(end as int) =~= v@);
    while end > 0 && v[end - 1] == '/'
        invariant
            v@ == s@,
            end <= v@.len(),
            trim_end_slashes(s@) == trim_end_slashes(v@.take(end as int)),
        decreases end,
    {
        assert(v@.take(end as int).drop_last() =~= v@.take(end - 1));
        end = end - 1;
    }
    let mut out = String::new();
    let mut i: usize = 0;
    while i < end
        invariant
            i <= end,
            end <= v@.len(),
            out@ == v@.take(i as int),
        decreases end - i,
    {
        push_char(&mut out, v[i]);
        i = i + 1;
        assert(out@ =~= v@.take(i as int));
    }
    proof {
        if end > 0 {
            assert(v@.take(end as int).last() == v@[end - 1]);
        }
    }
    out
}

fn strip_or_keep(s: &str, prefix: &str) -> (r: String)
    ensures
        r@ == strip_prefix_or_keep(s@, prefix@),
{
    let v = chars_of(s);
    let p = chars_of(prefix);
    let mut matches = p.len() <= v.len();
    let mut k: usize = 0;
    if matches {
        while k < p.len()
            invariant
                v@ == s@,
                p@ == prefix@,
                p@.len() <= v@.len(),
                k <= p@.len(),
                matches == (forall|j: int| 0 <= j < k ==> v@[j] == p@[j]),
            decreases p.len() - k,
        {
            if v[k] != p[k] {
                matches = false;
            }
            k = k + 1;
        }
    }
    let start: usize = if matches {
        p.len()
    } else {
        0
    };
    proof {
        if matches {
            assert(v@.take(p@.len() as int) =~= p@);
        } else if p@.len() <= v@.len() {
            let j0 = choose|j: int| 0 <= j < p@.len() && v@[j] != p@[j];
            assert(v@.take(p@.len() as int)[j0] != p@[j0]);
        }
    }
    let mut out = String::new();
    let mut i: usize = start;
    while i < v.len()
        invariant
            start <= i <= v@.len(),
            out@ == v@.subrange(start as int, i as int),
        decreases v.len() - i,
    {
        push_char(&mut out, v[i]);
        i = i + 1;
        assert(out@ =~= v@.subrange(start as int, i as int));
    }
    assert(v@.subrange(0, v@.len() as int) =~= v@);
    out
}

fn join_path(base: &str, p: &str) -> (r: String)
    ensures
        r@ == joined(base@, p@),
{
    let pv = chars_of(p);
    if pv.len() > 0 && pv[0] == '/' {
        return String::from_str(p);
    }
    let bv = chars_of(base);
    let mut out = String::from_str(base);
    if !(bv.len() == 0 || bv[bv.len() - 1] == '/') {
        push_char(&mut out, '/');
    }
    push_str(&mut out, p);
    assert(out@ =~= joined(base@, p@));
    out
}

/// Maps a request path to the cache path: the configured prefix is removed,
/// outer slashes trimmed, `%XX` escapes decoded, and the result placed under
/// `root` (`/` maps the remote top directly).
pub fn compute_fs_path(strip_prefix: Option<&str>, root: &str, req_path: &str) -> (r: String)
    ensures
        r@ == fs_path_from(
            root@,
            lossy_text(
                percent_decoded(
                    encode_utf8(
                        trimmed_request_path(
                            match strip_prefix {
                                Some(x) => Some(x@),
                                None => None,
                            },
                            req_path@,
                        ),
                    ),
                ),
            ),
        ),
{
    let stripped = match strip_prefix {
        Some(prefix) => {
            let prefix = trim_end_slashes_of(prefix);
            strip_or_keep(req_path, prefix.as_str())
        },
        None => String::from_str(req_path),
    };
    let trimmed = trim_slashes(stripped.as_str());
    let decoded = percent_decode(trimmed.as_str());
    if decoded.as_str().unicode_len() == 0 {
        String::from_str(root)
    } else {
        join_path(root, decoded.as_str())
    }
}

/// What authentication decided for a request.
pub enum AuthOutcome {
    /// No credentials are configured; anyone may pass.
    Open,
    /// The credentials matched; the user name.
    Principal(String),
    /// Credentials are required and were missing or wrong: answer 401.
    Challenge,
}

/// Basic authentication: required only when both a user and a password are
/// configured, and then passed only by exactly those.
pub fn authorize(
    auth_user: Option<&str>,
    auth_password: Option<&str>,
    given: Option<(&str, &str)>,
) -> (r: AuthOutcome)
    ensures
        match (auth_user, auth_password) {
            (Some(u), Some(p)) => match given {
                Some((gu, gp)) => if gu@ == u@ && gp@ == p@ {
                    r matches AuthOutcome::Principal(name) && name@ == u@
                } else {
                    r is Challenge
                },
                None => r is Challenge,
            },
            _ => r is Open,
        },
{
    match (auth_user, auth_password) {
        (Some(u), Some(p)) => match given {
            Some((gu, gp)) => {
                if same_text(gu, u) && same_text(gp, p) {
                    AuthOutcome::Principal(String::from_str(gu))
                } else {
                    AuthOutcome::Challenge
                }
            },
            None => AuthOutcome::Challenge,
        },
        _ => AuthOutcome::Open,
    }
}

/// How a request is served.
pub enum Route {
    /// Answer 401 with `AUTH_CHALLENGE`.
    Unauthorized,
    /// Try the HTML index first, then the WebDAV handler; with the principal.
    Page(Option<String>),
    /// Hand to the WebDAV handler; with the principal.
    Dav(Option<String>),
}

/// Routes a request from its authentication outcome and browser detection.
pub fn route_request(auth: AuthOutcome, browser: bool) -> (r: Route)
    ensures
        auth is Challenge ==> r is Unauthorized,
        auth is Open ==> (if browser {
            r matches Route::Page(None)
        } else {
            r matches Route::Dav(None)
        }),
        auth matches AuthOutcome::Principal(u) ==> (if browser {
            r matches Route::Page(Some(v)) && v == u
        } else {
            r matches Route::Dav(Some(v)) && v == u
        }),
{
    let principal = match auth {
        AuthOutcome::Challenge => return Route::Unauthorized,
        AuthOutcome::Open => None,
        AuthOutcome::Principal(u) => Some(u),
    };
    if browser {
        Route::Page(principal)
    } else {
        Route::Dav(principal)
    }
}

} // verus!
