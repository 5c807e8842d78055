//! Absolute, forward-slash paths as the cache keys them.
use vstd::prelude::*;

use crate::text::{chars_of, push_char, push_str};

verus! {

/// The index of the last `/` of `s`, or -1 when it has none.
pub open spec fn last_slash(s: Seq<char>) -> int
    decreases s.len(),
{
    if s.len() == 0 {
        -1
    } else if s.last() == '/' {
        s.len() - 1
    } else {
        last_slash(s.drop_last())
    }
}

pub proof fn lemma_last_slash(s: Seq<char>)
    ensures
        -1 <= last_slash(s) < s.len(),
        last_slash(s) >= 0 ==> s[last_slash(s)] == '/',
        forall|j: int| last_slash(s) < j < s.len() ==> s[j] != '/',
    decreases s.len(),
{
    if s.len() > 0 && s.last() != '/' {
        lemma_last_slash(s.drop_last());
        assert forall|j: int| last_slash(s) < j < s.len() implies s[j] != '/' by {
            if j < s.len() - 1 {
                assert(s[j] == s.drop_last()[j]);
            }
        }
    }
}

pub open spec fn root_path() -> Seq<char> {
    seq!['/']
}

/// Whether `s` has a parent directory: it is not the root and holds a `/`.
pub open spec fn has_parent(s: Seq<char>) -> bool {
    s != root_path() && last_slash(s) >= 0
}

/// The directory holding `s`: what precedes its last `/`, or the root.
pub open spec fn parent_of(s: Seq<char>) -> Seq<char> {
    let k = last_slash(s);
    if k <= 0 {
        root_path()
    } else {
        s.take(k)
    }
}

/// The last segment of `s`: what follows its last `/`.
pub open spec fn base_of(s: Seq<char>) -> Seq<char> {
    s.skip(last_slash(s) + 1)
}

/// The path of the entry `name` inside the directory `dir`.
pub open spec fn child_of(dir: Seq<char>, name: Seq<char>) -> Seq<char> {
    if dir == root_path() {
        root_path() + name
    } else {
        dir + root_path() + name
    }
}

/// Whether `a` is `p` or one of the directories above it.
pub open spec fn is_ancestor_or_self(a: Seq<char>, p: Seq<char>) -> bool {
    ||| a == p
    ||| (a == root_path() && p.len() > 1 && p[0] == '/')
    ||| (a != root_path() && p.len() > a.len() && p.take(a.len() as int) == a && p[a.len() as int] == '/')
}

/// Where the segment of `target` right below the directory `dir` begins.
pub open spec fn segment_start(target: Seq<char>, dir: Seq<char>) -> int {
    let k: int = if dir == root_path() {
        1
    } else {
        dir.len() as int + 1
    };
    if k <= target.len() {
        k
    } else {
        target.len() as int
    }
}

/// The length of the text before the first `/` of `s`, or of all of `s`.
pub open spec fn first_segment_len(s: Seq<char>) -> int
    decreases s.len(),
{
    if s.len() == 0 || s[0] == '/' {
        0
    } else {
        1 + first_segment_len(s.skip(1))
    }
}

/// The name of the entry of `dir` on the way down to `target`.
pub open spec fn next_segment(target: Seq<char>, dir: Seq<char>) -> Seq<char> {
    let rest = target.skip(segment_start(target, dir));
    rest.take(first_segment_len(rest))
}

pub proof fn lemma_first_segment_len(s: Seq<char>)
    ensures
        0 <= first_segment_len(s) <= s.len(),
        forall|j: int| 0 <= j < first_segment_len(s) ==> s[j] != '/',
        first_segment_len(s) < s.len() ==> s[first_segment_len(s)] == '/',
    decreases s.len(),
{
    if s.len() > 0 && s[0] != '/' {
        lemma_first_segment_len(s.skip(1));
        assert forall|j: int| 0 <= j < first_segment_len(s) implies s[j] != '/' by {
            if j > 0 {
                assert(s[j] == s.skip(1)[j - 1]);
            }
        }
    }
}

fn last_slash_of(v: &Vec<char>) -> (r: Option<usize>)
    ensures
        r matches Some(k) ==> last_slash(v@) == k as int,
        r is None ==> last_slash(v@) == -1,
{
    let mut k: usize = v.len();
    assert(v@.take(k as int) =~= v@);
    while k > 0
        invariant
            k <= v@.len(),
            last_slash(v@) == last_slash(v@.take(k as int)),
        decreases k,
    {
        if v[k - 1] == '/' {
            assert(v@.take(k as int).last() == '/');
            return Some(k - 1);
        }
        assert(v@.take(k as int).drop_last() =~= v@.take(k - 1));
        k = k - 1;
    }
    None
}

fn copy_range(v: &Vec<char>, from: usize, to: usize) -> (r: String)
    requires
        from <= to <= v@.len(),
    ensures
        r@ == v@.subrange(from as int, to as int),
{
    let mut out = String::new();
    let mut i: usize = from;
    while i < to
        invariant
            from <= i <= to,
            to <= v@.len(),
            out@ == v@.subrange(from as int, i as int),
        decreases to - i,
    {
        push_char(&mut out, v[i]);
        i = i + 1;
        assert(out@ =~= v@.subrange(from as int, i as int));
    }
    out
}

/// The directory holding `path`, or `None` for the root and for text without `/`.
pub fn parent_path(path: &str) -> (r: Option<String>)
    ensures
        r is Some <==> has_parent(path@),
        r matches Some(p) ==> p@ == parent_of(path@),
{
    let v = chars_of(path);
    proof {
        reveal_strlit("/");
    }
    if v.len() == 1 && v[0] == '/' {
        assert(v@ =~= root_path());
        return None;
    }
    proof {
        lemma_last_slash(v@);
    }
    match last_slash_of(&v) {
        None => None,
        Some(k) => {
            if k == 0 {
                let r = String::from_str("/");
                assert(r@ =~= root_path());
                Some(r)
            } else {
                let r = copy_range(&v, 0, k);
                assert(r@ =~= v@.take(k as int));
                Some(r)
            }
        },
    }
}

/// The last segment of `path`.
pub fn base_name(path: &str) -> (r: String)
    ensures
        r@ == base_of(path@),
{
    let v = chars_of(path);
    proof {
        lemma_last_slash(v@);
    }
    let n = v.len();
    let start: usize = match last_slash_of(&v) {
        None => 0,
        Some(k) => k + 1,
    };
    let r = copy_range(&v, start, n);
    assert(r@ =~= base_of(path@));
    r
}

/// The path of the entry `name` inside the directory `dir`.
pub fn child_path(dir: &str, name: &str) -> (r: String)
    ensures
        r@ == child_of(dir@, name@),
{
    proof {
        reveal_strlit("/");
    }
    let mut out = String::new();
    if crate::text::same_text(dir, "/") {
        push_char(&mut out, '/');
    } else {
        push_str(&mut out, dir);
        push_char(&mut out, '/');
    }
    push_str(&mut out, name);
    assert("/"@ =~= root_path());
    assert(out@ =~= child_of(dir@, name@));
    out
}

/// The name of the entry of `dir` on the way down to `target`.
pub fn segment_below(target: &str, dir: &str) -> (r: String)
    ensures
        r@ == next_segment(target@, dir@),
{
    proof {
        reveal_strlit("/");
        assert("/"@ =~= root_path());
    }
    let v = chars_of(target);
    let start: usize = if crate::text::same_text(dir, "/") {
        1
    } else {
        let d = chars_of(dir);
        if d.len() < v.len() {
            d.len() + 1
        } else {
            v.len()
        }
    };
    let start: usize = if start > v.len() {
        v.len()
    } else {
        start
    };
    let ghost s = segment_start(target@, dir@);
    let mut end: usize = start;
    proof {
        lemma_first_segment_len(v@.skip(s));
    }
    while end < v.len() && v[end] != '/'
        invariant
            start <= end <= v@.len(),
            v@ == target@,
            forall|j: int| start <= j < end ==> v@[j] != '/',
        decreases v.len() - end,
    {
        end = end + 1;
    }
    let r = copy_range(&v, start, end);
    proof {
        let rest = target@.skip(segment_start(target@, dir@));
        assert(start == s);
        lemma_first_segment_len(rest);
        assert(end - start == first_segment_len(rest)) by {
            if end - start < first_segment_len(rest) {
                assert(end < v@.len());
                assert(rest[end - start] == v@[end as int]);
            } else if end - start > first_segment_len(rest) {
                assert(rest[first_segment_len(rest)] == '/');
                assert(v@[start + first_segment_len(rest)] == '/');
            }
        }
        assert(r@ =~= rest.take(first_segment_len(rest)));
    }
    r
}

} // verus!
