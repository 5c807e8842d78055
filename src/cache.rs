//! The directory namespace cache and the targeted descent that fills it.
//!
//! The descent alternates remote listings with decisions, so it is written as a
//! step function: `Cache::get_or_insert` begins it, the caller performs each
//! `EnsureStep::Fetch` and hands the page back to `Cache::resume`.
use vstd::prelude::*;

use crate::drive::{continues_after, more_pages, MAX_PAGES};
use crate::model::{QuarkFile, QuarkFiles};
use crate::paths::{
    base_name, base_of, child_of, child_path, first_segment_len, has_parent, is_ancestor_or_self,
    last_slash, lemma_last_slash, next_segment, parent_of, parent_path, root_path, segment_below,
    segment_start,
};
use crate::text::same_text;

verus! {

/// The concurrent TTL map the listings live in, held as a moka cache that
/// Verus does not look into.
#[verifier::external_body]
pub struct Listings {
    map: moka::sync::Cache<String, Vec<QuarkFile>>,
}

/// What the map holds as far as this library has told it: each key with the
/// listing last inserted under it and not invalidated since. Entries may still
/// expire or be evicted.
pub uninterp spec fn published(c: Listings) -> Map<Seq<char>, Seq<QuarkFile>>;

/// A map without listings.
pub open spec fn no_listings() -> Map<Seq<char>, Seq<QuarkFile>> {
    Map::empty()
}

/// The longest time to live the map accepts: 1000 years of 365 days.
pub const MAX_TTL_SECS: u64 = 31536000000;

/// Relies on moka's `CacheBuilder` (`max_capacity`, `time_to_live`, `build`): a
/// new map holds nothing; `build` panics beyond `MAX_TTL_SECS`.
#[verifier::external_body]
fn new_listings(max_capacity: u64, ttl_secs: u64) -> (c: Listings)
    requires
        ttl_secs <= MAX_TTL_SECS,
    ensures
        published(c) == no_listings(),
{
    Listings {
        map: moka::sync::Cache::builder().max_capacity(max_capacity).time_to_live(
            std::time::Duration::from_secs(ttl_secs),
        ).build(),
    }
}

/// Relies on moka's `Cache::get`: a clone of the value last inserted under the
/// key, or nothing once it has expired, been evicted or invalidated.
#[verifier::external_body]
fn listings_get(c: &Listings, key: &str) -> (r: Option<Vec<QuarkFile>>)
    ensures
        r matches Some(v) ==> published(*c).contains_key(key@) && v@ == published(*c)[key@],
{
    c.map.get(key)
}

/// Relies on moka's `Cache::insert`: the value replaces any earlier one.
#[verifier::external_body]
fn listings_insert(c: &mut Listings, key: String, value: Vec<QuarkFile>)
    ensures
        published(*final(c)) == published(*old(c)).insert(key@, value@),
{
    c.map.insert(key, value)
}

/// Relies on moka's `Cache::invalidate`: the key's value is discarded.
#[verifier::external_body]
fn listings_invalidate(c: &mut Listings, key: &str)
    ensures
        published(*final(c)) == published(*old(c)).remove(key@),
{
    c.map.invalidate(key)
}

/// Relies on moka's `Cache::invalidate_all`: no value inserted before the call
/// is returned after it.
#[verifier::external_body]
fn listings_invalidate_all(c: &mut Listings)
    ensures
        published(*final(c)) == no_listings(),
{
    c.map.invalidate_all()
}

/// Every record of `files` was cached under `path`.
pub open spec fn tagged(files: Seq<QuarkFile>, path: Seq<char>) -> bool {
    forall|i: int|
        0 <= i < files.len() ==> (#[trigger] files[i].parent_path matches Some(p) && p@ == path)
}

/// `a` and `b` agree on every field but `parent_path`.
pub open spec fn same_but_parent(a: QuarkFile, b: QuarkFile) -> bool {
    &&& a.fid == b.fid
    &&& a.file_name == b.file_name
    &&& a.pdir_fid == b.pdir_fid
    &&& a.size == b.size
    &&& a.format_type == b.format_type
    &&& a.status == b.status
    &&& a.created_at == b.created_at
    &&& a.updated_at == b.updated_at
    &&& a.dir == b.dir
    &&& a.file == b.file
    &&& a.download_url == b.download_url
    &&& a.content_hash == b.content_hash
}

/// `new` is `old` with every record's `parent_path` set to `path`.
pub open spec fn retagged(new: Seq<QuarkFile>, old: Seq<QuarkFile>, path: Seq<char>) -> bool {
    &&& new.len() == old.len()
    &&& tagged(new, path)
    &&& forall|i: int| 0 <= i < new.len() ==> same_but_parent(#[trigger] new[i], old[i])
}

/// Whether `f` is a directory called `name`.
pub open spec fn dir_named(f: QuarkFile, name: Seq<char>) -> bool {
    f.dir && f.file_name@ == name
}

/// `files[i]` is the first directory of `files` called `name`.
pub open spec fn is_first_dir_named(files: Seq<QuarkFile>, name: Seq<char>, i: int) -> bool {
    &&& 0 <= i < files.len()
    &&& dir_named(files[i], name)
    &&& forall|j: int| 0 <= j < i ==> !dir_named(#[trigger] files[j], name)
}

/// `files` holds no directory called `name`.
pub open spec fn no_dir_named(files: Seq<QuarkFile>, name: Seq<char>) -> bool {
    forall|j: int| 0 <= j < files.len() ==> !dir_named(#[trigger] files[j], name)
}

/// The first directory of `files` called `name`.
pub fn find_dir_named(files: &Vec<QuarkFile>, name: &str) -> (r: Option<usize>)
    ensures
        r matches Some(i) ==> is_first_dir_named(files@, name@, i as int),
        r is None ==> no_dir_named(files@, name@),
{
    let mut i: usize = 0;
    while i < files.len()
        invariant
            i <= files@.len(),
            forall|j: int| 0 <= j < i ==> !dir_named(#[trigger] files@[j], name@),
        decreases files.len() - i,
    {
        if files[i].dir && same_text(files[i].file_name.as_str(), name) {
            return Some(i);
        }
        i = i + 1;
    }
    None
}

/// `f.file_name == name`.
pub open spec fn named(f: QuarkFile, name: Seq<char>) -> bool {
    f.file_name@ == name
}

/// The record of a listing called `name`, if any: the first such.
pub fn find_named(files: &Vec<QuarkFile>, name: &str) -> (r: Option<usize>)
    ensures
        r matches Some(i) ==> 0 <= i < files@.len() && named(files@[i as int], name@) && forall|j: int|
            0 <= j < i ==> !named(#[trigger] files@[j], name@),
        r is None ==> forall|j: int| 0 <= j < files@.len() ==> !named(#[trigger] files@[j], name@),
{
    let mut i: usize = 0;
    while i < files.len()
        invariant
            i <= files@.len(),
            forall|j: int| 0 <= j < i ==> !named(#[trigger] files@[j], name@),
        decreases files.len() - i,
    {
        if same_text(files[i].file_name.as_str(), name) {
            return Some(i);
        }
        i = i + 1;
    }
    None
}

fn copy_text_option(o: &Option<String>) -> (r: Option<String>)
    ensures
        r == *o,
{
    match o {
        Some(s) => Some(s.clone()),
        None => None,
    }
}

/// An exact copy of a record.
pub fn copy_record(f: &QuarkFile) -> (r: QuarkFile)
    ensures
        r == *f,
{
    QuarkFile {
        fid: f.fid.clone(),
        file_name: f.file_name.clone(),
        pdir_fid: f.pdir_fid.clone(),
        size: f.size,
        format_type: f.format_type.clone(),
        status: f.status,
        created_at: f.created_at,
        updated_at: f.updated_at,
        dir: f.dir,
        file: f.file,
        download_url: copy_text_option(&f.download_url),
        content_hash: copy_text_option(&f.content_hash),
        parent_path: copy_text_option(&f.parent_path),
    }
}

/// An exact copy of a listing.
pub fn copy_records(files: &Vec<QuarkFile>) -> (r: Vec<QuarkFile>)
    ensures
        r@ == files@,
{
    let mut out: Vec<QuarkFile> = Vec::new();
    let mut i: usize = 0;
    while i < files.len()
        invariant
            i <= files@.len(),
            out@ == files@.take(i as int),
        decreases files.len() - i,
    {
        out.push(copy_record(&files[i]));
        i = i + 1;
        assert(out@ =~= files@.take(i as int));
    }
    assert(files@.take(i as int) =~= files@);
    out
}

/// Sets every record's `parent_path` to `path`.
pub fn tag_records(files: Vec<QuarkFile>, path: &str) -> (r: Vec<QuarkFile>)
    ensures
        retagged(r@, files@, path@),
{
    let ghost orig = files@;
    let mut rev = reversed(files);
    let mut out: Vec<QuarkFile> = Vec::new();
    while rev.len() > 0
        invariant
            out@.len() + rev@.len() == orig.len(),
            forall|j: int| 0 <= j < rev@.len() ==> rev@[j] == orig[orig.len() - 1 - j],
            tagged(out@, path@),
            forall|i: int| 0 <= i < out@.len() ==> same_but_parent(#[trigger] out@[i], orig[i]),
        decreases rev.len(),
    {
        let f = rev.pop().unwrap();
        out.push(QuarkFile { parent_path: Some(String::from_str(path)), ..f });
    }
    out
}

/// The items of `v` in reverse order.
pub fn reversed<T>(v: Vec<T>) -> (r: Vec<T>)
    ensures
        r@.len() == v@.len(),
        forall|j: int| 0 <= j < r@.len() ==> r@[j] == v@[v@.len() - 1 - j],
{
    let ghost orig = v@;
    let mut v = v;
    let mut r: Vec<T> = Vec::new();
    while v.len() > 0
        invariant
            v@ == orig.take(v@.len() as int),
            r@.len() + v@.len() == orig.len(),
            forall|j: int| 0 <= j < r@.len() ==> r@[j] == orig[orig.len() - 1 - j],
        decreases v.len(),
    {
        let x = v.pop().unwrap();
        r.push(x);
        assert(v@ =~= orig.take(v@.len() as int));
    }
    r
}

/// The directory namespace cache: directory path to listing, with a time to
/// live and a capacity.
pub struct Cache {
    inner: Listings,
}

/// Where a descent stands: the directory being listed, the next page to ask
/// for, and what earlier pages of it gave.
pub struct Descent {
    pub target: String,
    pub dir_path: String,
    pub dir_fid: String,
    pub page: u32,
    pub collected: Vec<QuarkFile>,
}

impl Descent {
    /// The listed directory lies on the way to the target, and the page is
    /// within the cap.
    pub open spec fn wf(&self) -> bool {
        &&& is_ancestor_or_self(self.dir_path@, self.target@)
        &&& 1 <= self.page <= MAX_PAGES
    }

    /// The first page of the directory `dir_path`, whose fid is `dir_fid`, on
    /// the way to `target`.
    pub open spec fn starts(&self, target: Seq<char>, dir_path: Seq<char>, dir_fid: Seq<char>) -> bool {
        &&& self.target@ == target
        &&& self.dir_path@ == dir_path
        &&& self.dir_fid@ == dir_fid
        &&& self.page == 1
        &&& self.collected@.len() == 0
    }
}

/// What the caller of a descent does next.
pub enum EnsureStep {
    /// List page `page` of the directory `dir_fid` and hand it to `Cache::resume`.
    Fetch(Descent),
    /// The descent is over, with the listing of the target or without one.
    Done(Option<Vec<QuarkFile>>),
}

/// How one listing request ended.
pub enum PageOutcome {
    /// A page of the listing, with the remote's total.
    Listed(QuarkFiles),
    /// The directory does not exist (404).
    Missing,
    /// The request failed.
    Failed,
}

/// The fid of the synthetic root.
pub open spec fn root_fid() -> Seq<char> {
    seq!['0']
}

/// Whether `s` is an absolute path.
pub open spec fn is_absolute(s: Seq<char>) -> bool {
    s.len() >= 1 && s[0] == '/'
}

proof fn lemma_parent_is_ancestor(cur: Seq<char>, key: Seq<char>)
    requires
        is_ancestor_or_self(cur, key),
        is_absolute(cur),
        cur != root_path(),
    ensures
        is_ancestor_or_self(parent_of(cur), key),
        parent_of(cur).len() < cur.len(),
        is_absolute(parent_of(cur)),
        has_parent(cur),
{
    lemma_last_slash(cur);
    let k = last_slash(cur);
    assert(k >= 0);
    if cur.len() == 1 {
        assert(cur =~= root_path());
    }
    if k > 0 {
        let p = cur.take(k);
        if key != cur {
            assert(key.take(cur.len() as int).take(k) =~= p);
        }
        if p != root_path() {
            assert(key.take(k) =~= p);
        }
    }
}

proof fn lemma_child_toward(dir: Seq<char>, target: Seq<char>)
    requires
        is_ancestor_or_self(dir, target),
        dir != target,
    ensures
        is_ancestor_or_self(child_of(dir, next_segment(target, dir)), target),
{
    let s = segment_start(target, dir);
    let rest = target.skip(s);
    let n = first_segment_len(rest);
    crate::paths::lemma_first_segment_len(rest);
    let m = s + n;
    let child = child_of(dir, next_segment(target, dir));
    assert(child =~= target.take(m)) by {
        if dir != root_path() {
            assert(target.take(dir.len() as int) =~= dir);
        }
    }
    if m < target.len() {
        assert(target[m] == rest[n]);
    } else {
        assert(target.take(m) =~= target);
    }
}

/// Every record of a cached listing carries the path it is cached under.
pub proof fn lemma_cached_records_carry_path(c: &Cache, path: Seq<char>)
    requires
        c.wf(),
        c@.contains_key(path),
    ensures
        forall|i: int|
            0 <= i < c@[path].len() ==> (#[trigger] c@[path][i].parent_path matches Some(p) && p@
                == path),
{
}

/// A mutation of `path` hides its parent's listing: once the parent is
/// invalidated the cache holds nothing for it, so `get` of the parent returns
/// nothing until a descent publishes it again.
pub proof fn lemma_mutation_hides_parent(
    before: Map<Seq<char>, Seq<QuarkFile>>,
    after: Map<Seq<char>, Seq<QuarkFile>>,
    path: Seq<char>,
)
    requires
        has_parent(path),
        after == before.remove(parent_of(path)),
    ensures
        !after.contains_key(parent_of(path)),
{
}

/// Whether `s` starts with `/`.
pub fn starts_absolute(s: &str) -> (r: bool)
    ensures
        r == is_absolute(s@),
{
    let v = crate::text::chars_of(s);
    v.len() > 0 && v[0] == '/'
}

/// How `ensure(key)` begins, from what the cache held. `key_read` is the read
/// of the key itself. When it missed, `ancestor` is the entry `cur` nearest to
/// the root on the way down to the key whose parent's listing is held,
/// together with that listing; `None` when no such listing is held. A hit is
/// returned; otherwise the descent starts at the synthetic root, or at the
/// first directory of the held listing named like `cur`, or ends without a
/// listing when the held listing has no such directory.
pub fn first_step(
    key: &str,
    key_read: Option<Vec<QuarkFile>>,
    ancestor: Option<(String, Vec<QuarkFile>)>,
) -> (r: EnsureStep)
    requires
        ancestor matches Some(a) ==> is_ancestor_or_self(a.0@, key@) && is_absolute(a.0@) && a.0@
            != root_path(),
    ensures
        key_read matches Some(v) ==> (r matches EnsureStep::Done(Some(w)) && w@ == v@),
        key_read is None && !is_absolute(key@) ==> (r matches EnsureStep::Done(None)),
        key_read is None && is_absolute(key@) && ancestor is None ==> (r matches EnsureStep::Fetch(d)
            && d.wf() && d.starts(key@, root_path(), root_fid())),
        key_read is None && is_absolute(key@) ==> match ancestor {
            Some(a) => {
                let cur = a.0@;
                let l = a.1@;
                &&& (exists|i: int| is_first_dir_named(l, base_of(cur), i)) <==> r is Fetch
                &&& r is Done ==> (r matches EnsureStep::Done(None))
                &&& r matches EnsureStep::Fetch(d) ==> d.wf() && exists|i: int|
                    is_first_dir_named(l, base_of(cur), i) && d.starts(key@, cur, l[i].fid@)
            },
            None => true,
        },
{
    if let Some(v) = key_read {
        return EnsureStep::Done(Some(v));
    }
    if !starts_absolute(key) {
        return EnsureStep::Done(None);
    }
    match ancestor {
        None => {
            proof {
                reveal_strlit("/");
                reveal_strlit("0");
                assert("/"@ =~= root_path());
                assert("0"@ =~= root_fid());
                if key@.len() == 1 {
                    assert(key@ =~= root_path());
                }
            }
            EnsureStep::Fetch(
                Descent {
                    target: String::from_str(key),
                    dir_path: String::from_str("/"),
                    dir_fid: String::from_str("0"),
                    page: 1,
                    collected: Vec::new(),
                },
            )
        },
        Some((cur, listing)) => {
            let name = base_name(cur.as_str());
            match find_dir_named(&listing, name.as_str()) {
                Some(i) => EnsureStep::Fetch(
                    Descent {
                        target: String::from_str(key),
                        dir_path: cur,
                        dir_fid: listing[i].fid.clone(),
                        page: 1,
                        collected: Vec::new(),
                    },
                ),
                None => {
                    assert(!(exists|i: int| is_first_dir_named(listing@, name@, i)));
                    EnsureStep::Done(None)
                },
            }
        },
    }
}

impl Cache {
    /// The listings published and not invalidated since, by directory path.
    pub closed spec fn view(&self) -> Map<Seq<char>, Seq<QuarkFile>> {
        published(self.inner)
    }

    /// Every cached listing holds records tagged with its own path.
    pub open spec fn wf(&self) -> bool {
        forall|k: Seq<char>| #[trigger] self@.contains_key(k) ==> tagged(self@[k], k)
    }

    /// An empty cache of at most `max_capacity` listings, each kept at most
    /// `ttl` seconds.
    pub fn new(max_capacity: u64, ttl: u64) -> (r: Cache)
        requires
            ttl <= MAX_TTL_SECS,
        ensures
            r.wf(),
            r@ == no_listings(),
    {
        Cache { inner: new_listings(max_capacity, ttl) }
    }

    /// The cached listing of `key`, if it is still held.
    pub fn get(&self, key: &str) -> (r: Option<Vec<QuarkFile>>)
        requires
            self.wf(),
        ensures
            r matches Some(v) ==> self@.contains_key(key@) && v@ == self@[key@] && tagged(v@, key@),
            !self@.contains_key(key@) ==> r is None,
    {
        listings_get(&self.inner, key)
    }

    /// Publishes the listing of `key`, tagging each record with it; returns a
    /// copy of what was published.
    pub fn insert(&mut self, key: &str, files: Vec<QuarkFile>) -> (r: Vec<QuarkFile>)
        requires
            old(self).wf(),
        ensures
            final(self).wf(),
            final(self)@ == old(self)@.insert(key@, r@),
            retagged(r@, files@, key@),
    {
        let tagged_files = tag_records(files, key);
        let copy = copy_records(&tagged_files);
        listings_insert(&mut self.inner, String::from_str(key), tagged_files);
        assert forall|k: Seq<char>| #[trigger] self@.contains_key(k) implies tagged(self@[k], k) by {
            if k != key@ {
                assert(old(self)@.contains_key(k));
            }
        }
        copy
    }

    /// Drops the cached listing of `path`.
    pub fn invalidate(&mut self, path: &str)
        requires
            old(self).wf(),
        ensures
            final(self).wf(),
            final(self)@ == old(self)@.remove(path@),
    {
        listings_invalidate(&mut self.inner, path);
        assert forall|k: Seq<char>| #[trigger] self@.contains_key(k) implies tagged(self@[k], k) by {
            assert(old(self)@.contains_key(k));
        }
    }

    /// Drops the cached listing of the directory holding `path`, the only one
    /// a mutation of `path` makes stale.
    pub fn invalidate_parent(&mut self, path: &str)
        requires
            old(self).wf(),
        ensures
            final(self).wf(),
            has_parent(path@) ==> final(self)@ == old(self)@.remove(parent_of(path@)),
            !has_parent(path@) ==> final(self)@ == old(self)@,
    {
        if let Some(parent) = parent_path(path) {
            self.invalidate(parent.as_str());
        }
    }

    /// Drops every cached listing.
    pub fn invalidate_all(&mut self)
        requires
            old(self).wf(),
        ensures
            final(self).wf(),
            final(self)@ == no_listings(),
    {
        listings_invalidate_all(&mut self.inner);
    }

    /// Begins `ensure(key)`: the cached listing if it is held; otherwise the
    /// first listing of a descent from the nearest cached ancestor (or from the
    /// synthetic root), or no listing when that ancestor shows the way down is
    /// not a directory.
    pub fn get_or_insert(&self, key: &str) -> (r: EnsureStep)
        requires
            self.wf(),
        ensures
            r matches EnsureStep::Done(Some(v)) ==> self@.contains_key(key@) && v@ == self@[key@]
                && tagged(v@, key@),
            r matches EnsureStep::Done(None) ==> !is_absolute(key@) || exists|a: Seq<char>|
                is_ancestor_or_self(a, key@) && is_absolute(a) && a != root_path()
                    && self@.contains_key(parent_of(a)) && !(exists|i: int|
                    is_first_dir_named(self@[parent_of(a)], base_of(a), i)),
            r matches EnsureStep::Fetch(d) ==> d.wf() && d.target@ == key@ && d.page == 1
                && d.collected@.len() == 0 && (d.starts(key@, root_path(), root_fid()) || (
            has_parent(d.dir_path@) && self@.contains_key(parent_of(d.dir_path@)) && exists|i: int|
                is_first_dir_named(self@[parent_of(d.dir_path@)], base_of(d.dir_path@), i)
                    && d.dir_fid@ == self@[parent_of(d.dir_path@)][i].fid@)),
    {
        let read = self.get(key);
        if read.is_some() || same_text(key, "/") || !starts_absolute(key) {
            return first_step(key, read, None);
        }
        proof {
            reveal_strlit("/");
            assert("/"@ =~= root_path());
            if key@.len() == 1 {
                assert(key@ =~= root_path());
            }
        }
        let mut cur = String::from_str(key);
        loop
            invariant
                self.wf(),
                is_ancestor_or_self(cur@, key@),
                is_absolute(cur@),
                cur@ != root_path(),
                key@ != root_path(),
                is_absolute(key@),
                "/"@ == root_path(),
            decreases cur@.len(),
        {
            proof {
                lemma_parent_is_ancestor(cur@, key@);
            }
            let parent = match parent_path(cur.as_str()) {
                Some(p) => p,
                None => return first_step(key, None, None),
            };
            if let Some(listing) = self.get(parent.as_str()) {
                return first_step(key, None, Some((cur, listing)));
            }
            if same_text(parent.as_str(), "/") {
                return first_step(key, None, None);
            }
            cur = parent;
        }
    }

    /// Takes the outcome of the request that `d` asked for. A failed or missing
    /// listing ends the descent without a listing, keeping what was published.
    /// A page that is not the last asks for the next one. The last page
    /// publishes the directory; the descent then ends with it if it is the
    /// target, or goes on into the first directory of it named like the next
    /// segment of the target, or ends without a listing when there is none.
    pub fn resume(&mut self, d: Descent, outcome: PageOutcome) -> (r: EnsureStep)
        requires
            old(self).wf(),
            d.wf(),
        ensures
            final(self).wf(),
            !(outcome is Listed) ==> final(self)@ == old(self)@ && r matches EnsureStep::Done(None),
            outcome matches PageOutcome::Listed(p) ==> {
                let all = d.collected@ + p.list@;
                if continues_after(d.page as nat, p.list@.len(), p.total as nat) {
                    &&& final(self)@ == old(self)@
                    &&& r matches EnsureStep::Fetch(n)
                    &&& n.wf()
                    &&& n.target == d.target
                    &&& n.dir_path == d.dir_path
                    &&& n.dir_fid == d.dir_fid
                    &&& n.page == d.page + 1
                    &&& n.collected@ == all
                } else {
                    let dir = d.dir_path@;
                    let listing = final(self)@[dir];
                    let seg = next_segment(d.target@, dir);
                    &&& final(self)@ == old(self)@.insert(dir, listing)
                    &&& retagged(listing, all, dir)
                    &&& dir == d.target@ ==> (r matches EnsureStep::Done(Some(v)) && v@ == listing)
                    &&& dir != d.target@ ==> ((exists|i: int| is_first_dir_named(listing, seg, i))
                        <==> r is Fetch)
                    &&& r matches EnsureStep::Fetch(n) ==> n.wf() && exists|i: int|
                        is_first_dir_named(listing, seg, i) && n.starts(
                            d.target@,
                            child_of(dir, seg),
                            listing[i].fid@,
                        )
                }
            },
    {
        let page = match outcome {
            PageOutcome::Listed(p) => p,
            PageOutcome::Missing => return EnsureStep::Done(None),
            PageOutcome::Failed => return EnsureStep::Done(None),
        };
        let Descent { target, dir_path, dir_fid, page: page_no, collected } = d;
        let page_len = page.list.len();
        let total = page.total;
        let mut all = collected;
        let mut list = page.list;
        all.append(&mut list);
        if more_pages(page_no, page_len, total) {
            return EnsureStep::Fetch(
                Descent { target, dir_path, dir_fid, page: page_no + 1, collected: all },
            );
        }
        let listing = self.insert(dir_path.as_str(), all);
        if same_text(dir_path.as_str(), target.as_str()) {
            return EnsureStep::Done(Some(listing));
        }
        let seg = segment_below(target.as_str(), dir_path.as_str());
        match find_dir_named(&listing, seg.as_str()) {
            Some(i) => {
                proof {
                    lemma_child_toward(dir_path@, target@);
                    reveal_strlit("0");
                }
                let child = child_path(dir_path.as_str(), seg.as_str());
                let next = Descent {
                    target,
                    dir_path: child,
                    dir_fid: listing[i].fid.clone(),
                    page: 1,
                    collected: Vec::new(),
                };
                EnsureStep::Fetch(next)
            },
            None => {
                assert(!(exists|i: int| is_first_dir_named(listing@, seg@, i)));
                EnsureStep::Done(None)
            },
        }
    }
}

} // verus!
