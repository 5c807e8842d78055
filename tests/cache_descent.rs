use quarkdrive_webdav::cache::{find_named, first_step, Cache, Descent, EnsureStep, PageOutcome};
use quarkdrive_webdav::model::{FilesData, FilesMetadata, QuarkFile, QuarkFiles, Response};
use quarkdrive_webdav::render::render_directory_html;

fn entry(fid: &str, name: &str, dir: bool) -> QuarkFile {
    QuarkFile {
        fid: fid.to_string(),
        file_name: name.to_string(),
        pdir_fid: "p".to_string(),
        size: if dir { 0 } else { 10 },
        format_type: String::new(),
        status: 1,
        created_at: 0,
        updated_at: 0,
        dir,
        file: !dir,
        download_url: None,
        content_hash: None,
        parent_path: None,
    }
}

fn page(list: Vec<QuarkFile>, total: u32) -> PageOutcome {
    PageOutcome::Listed(QuarkFiles { list, total })
}

/// A stub remote: `/ -> [A(dir), B.txt]`, `A -> [C.txt]` (or `[D.txt]` once renamed).
fn stub(fid: &str, renamed: bool) -> PageOutcome {
    match fid {
        "0" => page(vec![entry("a", "A", true), entry("b", "B.txt", false)], 2),
        "a" if renamed => page(vec![entry("d", "D.txt", false)], 1),
        "a" => page(vec![entry("c", "C.txt", false)], 1),
        _ => PageOutcome::Missing,
    }
}

/// Runs `ensure(path)` against a stub; returns the listing and the fetched (fid, page) pairs.
fn ensure(
    cache: &mut Cache,
    path: &str,
    remote: &dyn Fn(&str, u32) -> PageOutcome,
) -> (Option<Vec<QuarkFile>>, Vec<(String, u32)>) {
    let mut fetched = Vec::new();
    let mut step = cache.get_or_insert(path);
    loop {
        match step {
            EnsureStep::Done(r) => return (r, fetched),
            EnsureStep::Fetch(d) => {
                let d: Descent = d;
                fetched.push((d.dir_fid.clone(), d.page));
                let outcome = remote(&d.dir_fid, d.page);
                step = cache.resume(d, outcome);
            }
        }
    }
}

fn names(v: &[QuarkFile]) -> Vec<String> {
    v.iter().map(|f| f.file_name.clone()).collect()
}

#[test]
fn fresh_descent_populates_ancestors_then_hits() {
    let mut cache = Cache::new(100, 60);
    let remote = |fid: &str, _p: u32| stub(fid, false);
    let (r, fetched) = ensure(&mut cache, "/A", &remote);
    assert_eq!(names(&r.unwrap()), vec!["C.txt"]);
    assert_eq!(fetched, vec![("0".to_string(), 1), ("a".to_string(), 1)]);
    assert_eq!(names(&cache.get("/").unwrap()), vec!["A", "B.txt"]);
    assert!(cache.get("/A").is_some());
    let (r, fetched) = ensure(&mut cache, "/A", &remote);
    assert_eq!(names(&r.unwrap()), vec!["C.txt"]);
    assert!(fetched.is_empty());
}

#[test]
fn file_path_is_absent_without_new_listings() {
    let mut cache = Cache::new(100, 60);
    let remote = |fid: &str, _p: u32| stub(fid, false);
    ensure(&mut cache, "/A", &remote);
    let (r, fetched) = ensure(&mut cache, "/A/C.txt", &remote);
    assert!(r.is_none());
    assert!(fetched.is_empty());
}

#[test]
fn missing_child_publishes_the_listing_that_was_read() {
    let mut cache = Cache::new(100, 60);
    let remote = |fid: &str, _p: u32| stub(fid, false);
    let (r, fetched) = ensure(&mut cache, "/Nope/x", &remote);
    assert!(r.is_none());
    assert_eq!(fetched, vec![("0".to_string(), 1)]);
    assert!(cache.get("/").is_some());
    assert!(cache.get("/Nope").is_none());
}

#[test]
fn failed_listing_keeps_partial_progress() {
    let mut cache = Cache::new(100, 60);
    let remote = |fid: &str, _p: u32| if fid == "a" { PageOutcome::Failed } else { stub(fid, false) };
    let (r, _) = ensure(&mut cache, "/A", &remote);
    assert!(r.is_none());
    assert!(cache.get("/").is_some());
    assert!(cache.get("/A").is_none());
}

#[test]
fn cached_records_carry_their_directory_path() {
    let mut cache = Cache::new(100, 60);
    let remote = |fid: &str, _p: u32| stub(fid, false);
    ensure(&mut cache, "/A", &remote);
    for f in cache.get("/").unwrap() {
        assert_eq!(f.parent_path.as_deref(), Some("/"));
    }
    for f in cache.get("/A").unwrap() {
        assert_eq!(f.parent_path.as_deref(), Some("/A"));
    }
}

#[test]
fn rename_invalidates_parent_and_next_ensure_sees_new_name() {
    let mut cache = Cache::new(100, 60);
    ensure(&mut cache, "/A", &|fid: &str, _p: u32| stub(fid, false));
    cache.invalidate_parent("/A/C.txt");
    assert!(cache.get("/A").is_none());
    assert!(cache.get("/").is_some());
    let (r, fetched) = ensure(&mut cache, "/A", &|fid: &str, _p: u32| stub(fid, true));
    assert_eq!(names(&r.unwrap()), vec!["D.txt"]);
    assert_eq!(fetched, vec![("a".to_string(), 1)]);
}

#[test]
fn invalidate_all_forgets_everything() {
    let mut cache = Cache::new(100, 60);
    ensure(&mut cache, "/A", &|fid: &str, _p: u32| stub(fid, false));
    cache.invalidate_all();
    assert!(cache.get("/").is_none());
    assert!(cache.get("/A").is_none());
    cache.invalidate("/");
    assert!(cache.get("/").is_none());
}

#[test]
fn pagination_is_capped_at_twenty_pages() {
    let mut cache = Cache::new(100, 60);
    let remote = |fid: &str, p: u32| {
        if fid == "0" {
            let list = (0..500).map(|i| entry(&format!("{}-{}", p, i), &format!("f{}-{}", p, i), false)).collect();
            page(list, 50_000)
        } else {
            PageOutcome::Missing
        }
    };
    let (r, fetched) = ensure(&mut cache, "/", &remote);
    assert_eq!(fetched.len(), 20);
    assert_eq!(r.unwrap().len(), 10_000);
}

#[test]
fn pagination_fetches_ceil_total_over_page_size() {
    for (total, pages) in [(1u32, 1usize), (500, 1), (501, 2), (1000, 2), (1001, 3)] {
        let mut cache = Cache::new(100, 60);
        let remote = move |_fid: &str, p: u32| {
            let before = (p - 1) * 500;
            let n = total.saturating_sub(before).min(500);
            let list = (0..n).map(|i| entry(&format!("{}", i), &format!("n{}-{}", p, i), false)).collect();
            page(list, total)
        };
        let (r, fetched) = ensure(&mut cache, "/", &remote);
        assert_eq!(fetched.len(), pages);
        assert_eq!(r.unwrap().len(), total as usize);
    }
}

#[test]
fn short_page_ends_listing_early() {
    let mut cache = Cache::new(100, 60);
    let remote = |_fid: &str, _p: u32| page(vec![entry("x", "x", false)], 5000);
    let (_, fetched) = ensure(&mut cache, "/", &remote);
    assert_eq!(fetched.len(), 1);
}

#[test]
fn relative_path_is_absent() {
    let cache = Cache::new(10, 60);
    assert!(matches!(cache.get_or_insert("A"), EnsureStep::Done(None)));
}

#[test]
fn entity_names_are_decoded_at_ingress_and_escaped_again() {
    let response = Response {
        status: 200,
        code: 0,
        message: String::new(),
        timestamp: 0,
        data: FilesData { list: vec![entry("e", "a &amp; b.txt", false)] },
        metadata: FilesMetadata { total: 1, count: 1, page: 1 },
    };
    let files = QuarkFiles::from_response(response);
    assert_eq!(files.total, 1);
    let mut cache = Cache::new(10, 60);
    let mut step = cache.get_or_insert("/");
    let mut given = Some(files);
    let listing = loop {
        match step {
            EnsureStep::Done(r) => break r.unwrap(),
            EnsureStep::Fetch(d) => step = cache.resume(d, PageOutcome::Listed(given.take().unwrap())),
        }
    };
    let i = find_named(&listing, "a & b.txt").unwrap();
    assert_eq!(listing[i].file_name, "a & b.txt");
    let html = render_directory_html("/", &listing);
    assert!(html.contains("a &amp; b.txt"));
}

#[test]
fn first_step_decides_from_what_was_read() {
    match first_step("/A", Some(vec![entry("c", "C.txt", false)]), None) {
        EnsureStep::Done(Some(v)) => assert_eq!(names(&v), vec!["C.txt"]),
        _ => panic!("a hit is returned"),
    }
    match first_step("/A/B", None, None) {
        EnsureStep::Fetch(d) => {
            assert_eq!((d.dir_path.as_str(), d.dir_fid.as_str(), d.page), ("/", "0", 1));
            assert_eq!(d.target, "/A/B");
        }
        _ => panic!("no held ancestor starts at the root"),
    }
    let held = vec![entry("b", "B.txt", false), entry("a", "A", true)];
    match first_step("/A/B", None, Some(("/A".to_string(), held.clone()))) {
        EnsureStep::Fetch(d) => assert_eq!((d.dir_path.as_str(), d.dir_fid.as_str()), ("/A", "a")),
        _ => panic!("a held directory seeds the descent"),
    }
    assert!(matches!(
        first_step("/B.txt/x", None, Some(("/B.txt".to_string(), held))),
        EnsureStep::Done(None)
    ));
    assert!(matches!(first_step("A", None, None), EnsureStep::Done(None)));
}
