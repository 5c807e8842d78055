use quarkdrive_webdav::drive::{
    check_envelope, create_folder_request, create_folder_url, delete_request, delete_url,
    download_url_for, download_urls_url, listing_truncated, is_retriable_status, list_url, more_pages, move_request,
    move_url, quota_url, range_header, rename_request, rename_url, up_hash_url, up_pre_url,
    DriveError, MAX_PAGES, PAGE_SIZE, RETRY_BASE, RETRY_MAX_DELAY_SECS, RETRY_MAX_RETRIES,
    RETRY_MIN_DELAY_SECS,
};
use reqwest_retry::{policies::ExponentialBackoff, Jitter, RetryDecision, RetryPolicy};
use quarkdrive_webdav::model::{
    format_type_for_extension, get_format_type, FileDownloadUrlItem, FileDownloadUrlMetadata,
    QuarkFile, Response,
};

#[test]
fn list_url_carries_paging_and_sort() {
    assert_eq!(
        list_url("https://drive.quark.cn", "0", 2, 500),
        "https://drive.quark.cn/1/clouddrive/file/sort?pr=ucpro&fr=pc&pdir_fid=0&_page=2&_size=500&_fetch_total=1&_fetch_sub_dirs=0&_sort=file_type:asc,updated_at:desc"
    );
}

#[test]
fn endpoint_urls() {
    let b = "https://h";
    assert_eq!(download_urls_url(b), "https://h/1/clouddrive/file/download?pr=ucpro&fr=pc");
    assert_eq!(rename_url(b), "https://h/1/clouddrive/file/rename?pr=ucpro&fr=pc");
    assert_eq!(move_url(b), "https://h/1/clouddrive/file/move?pr=ucpro&fr=pc");
    assert_eq!(delete_url(b), "https://h/1/clouddrive/file/delete?pr=ucpro&fr=pc");
    assert_eq!(create_folder_url(b), "https://h/1/clouddrive/file?pr=ucpro&fr=pc");
    assert_eq!(
        quota_url(b),
        "https://h/1/clouddrive/member?pr=ucpro&fr=pc&uc_param_str=&fetch_subscribe=true&_ch=home&fetch_identity=true"
    );
    assert_eq!(up_pre_url(b), "https://h/1/clouddrive/file/upload/pre?pr=ucpro&fr=pc");
    assert_eq!(up_hash_url(b), "https://h/1/clouddrive/file/update/hash?pr=ucpro&fr=pc");
}

#[test]
fn request_bodies() {
    let r = rename_request("f1", "new.txt");
    assert_eq!((r.fid.as_str(), r.file_name.as_str()), ("f1", "new.txt"));
    let m = move_request("f1", "d2");
    assert_eq!(m.filelist, vec!["f1".to_string()]);
    assert_eq!(m.to_pdir_fid, "d2");
    let d = delete_request("f1");
    assert_eq!(d.action_type, 2);
    assert!(d.exclude_fids.is_empty());
    assert_eq!(d.filelist, vec!["f1".to_string()]);
    let c = create_folder_request("p", "new");
    assert_eq!((c.pdir_fid.as_str(), c.file_name.as_str(), c.dir_path.as_str()), ("p", "new", ""));
    assert!(!c.dir_init_lock);
}

#[test]
fn range_header_includes_both_ends() {
    assert_eq!(range_header(0, 1).unwrap(), "bytes=0-0");
    assert_eq!(range_header(100, 50).unwrap(), "bytes=100-149");
    assert_eq!(range_header(5, 0), Err(DriveError::InvalidRange));
    assert_eq!(range_header(u64::MAX, 2), Err(DriveError::InvalidRange));
    assert_eq!(range_header(u64::MAX, 1).unwrap(), format!("bytes={}-{}", u64::MAX, u64::MAX));
}

#[test]
fn envelope_status_decides_success() {
    assert_eq!(check_envelope(200, "ok"), Ok(()));
    assert_eq!(check_envelope(0, "bad cookie"), Err(DriveError::Application("bad cookie".to_string())));
}

#[test]
fn transient_statuses_are_retried() {
    for code in [408u16, 429, 500, 502, 503, 504] {
        assert!(is_retriable_status(code));
    }
    for code in [200u16, 204, 400, 401, 403, 404, 501] {
        assert!(!is_retriable_status(code));
    }
}

#[test]
fn retry_policy_bounds_delays_and_attempts() {
    let policy = ExponentialBackoff::builder()
        .retry_bounds(
            std::time::Duration::from_secs(RETRY_MIN_DELAY_SECS),
            std::time::Duration::from_secs(RETRY_MAX_DELAY_SECS),
        )
        .jitter(Jitter::Bounded)
        .base(RETRY_BASE)
        .build_with_max_retries(RETRY_MAX_RETRIES);
    let start = std::time::SystemTime::now();
    for n in 0..RETRY_MAX_RETRIES {
        match policy.should_retry(start, n) {
            RetryDecision::Retry { execute_after } => {
                let wait = execute_after.duration_since(std::time::SystemTime::now()).unwrap_or_default();
                assert!(wait <= std::time::Duration::from_secs(RETRY_MAX_DELAY_SECS));
            }
            RetryDecision::DoNotRetry => panic!("gave up after {} retries", n),
        }
    }
    assert!(matches!(policy.should_retry(start, RETRY_MAX_RETRIES), RetryDecision::DoNotRetry));
}

#[test]
fn paging_decision() {
    assert_eq!(PAGE_SIZE, 500);
    assert_eq!(MAX_PAGES, 20);
    assert!(more_pages(1, 500, 1001));
    assert!(more_pages(2, 500, 1001));
    assert!(!more_pages(3, 1, 1001));
    assert!(!more_pages(2, 500, 1000));
    assert!(!more_pages(1, 499, 50_000));
    assert!(!more_pages(20, 500, 50_000));
    assert!(more_pages(19, 500, 50_000));
    assert!(!more_pages(1, 500, 0));
}

#[test]
fn download_url_is_looked_up_by_fid() {
    let resp = Response {
        status: 200,
        code: 0,
        message: String::new(),
        timestamp: 0,
        data: vec![
            FileDownloadUrlItem { fid: "a".to_string(), download_url: "https://cdn/a".to_string() },
            FileDownloadUrlItem { fid: "b".to_string(), download_url: "https://cdn/b".to_string() },
        ],
        metadata: FileDownloadUrlMetadata {},
    };
    let pairs = resp.into_map();
    assert_eq!(pairs, vec![
        ("a".to_string(), "https://cdn/a".to_string()),
        ("b".to_string(), "https://cdn/b".to_string()),
    ]);
    assert_eq!(download_url_for(&pairs, "b").unwrap(), "https://cdn/b");
    assert_eq!(download_url_for(&pairs, "z"), Err(DriveError::NoDownloadUrl("z".to_string())));
}

#[test]
fn download_url_map_keeps_last_url_per_fid() {
    let item = |f: &str, u: &str| FileDownloadUrlItem { fid: f.to_string(), download_url: u.to_string() };
    let resp = Response {
        status: 200,
        code: 0,
        message: String::new(),
        timestamp: 0,
        data: vec![item("a", "u1"), item("b", "u2"), item("a", "u3")],
        metadata: FileDownloadUrlMetadata {},
    };
    let pairs = resp.into_map();
    assert_eq!(pairs.len(), 2);
    assert_eq!(download_url_for(&pairs, "a").unwrap(), "u3");
    assert_eq!(download_url_for(&pairs, "b").unwrap(), "u2");
}

#[test]
fn truncation_is_reported_at_the_cap() {
    assert!(listing_truncated(20, 500, 50_000));
    assert!(!listing_truncated(20, 500, 10_000));
    assert!(!listing_truncated(19, 500, 50_000));
    assert!(!listing_truncated(20, 499, 50_000));
}

#[test]
fn format_types_by_extension() {
    assert_eq!(get_format_type("a.JPG"), "image/jpeg");
    assert_eq!(get_format_type("a.jpeg"), "image/jpeg");
    assert_eq!(get_format_type("clip.mov"), "video/quicktime");
    assert_eq!(get_format_type("notes.txt"), "text/plain");
    assert_eq!(get_format_type("x.7z"), "application/x-7z-compressed");
    assert_eq!(get_format_type("book.Docx"), "application/msword");
    assert_eq!(get_format_type("README"), "application/octet-stream");
    assert_eq!(format_type_for_extension("rar"), "application/vnd.rar");
    assert_eq!(format_type_for_extension("RAR"), "application/octet-stream");
}

#[test]
fn root_record_is_a_directory_with_fid_zero() {
    let r = QuarkFile::new_root();
    assert_eq!(r.fid, "0");
    assert!(r.dir && !r.file);
    assert!(r.file_name.is_empty() && r.pdir_fid.is_empty());
    assert!(r.created_at > 0);
    let r = QuarkFile::new_root_at(42);
    assert_eq!((r.created_at, r.updated_at, r.size, r.status), (42, 42, 0, 1));
    assert!(r.parent_path.is_none());
}
