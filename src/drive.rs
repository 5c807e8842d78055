//! The drive client's rules: endpoints, paging, retry classes and envelopes.
use vstd::prelude::*;

use crate::model::{CreateFolderRequest, DeleteFilesRequest, MoveFileRequest, RenameFileRequest};
use crate::text::{decimal, push_decimal, push_str, same_text};

verus! {

pub const ORIGIN: &'static str = "https://pan.quark.cn";

pub const REFERER: &'static str = "https://pan.quark.cn/";

pub const UA: &'static str = "Mozilla/5.0 (Windows NT 10.0; Win64; x64) AppleWebKit/537.36 (KHTML, like Gecko) quark-cloud-drive/2.5.20 Chrome/100.0.4896.160 Electron/18.3.5.4-b478491100 Safari/537.36 Channel/pckk_other_ch";

/// Entries asked for per listing page.
pub const PAGE_SIZE: u32 = 500;

/// Most pages fetched for one directory.
pub const MAX_PAGES: u32 = 20;

/// Shortest wait before a retry, in seconds.
pub const RETRY_MIN_DELAY_SECS: u64 = 3;

/// Longest wait before a retry, in seconds.
pub const RETRY_MAX_DELAY_SECS: u64 = 7;

/// Growth factor of the wait between retries.
pub const RETRY_BASE: u32 = 2;

/// Retries after the first attempt.
pub const RETRY_MAX_RETRIES: u32 = 3;

/// Idle pooled connections are closed after this many seconds, before the
/// remote's own 60 s idle close.
pub const POOL_IDLE_TIMEOUT_SECS: u64 = 50;

/// Connect timeout in seconds.
pub const CONNECT_TIMEOUT_SECS: u64 = 10;

/// Whole-request timeout in seconds.
pub const REQUEST_TIMEOUT_SECS: u64 = 30;

/// Where the remote API lives and the session cookie it is called with.
#[derive(Debug, Clone)]
pub struct DriveConfig {
    pub api_base_url: String,
    pub cookie: Option<String>,
}

/// Why a remote call did not give what was asked.
#[derive(Debug, Clone, PartialEq, Eq)]
pub enum DriveError {
    /// The envelope reported a status other than 200; its message.
    Application(String),
    /// The remote answered without the payload the call expects.
    MissingPayload,
    /// No download URL was issued for the file.
    NoDownloadUrl(String),
    /// A byte range that is empty or runs past the largest offset.
    InvalidRange,
}

/// The number of pages a listing of `total` entries spans.
pub open spec fn pages_for(total: nat) -> nat {
    (total + PAGE_SIZE - 1) as nat / PAGE_SIZE as nat
}

/// Whether a listing goes on after page `page` (1-based) came back with
/// `page_len` entries and the remote reported `total` entries in all.
pub open spec fn continues_after(page: nat, page_len: nat, total: nat) -> bool {
    page_len >= PAGE_SIZE && page < pages_for(total) && page < MAX_PAGES
}

/// Decides whether to fetch the page after `page`.
pub fn more_pages(page: u32, page_len: usize, total: u32) -> (r: bool)
    ensures
        r == continues_after(page as nat, page_len as nat, total as nat),
{
    let pages: u64 = (total as u64 + PAGE_SIZE as u64 - 1) / PAGE_SIZE as u64;
    page_len >= PAGE_SIZE as usize && (page as u64) < pages && page < MAX_PAGES
}

/// Whether a listing is cut short after page `page` came back with `page_len`
/// entries: the page cap is reached while the remote reports more pages.
pub open spec fn truncated_after(page: nat, page_len: nat, total: nat) -> bool {
    page >= MAX_PAGES && page_len >= PAGE_SIZE && page < pages_for(total)
}

/// Tells whether the page cap cuts a listing short after page `page`.
pub fn listing_truncated(page: u32, page_len: usize, total: u32) -> (r: bool)
    ensures
        r == truncated_after(page as nat, page_len as nat, total as nat),
{
    let pages: u64 = (total as u64 + PAGE_SIZE as u64 - 1) / PAGE_SIZE as u64;
    page >= MAX_PAGES && page_len >= PAGE_SIZE as usize && (page as u64) < pages
}

/// Entries on page `page` of a listing that holds `total` entries and fills
/// every page but the last.
pub open spec fn full_page_len(total: nat, page: nat) -> nat {
    let before = ((page - 1) * PAGE_SIZE) as nat;
    if total <= before {
        0
    } else if total - before >= PAGE_SIZE {
        PAGE_SIZE as nat
    } else {
        (total - before) as nat
    }
}

/// The number of pages fetched, from page `page` on, against a remote that
/// reports `total` and serves full pages.
pub open spec fn pages_fetched_from(total: nat, page: nat) -> nat
    recommends
        page >= 1,
    decreases MAX_PAGES - page,
{
    if page >= 1 && page < MAX_PAGES && continues_after(page, full_page_len(total, page), total) {
        pages_fetched_from(total, page + 1)
    } else {
        page
    }
}

/// Listing stops: against a remote that reports a fixed, non-zero `total` and
/// serves full pages, exactly `ceil(total / PAGE_SIZE)` pages are fetched, but
/// never more than `MAX_PAGES`.
pub proof fn lemma_listing_page_count(total: nat)
    requires
        total > 0,
    ensures
        pages_fetched_from(total, 1) == if pages_for(total) < MAX_PAGES {
            pages_for(total)
        } else {
            MAX_PAGES as nat
        },
{
    let n = pages_for(total);
    assert(n >= 1) by (nonlinear_arith)
        requires
            total > 0,
            n == (total + 499) as nat / 500,
    ;
    assert forall|p: nat| 1 <= p < n implies full_page_len(total, p) == PAGE_SIZE by {
        assert((p - 1) * 500 + 500 <= total) by (nonlinear_arith)
            requires
                1 <= p,
                p < n,
                n == (total + 499) as nat / 500,
        ;
    }
    lemma_fetch_run(total, 1, n);
}

proof fn lemma_fetch_run(total: nat, page: nat, n: nat)
    requires
        1 <= page <= n,
        page <= MAX_PAGES,
        n == pages_for(total),
        forall|p: nat| 1 <= p < n ==> full_page_len(total, p) == PAGE_SIZE,
    ensures
        pages_fetched_from(total, page) == if n < MAX_PAGES {
            n
        } else {
            MAX_PAGES as nat
        },
    decreases MAX_PAGES - page,
{
    if page < MAX_PAGES && page < n {
        lemma_fetch_run(total, page + 1, n);
    }
}

/// Statuses worth another try: 408, 429, 500, 502, 503 and 504.
pub open spec fn retriable(code: u16) -> bool {
    code == 408 || code == 429 || code == 500 || code == 502 || code == 503 || code == 504
}

/// Whether an HTTP status is transient and the request may be retried.
pub fn is_retriable_status(code: u16) -> (r: bool)
    ensures
        r == retriable(code),
{
    code == 408 || code == 429 || code == 500 || code == 502 || code == 503 || code == 504
}

/// Accepts an envelope whose status is 200; any other carries its message out.
pub fn check_envelope(status: u8, message: &str) -> (r: Result<(), DriveError>)
    ensures
        status == 200 ==> r is Ok,
        status != 200 ==> (r matches Err(DriveError::Application(m)) && m@ == message@),
{
    if status == 200 {
        Ok(())
    } else {
        Err(DriveError::Application(String::from_str(message)))
    }
}

/// The `Range` header value for `len` bytes from `start`: `bytes=start-end`, both
/// ends included.
pub fn range_header(start: u64, len: u64) -> (r: Result<String, DriveError>)
    ensures
        (len == 0 || start + len - 1 > u64::MAX) <==> r is Err,
        r matches Err(e) ==> e == DriveError::InvalidRange,
        r matches Ok(h) ==> h@ == "bytes="@ + decimal(start as nat) + "-"@ + decimal(
            (start + len - 1) as nat,
        ),
{
    if len == 0 || len - 1 > u64::MAX - start {
        return Err(DriveError::InvalidRange);
    }
    let mut h = String::new();
    push_str(&mut h, "bytes=");
    push_decimal(&mut h, start);
    push_str(&mut h, "-");
    push_decimal(&mut h, start + (len - 1));
    assert(h@ =~= "bytes="@ + decimal(start as nat) + "-"@ + decimal((start + len - 1) as nat));
    Ok(h)
}

/// The URL of one page of the listing of directory `pdir_fid`.
pub fn list_url(base: &str, pdir_fid: &str, page: u32, size: u32) -> (r: String)
    ensures
        r@ == base@ + "/1/clouddrive/file/sort?pr=ucpro&fr=pc&pdir_fid="@ + pdir_fid@ + "&_page="@
            + decimal(page as nat) + "&_size="@ + decimal(size as nat)
            + "&_fetch_total=1&_fetch_sub_dirs=0&_sort=file_type:asc,updated_at:desc"@,
{
    let mut u = String::new();
    push_str(&mut u, base);
    push_str(&mut u, "/1/clouddrive/file/sort?pr=ucpro&fr=pc&pdir_fid=");
    push_str(&mut u, pdir_fid);
    push_str(&mut u, "&_page=");
    push_decimal(&mut u, page as u64);
    push_str(&mut u, "&_size=");
    push_decimal(&mut u, size as u64);
    push_str(&mut u, "&_fetch_total=1&_fetch_sub_dirs=0&_sort=file_type:asc,updated_at:desc");
    assert(u@ =~= base@ + "/1/clouddrive/file/sort?pr=ucpro&fr=pc&pdir_fid="@ + pdir_fid@ + "&_page="@
        + decimal(page as nat) + "&_size="@ + decimal(size as nat)
        + "&_fetch_total=1&_fetch_sub_dirs=0&_sort=file_type:asc,updated_at:desc"@);
    u
}

/// `base` followed by an endpoint path.
fn endpoint(base: &str, path: &str) -> (r: String)
    ensures
        r@ == base@ + path@,
{
    let mut u = String::new();
    push_str(&mut u, base);
    push_str(&mut u, path);
    u
}

/// The URL that issues download URLs.
pub fn download_urls_url(base: &str) -> (r: String)
    ensures
        r@ == base@ + "/1/clouddrive/file/download?pr=ucpro&fr=pc"@,
{
    endpoint(base, "/1/clouddrive/file/download?pr=ucpro&fr=pc")
}

/// The URL that renames a file.
pub fn rename_url(base: &str) -> (r: String)
    ensures
        r@ == base@ + "/1/clouddrive/file/rename?pr=ucpro&fr=pc"@,
{
    endpoint(base, "/1/clouddrive/file/rename?pr=ucpro&fr=pc")
}

/// The URL that moves a file.
pub fn move_url(base: &str) -> (r: String)
    ensures
        r@ == base@ + "/1/clouddrive/file/move?pr=ucpro&fr=pc"@,
{
    endpoint(base, "/1/clouddrive/file/move?pr=ucpro&fr=pc")
}

/// The URL that deletes a file.
pub fn delete_url(base: &str) -> (r: String)
    ensures
        r@ == base@ + "/1/clouddrive/file/delete?pr=ucpro&fr=pc"@,
{
    endpoint(base, "/1/clouddrive/file/delete?pr=ucpro&fr=pc")
}

/// The URL that creates a folder.
pub fn create_folder_url(base: &str) -> (r: String)
    ensures
        r@ == base@ + "/1/clouddrive/file?pr=ucpro&fr=pc"@,
{
    endpoint(base, "/1/clouddrive/file?pr=ucpro&fr=pc")
}

/// The URL that reports the quota.
pub fn quota_url(base: &str) -> (r: String)
    ensures
        r@ == base@
            + "/1/clouddrive/member?pr=ucpro&fr=pc&uc_param_str=&fetch_subscribe=true&_ch=home&fetch_identity=true"@,
{
    endpoint(
        base,
        "/1/clouddrive/member?pr=ucpro&fr=pc&uc_param_str=&fetch_subscribe=true&_ch=home&fetch_identity=true",
    )
}

/// The URL that pre-registers an upload.
pub fn up_pre_url(base: &str) -> (r: String)
    ensures
        r@ == base@ + "/1/clouddrive/file/upload/pre?pr=ucpro&fr=pc"@,
{
    endpoint(base, "/1/clouddrive/file/upload/pre?pr=ucpro&fr=pc")
}

/// The URL that announces an upload's hashes.
pub fn up_hash_url(base: &str) -> (r: String)
    ensures
        r@ == base@ + "/1/clouddrive/file/update/hash?pr=ucpro&fr=pc"@,
{
    endpoint(base, "/1/clouddrive/file/update/hash?pr=ucpro&fr=pc")
}

/// The body that renames `fid` to `name`.
pub fn rename_request(fid: &str, name: &str) -> (r: RenameFileRequest)
    ensures
        r.fid@ == fid@,
        r.file_name@ == name@,
{
    RenameFileRequest { fid: String::from_str(fid), file_name: String::from_str(name) }
}

/// The body that moves `fid` into the directory `to_parent`.
pub fn move_request(fid: &str, to_parent: &str) -> (r: MoveFileRequest)
    ensures
        r.filelist@.len() == 1,
        r.filelist@[0]@ == fid@,
        r.to_pdir_fid@ == to_parent@,
{
    MoveFileRequest { filelist: vec![String::from_str(fid)], to_pdir_fid: String::from_str(to_parent) }
}

/// The body that deletes `fid` for good (action 2, nothing excluded).
pub fn delete_request(fid: &str) -> (r: DeleteFilesRequest)
    ensures
        r.action_type == 2,
        r.exclude_fids@.len() == 0,
        r.filelist@.len() == 1,
        r.filelist@[0]@ == fid@,
{
    DeleteFilesRequest { action_type: 2, exclude_fids: Vec::new(), filelist: vec![String::from_str(fid)] }
}

/// The body that creates the folder `name` inside `parent`.
pub fn create_folder_request(parent: &str, name: &str) -> (r: CreateFolderRequest)
    ensures
        r.pdir_fid@ == parent@,
        r.file_name@ == name@,
        r.dir_path@.len() == 0,
        !r.dir_init_lock,
{
    CreateFolderRequest {
        pdir_fid: String::from_str(parent),
        file_name: String::from_str(name),
        dir_path: String::new(),
        dir_init_lock: false,
    }
}

/// The URL issued for `fid` among `(fid, url)` pairs: the first that names it.
pub fn download_url_for(pairs: &Vec<(String, String)>, fid: &str) -> (r: Result<String, DriveError>)
    ensures
        r matches Ok(u) ==> exists|i: int|
            0 <= i < pairs@.len() && pairs@[i].0@ == fid@ && pairs@[i].1@ == u@ && forall|j: int|
                0 <= j < i ==> pairs@[j].0@ != fid@,
        r is Err <==> forall|i: int| 0 <= i < pairs@.len() ==> pairs@[i].0@ != fid@,
        r matches Err(e) ==> (e matches DriveError::NoDownloadUrl(f) && f@ == fid@),
{
    let mut i: usize = 0;
    while i < pairs.len()
        invariant
            i <= pairs@.len(),
            forall|j: int| 0 <= j < i ==> pairs@[j].0@ != fid@,
        decreases pairs.len() - i,
    {
        if same_text(pairs[i].0.as_str(), fid) {
            return Ok(pairs[i].1.clone());
        }
        i = i + 1;
    }
    Err(DriveError::NoDownloadUrl(String::from_str(fid)))
}

} // verus!
