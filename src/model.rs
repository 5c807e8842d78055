//! The remote drive's records, request bodies and response envelopes.
use vstd::prelude::*;

use crate::cache::reversed;
use crate::html::{html_unescape, unescaped};
use crate::text::{ascii_lowered, extension, extension_of, lower_of, lowercase, same_text};

verus! {

/// One remote file or directory.
#[derive(Debug, Clone)]
pub struct QuarkFile {
    pub fid: String,
    pub file_name: String,
    pub pdir_fid: String,
    pub size: u64,
    pub format_type: String,
    pub status: u8,
    pub created_at: u64,
    pub updated_at: u64,
    pub dir: bool,
    pub file: bool,
    pub download_url: Option<String>,
    pub content_hash: Option<String>,
    /// The directory path under which the record was cached; set by the cache.
    pub parent_path: Option<String>,
}

/// The synthetic root record at a given time: fid `"0"`, a directory with an
/// empty name and no parent.
pub open spec fn is_root_record(f: QuarkFile, now: u64) -> bool {
    &&& f.fid@ == "0"@
    &&& f.file_name@.len() == 0
    &&& f.pdir_fid@.len() == 0
    &&& f.size == 0
    &&& f.format_type@.len() == 0
    &&& f.status == 1
    &&& f.created_at == now
    &&& f.updated_at == now
    &&& f.dir
    &&& !f.file
    &&& f.download_url is None
    &&& f.content_hash is None
    &&& f.parent_path is None
}

/// Relies on `SystemTime::now`: milliseconds since the Unix epoch, or `None`
/// when the clock stands before it.
#[verifier::external_body]
fn unix_millis_now() -> Option<u64> {
    std::time::SystemTime::now().duration_since(std::time::UNIX_EPOCH).ok().map(|d| d.as_millis() as u64)
}

impl QuarkFile {
    /// The synthetic root record, stamped with the given time.
    pub fn new_root_at(now: u64) -> (r: QuarkFile)
        ensures
            is_root_record(r, now),
    {
        proof {
            reveal_strlit("0");
        }
        QuarkFile {
            pdir_fid: String::new(),
            size: 0,
            format_type: String::new(),
            status: 1,
            created_at: now,
            updated_at: now,
            dir: true,
            file: false,
            file_name: String::new(),
            fid: String::from_str("0"),
            download_url: None,
            content_hash: None,
            parent_path: None,
        }
    }

    /// The synthetic root record that seeds every descent, stamped with the
    /// current time (0 if the clock stands before the epoch).
    pub fn new_root() -> (r: QuarkFile)
        ensures
            exists|now: u64| is_root_record(r, now),
    {
        let now = match unix_millis_now() {
            Some(t) => t,
            None => 0,
        };
        QuarkFile::new_root_at(now)
    }
}

/// The remote's uniform response envelope.
#[derive(Debug, Clone)]
pub struct Response<T, U> {
    pub status: u8,
    pub code: u32,
    pub message: String,
    pub timestamp: u64,
    pub data: T,
    pub metadata: U,
}

pub type GetFilesResponse = Response<FilesData, FilesMetadata>;

pub type GetFilesDownloadUrlsResponse = Response<Vec<FileDownloadUrlItem>, FileDownloadUrlMetadata>;

pub type DeleteFilesResponse = Response<DeleteFilesData, DeleteFilesMetadata>;

pub type CreateFolderResponse = Response<CreateFolderData, EmptyMetadata>;

pub type RenameFileResponse = Response<EmptyData, EmptyMetadata>;

pub type CommonResponse = Response<EmptyData, EmptyMetadata>;

pub type GetSpaceInfoResponse = Response<GetSpaceInfoResponseData, EmptyMetadata>;

pub type UpPreResponse = Response<UpPreResponseData, UpPreResponseMetaData>;

pub type UpHashResponse = Response<UpHashResponseData, EmptyMetadata>;

pub type AuthResponse = Response<AuthResponseData, EmptyMetadata>;

pub type FinishResponse = Response<EmptyData, EmptyMetadata>;

/// Body of a request for download URLs.
#[derive(Debug, Clone)]
pub struct GetFilesDownloadUrlsRequest {
    pub fids: Vec<String>,
}

/// One entry of a listing as the remote reports it, with its classification fields.
#[derive(Debug, Clone)]
pub struct GetFileItem {
    pub fid: String,
    pub file_name: String,
    pub pdir_fid: String,
    pub category: u8,
    pub file_type: u8,
    pub size: u64,
    pub format_type: String,
    pub status: u8,
    pub tag: String,
    pub created_at: u64,
    pub updated_at: u64,
    pub dir: bool,
    pub file: bool,
}

/// Body of a delete request.
#[derive(Debug, Clone)]
pub struct DeleteFilesRequest {
    pub action_type: u8,
    pub exclude_fids: Vec<String>,
    pub filelist: Vec<String>,
}

/// Body of a folder creation request.
#[derive(Debug, Clone)]
pub struct CreateFolderRequest {
    pub pdir_fid: String,
    pub file_name: String,
    pub dir_path: String,
    pub dir_init_lock: bool,
}

/// Body of a rename request.
#[derive(Debug, Clone)]
pub struct RenameFileRequest {
    pub fid: String,
    pub file_name: String,
}

/// Body of a move request.
#[derive(Debug, Clone)]
pub struct MoveFileRequest {
    pub filelist: Vec<String>,
    pub to_pdir_fid: String,
}

/// Body of an upload pre-registration request.
#[derive(Debug, Clone)]
pub struct UpPreRequest {
    pub file_name: String,
    pub size: u64,
    pub pdir_fid: String,
    pub format_type: String,
    pub ccp_hash_update: bool,
    pub l_created_at: u64,
    pub l_updated_at: u64,
    pub parallel_upload: bool,
    pub dir_name: String,
}

/// Body of an upload hash announcement.
#[derive(Debug, Clone)]
pub struct UpHashRequest {
    pub md5: String,
    pub sha1: String,
    pub task_id: String,
}

/// Body of an upload authorisation request.
#[derive(Debug, Clone)]
pub struct AuthRequest {
    pub auth_info: String,
    pub auth_meta: String,
    pub task_id: String,
}

/// Body of an upload completion request.
#[derive(Debug, Clone)]
pub struct FinishRequest {
    pub obj_key: String,
    pub task_id: String,
}

/// What one part upload needs.
#[derive(Debug, Clone)]
pub struct UpPartMethodRequest {
    pub auth_key: String,
    pub mime_type: String,
    pub utc_time: String,
    pub bucket: String,
    pub upload_url: String,
    pub obj_key: String,
    pub part_number: u32,
    pub upload_id: String,
    pub part_bytes: Vec<u8>,
}

/// Payload of a listing response.
#[derive(Debug, Clone)]
pub struct FilesData {
    pub list: Vec<QuarkFile>,
}

/// Paging metadata of a listing response.
#[derive(Debug, Clone)]
pub struct FilesMetadata {
    pub total: u32,
    pub count: u32,
    pub page: u32,
}

/// Payload of a delete response.
#[derive(Debug, Clone)]
pub struct DeleteFilesData {
    pub task_id: String,
    pub finish: bool,
}

/// Metadata of a delete response.
#[derive(Debug, Clone)]
pub struct DeleteFilesMetadata {
    pub tq_gap: u32,
}

/// Payload of a folder creation response.
#[derive(Debug, Clone)]
pub struct CreateFolderData {
    pub finish: bool,
    pub fid: String,
}

/// Metadata of responses that carry none.
#[derive(Debug, Clone)]
pub struct EmptyMetadata {}

/// Payload of responses that carry none.
#[derive(Debug, Clone)]
pub struct EmptyData {}

/// One page of a listing with the remote's total count.
#[derive(Debug, Clone)]
pub struct QuarkFiles {
    pub list: Vec<QuarkFile>,
    pub total: u32,
}

/// One issued download URL.
#[derive(Debug, Clone)]
pub struct FileDownloadUrlItem {
    pub fid: String,
    pub download_url: String,
}

/// Metadata of a download URL response.
#[derive(Debug, Clone)]
pub struct FileDownloadUrlMetadata {}

/// Payload of a quota response.
#[derive(Debug, Clone)]
pub struct GetSpaceInfoResponseData {
    pub total_capacity: u64,
    pub use_capacity: u64,
}

/// Metadata of a quota response.
#[derive(Debug, Clone)]
pub struct GetSpaceInfoResponseMetaData {}

/// Payload of an upload authorisation response.
#[derive(Debug, Clone)]
pub struct AuthResponseData {
    pub auth_key: String,
}

/// Payload of an upload pre-registration response.
#[derive(Debug, Clone)]
pub struct UpPreResponseData {
    pub finish: bool,
    pub task_id: String,
    pub upload_id: Option<String>,
    pub auth_info: String,
    pub upload_url: String,
    pub obj_key: String,
    pub fid: String,
    pub bucket: String,
    pub format_type: String,
    pub auth_info_expried: u64,
    pub callback: Callback,
}

/// Body of an upload commit request.
#[derive(Debug, Clone)]
pub struct UpAuthAndCommitRequest {
    pub md5s: Vec<String>,
    pub callback: Callback,
    pub bucket: String,
    pub obj_key: String,
    pub upload_id: String,
    pub auth_info: String,
    pub task_id: String,
    pub upload_url: String,
}

/// Callback description handed back by upload pre-registration.
#[derive(Debug, Clone)]
pub struct Callback {
    pub callback_url: String,
    pub callback_body: String,
}

/// Part sizing hints of an upload pre-registration response.
#[derive(Debug, Clone)]
pub struct UpPreResponseMetaData {
    pub part_size: u64,
    pub part_thread: u32,
}

/// Payload of an upload hash response.
#[derive(Debug, Clone)]
pub struct UpHashResponseData {
    pub finish: bool,
}

/// The URL of the last item of `items` issued for `fid`, if any.
pub open spec fn last_url(items: Seq<FileDownloadUrlItem>, fid: Seq<char>) -> Option<Seq<char>>
    decreases items.len(),
{
    if items.len() == 0 {
        None
    } else if items.last().fid@ == fid {
        Some(items.last().download_url@)
    } else {
        last_url(items.drop_last(), fid)
    }
}

/// `pairs` is a map from fid to URL: each fid of `items` appears once, with the
/// URL of the last item issued for it, and no other fid appears.
pub open spec fn is_url_map(pairs: Seq<(String, String)>, items: Seq<FileDownloadUrlItem>) -> bool {
    &&& forall|i: int, j: int| 0 <= i < j < pairs.len() ==> pairs[i].0@ != pairs[j].0@
    &&& forall|i: int| 0 <= i < pairs.len() ==> last_url(items, #[trigger] pairs[i].0@) == Some(pairs[i].1@)
    &&& forall|k: Seq<char>|
        #[trigger] last_url(items, k) is Some ==> exists|i: int| 0 <= i < pairs.len() && pairs[i].0@ == k
}

impl Response<Vec<FileDownloadUrlItem>, FileDownloadUrlMetadata> {
    /// The issued URLs as a map from fid to URL, held as `(fid, url)` pairs
    /// with unique fids: a fid issued twice keeps its last URL.
    pub fn into_map(self) -> (r: Vec<(String, String)>)
        ensures
            is_url_map(r@, self.data@),
    {
        let mut out: Vec<(String, String)> = Vec::new();
        let mut i: usize = 0;
        assert(self.data@.take(0) =~= Seq::<FileDownloadUrlItem>::empty());
        while i < self.data.len()
            invariant
                i <= self.data@.len(),
                is_url_map(out@, self.data@.take(i as int)),
            decreases self.data.len() - i,
        {
            let item = &self.data[i];
            let ghost before = self.data@.take(i as int);
            let ghost after = self.data@.take(i + 1);
            assert(after.drop_last() =~= before);
            assert(after.last() == *item);
            let mut j: usize = 0;
            while j < out.len() && !same_text(out[j].0.as_str(), item.fid.as_str())
                invariant
                    j <= out@.len(),
                    forall|m: int| 0 <= m < j ==> out@[m].0@ != item.fid@,
                decreases out.len() - j,
            {
                j = j + 1;
            }
            let ghost old_out = out@;
            let pair = (item.fid.clone(), item.download_url.clone());
            if j < out.len() {
                out.set(j, pair);
                assert forall|a: int, b: int| 0 <= a < b < out@.len() implies out@[a].0@ != out@[b].0@ by {
                    assert(old_out[a].0@ != old_out[b].0@);
                }
            } else {
                out.push(pair);
            }
            assert forall|m: int| 0 <= m < out@.len() implies last_url(after, #[trigger] out@[m].0@)
                == Some(out@[m].1@) by {
                if m < old_out.len() && m != j {
                    assert(out@[m] == old_out[m]);
                    assert(last_url(before, old_out[m].0@) == Some(old_out[m].1@));
                }
            }
            assert forall|k: Seq<char>| #[trigger] last_url(after, k) is Some implies exists|m: int|
                0 <= m < out@.len() && out@[m].0@ == k by {
                if k == item.fid@ {
                    assert(out@[j as int].0@ == k);
                } else {
                    assert(last_url(before, k) is Some);
                    let m = choose|m: int| 0 <= m < old_out.len() && old_out[m].0@ == k;
                    assert(out@[m].0@ == k);
                }
            }
            i = i + 1;
        }
        assert(self.data@.take(i as int) =~= self.data@);
        out
    }
}

/// The MIME type announced for a lower-case file extension.
pub open spec fn ext_mime(e: Seq<char>) -> Seq<char> {
    if e == "jpg"@ || e == "jpeg"@ {
        "image/jpeg"@
    } else if e == "png"@ {
        "image/png"@
    } else if e == "gif"@ {
        "image/gif"@
    } else if e == "mp4"@ {
        "video/mp4"@
    } else if e == "avi"@ {
        "video/x-msvideo"@
    } else if e == "mov"@ {
        "video/quicktime"@
    } else if e == "mp3"@ {
        "audio/mpeg"@
    } else if e == "wav"@ {
        "audio/wav"@
    } else if e == "pdf"@ {
        "application/pdf"@
    } else if e == "doc"@ || e == "docx"@ {
        "application/msword"@
    } else if e == "xls"@ || e == "xlsx"@ {
        "application/vnd.ms-excel"@
    } else if e == "ppt"@ || e == "pptx"@ {
        "application/vnd.ms-powerpoint"@
    } else if e == "txt"@ {
        "text/plain"@
    } else if e == "zip"@ {
        "application/zip"@
    } else if e == "rar"@ {
        "application/vnd.rar"@
    } else if e == "7z"@ {
        "application/x-7z-compressed"@
    } else {
        "application/octet-stream"@
    }
}

/// The MIME type for a lower-case file extension.
pub fn format_type_for_extension(ext: &str) -> (r: &'static str)
    ensures
        r@ == ext_mime(ext@),
{
    if same_text(ext, "jpg") || same_text(ext, "jpeg") {
        "image/jpeg"
    } else if same_text(ext, "png") {
        "image/png"
    } else if same_text(ext, "gif") {
        "image/gif"
    } else if same_text(ext, "mp4") {
        "video/mp4"
    } else if same_text(ext, "avi") {
        "video/x-msvideo"
    } else if same_text(ext, "mov") {
        "video/quicktime"
    } else if same_text(ext, "mp3") {
        "audio/mpeg"
    } else if same_text(ext, "wav") {
        "audio/wav"
    } else if same_text(ext, "pdf") {
        "application/pdf"
    } else if same_text(ext, "doc") || same_text(ext, "docx") {
        "application/msword"
    } else if same_text(ext, "xls") || same_text(ext, "xlsx") {
        "application/vnd.ms-excel"
    } else if same_text(ext, "ppt") || same_text(ext, "pptx") {
        "application/vnd.ms-powerpoint"
    } else if same_text(ext, "txt") {
        "text/plain"
    } else if same_text(ext, "zip") {
        "application/zip"
    } else if same_text(ext, "rar") {
        "application/vnd.rar"
    } else if same_text(ext, "7z") {
        "application/x-7z-compressed"
    } else {
        "application/octet-stream"
    }
}

/// `new` is `old` with its name's entities decoded.
pub open spec fn decoded_record(new: QuarkFile, old: QuarkFile) -> bool {
    &&& new.fid == old.fid
    &&& new.file_name@ == unescaped(old.file_name@)
    &&& new.pdir_fid == old.pdir_fid
    &&& new.size == old.size
    &&& new.format_type == old.format_type
    &&& new.status == old.status
    &&& new.created_at == old.created_at
    &&& new.updated_at == old.updated_at
    &&& new.dir == old.dir
    &&& new.file == old.file
    &&& new.download_url == old.download_url
    &&& new.content_hash == old.content_hash
    &&& new.parent_path == old.parent_path
}

impl QuarkFiles {
    /// The page a listing response carries, with the remote's total and each
    /// name's HTML entities decoded.
    pub fn from_response(response: Response<FilesData, FilesMetadata>) -> (r: QuarkFiles)
        ensures
            r.total == response.metadata.total,
            r.list@.len() == response.data.list@.len(),
            forall|i: int|
                0 <= i < r.list@.len() ==> decoded_record(#[trigger] r.list@[i], response.data.list@[i]),
    {
        let ghost orig = response.data.list@;
        let total = response.metadata.total;
        let mut rev = reversed(response.data.list);
        let mut out: Vec<QuarkFile> = Vec::new();
        while rev.len() > 0
            invariant
                out@.len() + rev@.len() == orig.len(),
                forall|j: int| 0 <= j < rev@.len() ==> rev@[j] == orig[orig.len() - 1 - j],
                forall|i: int| 0 <= i < out@.len() ==> decoded_record(#[trigger] out@[i], orig[i]),
            decreases rev.len(),
        {
            let f = rev.pop().unwrap();
            let name = html_unescape(f.file_name.as_str());
            out.push(QuarkFile { file_name: name, ..f });
        }
        QuarkFiles { list: out, total }
    }
}

/// The MIME type announced for a file, chosen by its extension, whatever its case.
pub fn get_format_type(file_name: &str) -> (r: &'static str)
    ensures
        r@ == ext_mime(lower_of(extension(file_name@))),
        vstd::utf8::is_ascii_chars(extension(file_name@)) ==> r@ == ext_mime(ascii_lowered(extension(file_name@))),
{
    let ext = extension_of(file_name);
    let lower = lowercase(ext.as_str());
    format_type_for_extension(lower.as_str())
}

} // verus!
