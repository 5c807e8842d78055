//! The HTML directory index served to browsers.
use vstd::prelude::*;
use vstd::utf8::encode_utf8;

use crate::front::{trim_end_slashes, trim_start_slashes, trim_slashes};
use crate::html::{
    escaped, ext_icon, file_icon, format_size, format_timestamp, html_escape, size_text,
    timestamp_text,
};
use crate::model::QuarkFile;
use crate::cache::copy_record;
use crate::paths::{first_segment_len, lemma_first_segment_len, root_path};
use crate::percent::{lossy_text, percent_decode, percent_decoded, percent_encode_path, percent_encoded};
use crate::text::{chars_of, decimal, extension, lower_of, lowercase, push_char, push_decimal_wide, push_str, same_text};

verus! {

/// Page text before the title.
pub const PAGE_HEAD: &'static str = r#"<!DOCTYPE html>
<html lang="zh-CN">
<head>
<meta charset="utf-8">
<meta name="viewport" content="width=device-width, initial-scale=1">
<title>QuarkDrive - "#;

/// Page text between the title and the breadcrumbs.
pub const PAGE_AFTER_TITLE: &'static str = r#"</title>
<link rel="icon" type="image/svg+xml" href="data:image/svg+xml,%3Csvg xmlns='http://www.w3.org/2000/svg' viewBox='0 0 64 64'%3E%3Crect width='64' height='64' rx='12' fill='%232563eb'/%3E%3Ctext x='32' y='40' font-family='Arial,Helvetica,sans-serif' font-size='26' font-weight='bold' fill='white' text-anchor='middle'%3EQW%3C/text%3E%3C/svg%3E">
<style>
* { margin: 0; padding: 0; box-sizing: border-box; }
body { font-family: -apple-system, BlinkMacSystemFont, "Segoe UI", Roboto, "Helvetica Neue", Arial, sans-serif; background: #f5f5f5; color: #333; line-height: 1.6; }
.container { max-width: 960px; margin: 0 auto; padding: 20px; }
.header { background: #fff; border-radius: 8px; padding: 16px 24px; margin-bottom: 16px; box-shadow: 0 1px 3px rgba(0,0,0,0.1); }
.header h1 { font-size: 18px; font-weight: 600; color: #1a1a1a; margin-bottom: 8px; }
.breadcrumb { font-size: 14px; color: #666; }
.breadcrumb a { color: #2563eb; text-decoration: none; }
.breadcrumb a:hover { text-decoration: underline; }
.breadcrumb .current { color: #333; font-weight: 500; }
.content { background: #fff; border-radius: 8px; box-shadow: 0 1px 3px rgba(0,0,0,0.1); overflow: hidden; }
table { width: 100%; border-collapse: collapse; }
thead { background: #fafafa; }
th { text-align: left; padding: 12px 16px; font-size: 13px; font-weight: 600; color: #666; border-bottom: 1px solid #eee; }
td { padding: 10px 16px; border-bottom: 1px solid #f0f0f0; font-size: 14px; }
tr:hover { background: #f8fafc; }
tr.parent:hover { background: #f0f7ff; }
tr.dir:hover { background: #f0f7ff; }
.icon { width: 32px; text-align: center; }
.name { word-break: break-all; }
.name a { color: #1a1a1a; text-decoration: none; }
.name a:hover { color: #2563eb; text-decoration: underline; }
.dir .name a { font-weight: 500; }
.size { width: 100px; text-align: right; color: #888; white-space: nowrap; }
.date { width: 160px; color: #888; white-space: nowrap; }
.footer { text-align: center; padding: 16px; font-size: 12px; color: #aaa; }
.footer a { color: #aaa; text-decoration: none; }
.footer a:hover { color: #2563eb; text-decoration: underline; }
@media (max-width: 640px) {
  .container { padding: 10px; }
  .date { display: none; }
  th:last-child { display: none; }
  .size { width: 80px; }
}
</style>
</head>
<body>
<div class="container">
  <div class="header">
    <h1><a href="https://github.com/chenqimiao/quarkdrive-webdav" target="_blank" style="color:inherit;text-decoration:none;">QuarkDrive WebDAV</a></h1>
    <div class="breadcrumb">"#;

/// Page text between the breadcrumbs and the rows.
pub const PAGE_AFTER_CRUMBS: &'static str = r#"</div>
  </div>
  <div class="content">
    <table>
      <thead><tr><th class="icon"></th><th>名称</th><th class="size">大小</th><th class="date">修改时间</th></tr></thead>
      <tbody>"#;

/// Page text between the rows and the item count.
pub const PAGE_AFTER_ROWS: &'static str = r#"</tbody>
    </table>
  </div>
  <div class="footer">"#;

/// Page text after the item count.
pub const PAGE_TAIL: &'static str = r#" 个项目 · <a href="https://github.com/chenqimiao/quarkdrive-webdav" target="_blank">GitHub</a></div>
</div>
</body>
</html>"#;

/// The root link that starts the breadcrumbs.
pub const CRUMB_ROOT: &'static str = r#"<a href="/">根目录</a>"#;

/// The row that links to the parent directory.
pub const PARENT_ROW: &'static str = r#"<tr class="parent"><td class="icon">📁</td><td class="name"><a href="../">..</a></td><td class="size">-</td><td class="date">-</td></tr>"#;

/// The percent-encoding of a name's UTF-8 form.
pub open spec fn encoded_name(name: Seq<char>) -> Seq<char> {
    percent_encoded(encode_utf8(name))
}

/// The request path as shown: decoded, and `/` when it is empty.
pub open spec fn display_path(req: Seq<char>) -> Seq<char> {
    let d = lossy_text(percent_decoded(encode_utf8(req)));
    if d.len() == 0 || d == root_path() {
        root_path()
    } else {
        d
    }
}

/// The request path with one trailing `/`, the base of the entries' links.
pub open spec fn link_base(req: Seq<char>) -> Seq<char> {
    if req.len() == 0 || req.last() == '/' {
        req
    } else {
        req + seq!['/']
    }
}

/// The breadcrumb items for the segments of `rest`, each linking to the path up
/// to it; `href` is the path of the segments before `rest`.
pub open spec fn crumbs_from(rest: Seq<char>, href: Seq<char>) -> Seq<char>
    decreases rest.len(),
{
    let n = first_segment_len(rest) as nat;
    let part = rest.take(n as int);
    let h = href + seq!['/'] + encoded_name(part);
    if n >= rest.len() {
        " / <span class=\"current\">"@ + escaped(part) + "</span>"@
    } else {
        " / <a href=\""@ + escaped(h + seq!['/']) + "\">"@ + escaped(part) + "</a>"@ + crumbs_from(
            rest.skip(n as int + 1),
            h,
        )
    }
}

/// The breadcrumb trail of a shown path.
pub open spec fn breadcrumbs(display: Seq<char>) -> Seq<char> {
    if display == root_path() {
        CRUMB_ROOT@
    } else {
        CRUMB_ROOT@ + crumbs_from(trim_end_slashes(trim_start_slashes(display)), seq![])
    }
}

/// The directories of `s`, in order.
pub open spec fn dirs_in(s: Seq<QuarkFile>) -> Seq<QuarkFile>
    decreases s.len(),
{
    if s.len() == 0 {
        s
    } else if s.last().dir {
        dirs_in(s.drop_last()).push(s.last())
    } else {
        dirs_in(s.drop_last())
    }
}

/// The regular files of `s`, in order.
pub open spec fn files_in(s: Seq<QuarkFile>) -> Seq<QuarkFile>
    decreases s.len(),
{
    if s.len() == 0 {
        s
    } else if s.last().file {
        files_in(s.drop_last()).push(s.last())
    } else {
        files_in(s.drop_last())
    }
}

/// The sort key of a record: its lower-cased name.
pub open spec fn name_key(f: QuarkFile) -> Seq<char> {
    lower_of(f.file_name@)
}

/// Lexicographic order of texts by code point, as `str` compares them.
pub open spec fn text_le(a: Seq<char>, b: Seq<char>) -> bool
    decreases a.len(),
{
    if a.len() == 0 {
        true
    } else if b.len() == 0 {
        false
    } else if a[0] != b[0] {
        (a[0] as u32) < (b[0] as u32)
    } else {
        text_le(a.skip(1), b.skip(1))
    }
}

/// Where a record with key `k` goes in `sorted`: after every record whose key
/// is not greater.
pub open spec fn insert_pos(sorted: Seq<QuarkFile>, k: Seq<char>) -> int
    decreases sorted.len(),
{
    if sorted.len() == 0 {
        0
    } else if text_le(name_key(sorted.last()), k) {
        sorted.len() as int
    } else {
        insert_pos(sorted.drop_last(), k)
    }
}

/// `s` sorted by name key, records with equal keys in the order they came.
pub open spec fn sorted_by_name(s: Seq<QuarkFile>) -> Seq<QuarkFile>
    decreases s.len(),
{
    if s.len() == 0 {
        s
    } else {
        let t = sorted_by_name(s.drop_last());
        t.insert(insert_pos(t, name_key(s.last())), s.last())
    }
}

/// The row of a directory.
pub open spec fn dir_row(base: Seq<char>, f: QuarkFile) -> Seq<char> {
    "<tr class=\"dir\"><td class=\"icon\">📁</td><td class=\"name\"><a href=\""@ + escaped(
        base + encoded_name(f.file_name@) + seq!['/'],
    ) + "\">"@ + escaped(f.file_name@) + "</a></td><td class=\"size\">-</td><td class=\"date\">"@
        + timestamp_text(f.updated_at as nat) + "</td></tr>"@
}

/// The row of a regular file.
pub open spec fn file_row(base: Seq<char>, f: QuarkFile) -> Seq<char> {
    "<tr class=\"file\"><td class=\"icon\">"@ + ext_icon(lower_of(extension(f.file_name@)))
        + "</td><td class=\"name\"><a href=\""@ + escaped(base + encoded_name(f.file_name@)) + "\">"@
        + escaped(f.file_name@) + "</a></td><td class=\"size\">"@ + size_text(f.size as nat)
        + "</td><td class=\"date\">"@ + timestamp_text(f.updated_at as nat) + "</td></tr>"@
}

/// The rows of directories `ds`, in order.
pub open spec fn dir_rows(base: Seq<char>, ds: Seq<QuarkFile>) -> Seq<char>
    decreases ds.len(),
{
    if ds.len() == 0 {
        seq![]
    } else {
        dir_rows(base, ds.drop_last()) + dir_row(base, ds.last())
    }
}

/// The rows of files `fs`, in order.
pub open spec fn file_rows(base: Seq<char>, fs: Seq<QuarkFile>) -> Seq<char>
    decreases fs.len(),
{
    if fs.len() == 0 {
        seq![]
    } else {
        file_rows(base, fs.drop_last()) + file_row(base, fs.last())
    }
}

/// The index page of `files` under the request path `req`: breadcrumbs, a
/// parent link below the root, the directories and then the files, each sorted
/// by name, and the number of entries shown.
pub open spec fn directory_page(req: Seq<char>, files: Seq<QuarkFile>) -> Seq<char> {
    let display = display_path(req);
    let base = link_base(req);
    let ds = sorted_by_name(dirs_in(files));
    let fs = sorted_by_name(files_in(files));
    let parent = if display == root_path() {
        seq![]
    } else {
        PARENT_ROW@
    };
    PAGE_HEAD@ + escaped(display) + PAGE_AFTER_TITLE@ + breadcrumbs(display) + PAGE_AFTER_CRUMBS@
        + parent + dir_rows(base, ds) + file_rows(base, fs) + PAGE_AFTER_ROWS@ + decimal(
        (ds.len() + fs.len()) as nat,
    ) + PAGE_TAIL@
}

/// Whether `a` sorts before or with `b`.
fn text_le_exec(a: &Vec<char>, b: &Vec<char>) -> (r: bool)
    ensures
        r == text_le(a@, b@),
{
    let mut i: usize = 0;
    assert(a@.skip(0) =~= a@);
    assert(b@.skip(0) =~= b@);
    while i < a.len() && i < b.len() && a[i] == b[i]
        invariant
            i <= a@.len(),
            i <= b@.len(),
            text_le(a@, b@) == text_le(a@.skip(i as int), b@.skip(i as int)),
        decreases a.len() - i,
    {
        assert(a@.skip(i as int).skip(1) =~= a@.skip(i + 1));
        assert(b@.skip(i as int).skip(1) =~= b@.skip(i + 1));
        i = i + 1;
    }
    if i == a.len() {
        true
    } else if i == b.len() {
        false
    } else {
        assert(a@.skip(i as int)[0] == a@[i as int]);
        assert(b@.skip(i as int)[0] == b@[i as int]);
        (a[i] as u32) < (b[i] as u32)
    }
}

proof fn lemma_insert_pos_bounds(sorted: Seq<QuarkFile>, k: Seq<char>)
    ensures
        0 <= insert_pos(sorted, k) <= sorted.len(),
    decreases sorted.len(),
{
    if sorted.len() > 0 {
        lemma_insert_pos_bounds(sorted.drop_last(), k);
    }
}

/// `files` sorted by lower-cased name; equal names keep their order.
pub fn sort_by_name(files: Vec<QuarkFile>) -> (r: Vec<QuarkFile>)
    ensures
        r@ == sorted_by_name(files@),
{
    let ghost orig = files@;
    let mut rev = crate::cache::reversed(files);
    let mut out: Vec<QuarkFile> = Vec::new();
    let mut keys: Vec<Vec<char>> = Vec::new();
    assert(orig.take(0) =~= seq![]);
    while rev.len() > 0
        invariant
            out@.len() + rev@.len() == orig.len(),
            forall|j: int| 0 <= j < rev@.len() ==> rev@[j] == orig[orig.len() - 1 - j],
            out@ == sorted_by_name(orig.take(out@.len() as int)),
            keys@.len() == out@.len(),
            forall|m: int| 0 <= m < keys@.len() ==> (#[trigger] keys@[m])@ == name_key(out@[m]),
        decreases rev.len(),
    {
        let ghost done = out@.len();
        let x = rev.pop().unwrap();
        assert(x == orig[done as int]);
        let lowered = lowercase(x.file_name.as_str());
        let key = chars_of(lowered.as_str());
        let mut j: usize = out.len();
        assert(out@.take(j as int) =~= out@);
        while j > 0 && !text_le_exec(&keys[j - 1], &key)
            invariant
                j <= out@.len(),
                keys@.len() == out@.len(),
                forall|m: int| 0 <= m < keys@.len() ==> (#[trigger] keys@[m])@ == name_key(out@[m]),
                key@ == name_key(x),
                insert_pos(out@, name_key(x)) == insert_pos(out@.take(j as int), name_key(x)),
            decreases j,
        {
            assert(out@.take(j as int).drop_last() =~= out@.take(j - 1));
            j = j - 1;
        }
        proof {
            if j > 0 {
                assert(out@.take(j as int).last() == out@[j - 1]);
            }
            let prefix = orig.take(done as int + 1);
            assert(prefix.drop_last() =~= orig.take(done as int));
            assert(prefix.last() == x);
        }
        let ghost old_out = out@;
        let ghost old_keys = keys@;
        proof {
            lemma_insert_pos_bounds(old_out, name_key(x));
        }
        out.insert(j, x);
        keys.insert(j, key);
        proof {
            assert forall|m: int| 0 <= m < keys@.len() implies (#[trigger] keys@[m])@ == name_key(out@[m]) by {
                if m < j {
                    assert(keys@[m] == old_keys[m]);
                    assert(out@[m] == old_out[m]);
                } else if m > j {
                    assert(keys@[m] == old_keys[m - 1]);
                    assert(out@[m] == old_out[m - 1]);
                }
            }
        }
    }
    assert(orig.take(orig.len() as int) =~= orig);
    out
}

/// The directories of `files`, copied in order.
pub fn only_dirs(files: &[QuarkFile]) -> (r: Vec<QuarkFile>)
    ensures
        r@ == dirs_in(files@),
{
    let mut out: Vec<QuarkFile> = Vec::new();
    let mut i: usize = 0;
    assert(files@.take(0) =~= seq![]);
    while i < files.len()
        invariant
            i <= files@.len(),
            out@ == dirs_in(files@.take(i as int)),
        decreases files.len() - i,
    {
        assert(files@.take(i + 1).drop_last() =~= files@.take(i as int));
        if files[i].dir {
            out.push(copy_record(&files[i]));
        }
        i = i + 1;
    }
    assert(files@.take(i as int) =~= files@);
    out
}

/// The regular files of `files`, copied in order.
pub fn only_files(files: &[QuarkFile]) -> (r: Vec<QuarkFile>)
    ensures
        r@ == files_in(files@),
{
    let mut out: Vec<QuarkFile> = Vec::new();
    let mut i: usize = 0;
    assert(files@.take(0) =~= seq![]);
    while i < files.len()
        invariant
            i <= files@.len(),
            out@ == files_in(files@.take(i as int)),
        decreases files.len() - i,
    {
        assert(files@.take(i + 1).drop_last() =~= files@.take(i as int));
        if files[i].file {
            out.push(copy_record(&files[i]));
        }
        i = i + 1;
    }
    assert(files@.take(i as int) =~= files@);
    out
}

fn push_dir_row(out: &mut String, base: &str, f: &QuarkFile)
    ensures
        final(out)@ == old(out)@ + dir_row(base@, *f),
{
    let mut href = String::from_str(base);
    let enc = percent_encode_path(f.file_name.as_str());
    push_str(&mut href, enc.as_str());
    push_char(&mut href, '/');
    push_str(out, "<tr class=\"dir\"><td class=\"icon\">📁</td><td class=\"name\"><a href=\"");
    let h = html_escape(href.as_str());
    push_str(out, h.as_str());
    push_str(out, "\">");
    let n = html_escape(f.file_name.as_str());
    push_str(out, n.as_str());
    push_str(out, "</a></td><td class=\"size\">-</td><td class=\"date\">");
    let d = format_timestamp(f.updated_at);
    push_str(out, d.as_str());
    push_str(out, "</td></tr>");
    assert(href@ =~= base@ + encoded_name(f.file_name@) + seq!['/']);
    assert(final(out)@ =~= old(out)@ + dir_row(base@, *f));
}

fn push_file_row(out: &mut String, base: &str, f: &QuarkFile)
    ensures
        final(out)@ == old(out)@ + file_row(base@, *f),
{
    let mut href = String::from_str(base);
    let enc = percent_encode_path(f.file_name.as_str());
    push_str(&mut href, enc.as_str());
    push_str(out, "<tr class=\"file\"><td class=\"icon\">");
    push_str(out, file_icon(f.file_name.as_str()));
    push_str(out, "</td><td class=\"name\"><a href=\"");
    let h = html_escape(href.as_str());
    push_str(out, h.as_str());
    push_str(out, "\">");
    let n = html_escape(f.file_name.as_str());
    push_str(out, n.as_str());
    push_str(out, "</a></td><td class=\"size\">");
    let sz = format_size(f.size);
    push_str(out, sz.as_str());
    push_str(out, "</td><td class=\"date\">");
    let d = format_timestamp(f.updated_at);
    push_str(out, d.as_str());
    push_str(out, "</td></tr>");
    assert(href@ =~= base@ + encoded_name(f.file_name@));
    assert(final(out)@ =~= old(out)@ + file_row(base@, *f));
}

fn push_breadcrumbs(out: &mut String, display: &str, at_root: bool)
    requires
        at_root == (display@ == root_path()),
    ensures
        final(out)@ == old(out)@ + breadcrumbs(display@),
{
    push_str(out, CRUMB_ROOT);
    if at_root {
        return;
    }
    let trimmed = trim_slashes(display);
    let v = chars_of(trimmed.as_str());
    let ghost whole = v@;
    let mut href = String::new();
    let mut i: usize = 0;
    let ghost start = old(out)@ + CRUMB_ROOT@;
    assert(v@.skip(0) =~= v@);
    loop
        invariant
            v@ == whole,
            whole == trim_end_slashes(trim_start_slashes(display@)),
            display@ != root_path(),
            start == old(out)@ + CRUMB_ROOT@,
            i <= v@.len(),
            out@ + crumbs_from(v@.skip(i as int), href@) == start + crumbs_from(whole, seq![]),
        decreases v@.len() - i,
    {
        let ghost rest = v@.skip(i as int);
        proof {
            lemma_first_segment_len(rest);
        }
        let mut end: usize = i;
        while end < v.len() && v[end] != '/'
            invariant
                i <= end <= v@.len(),
                v@ == whole,
                rest == v@.skip(i as int),
                forall|j: int| i <= j < end ==> v@[j] != '/',
            decreases v.len() - end,
        {
            end = end + 1;
        }
        proof {
            assert(end - i == first_segment_len(rest)) by {
                if end - i < first_segment_len(rest) {
                    assert(end < v@.len());
                    assert(rest[end - i] == v@[end as int]);
                } else if end - i > first_segment_len(rest) {
                    assert(rest[first_segment_len(rest)] == '/');
                    assert(v@[i + first_segment_len(rest)] == '/');
                }
            }
        }
        let mut part = String::new();
        let mut k: usize = i;
        while k < end
            invariant
                i <= k <= end,
                end <= v@.len(),
                part@ == v@.subrange(i as int, k as int),
            decreases end - k,
        {
            push_char(&mut part, v[k]);
            k = k + 1;
            assert(part@ =~= v@.subrange(i as int, k as int));
        }
        assert(part@ =~= rest.take(first_segment_len(rest)));
        let ghost old_href = href@;
        let ghost before = out@;
        push_char(&mut href, '/');
        let enc = percent_encode_path(part.as_str());
        push_str(&mut href, enc.as_str());
        let name = html_escape(part.as_str());
        assert(href@ =~= old_href + seq!['/'] + encoded_name(part@));
        if end >= v.len() {
            push_str(out, " / <span class=\"current\">");
            push_str(out, name.as_str());
            push_str(out, "</span>");
            assert(out@ =~= before + crumbs_from(rest, old_href));
            assert(out@ =~= start + crumbs_from(whole, seq![]));
            assert(out@ =~= old(out)@ + breadcrumbs(display@));
            return;
        }
        let mut link = String::from_str(href.as_str());
        push_char(&mut link, '/');
        assert(href@ =~= old_href + seq!['/'] + encoded_name(part@));
        assert(link@ =~= href@ + seq!['/']);
        let h = html_escape(link.as_str());
        push_str(out, " / <a href=\"");
        push_str(out, h.as_str());
        push_str(out, "\">");
        push_str(out, name.as_str());
        push_str(out, "</a>");
        assert(rest.skip(first_segment_len(rest) + 1) =~= v@.skip(end + 1));
        assert(out@ + crumbs_from(v@.skip(end + 1), href@) =~= before + crumbs_from(rest, old_href));
        i = end + 1;
    }
}

/// Renders the HTML index of `files` for the request path `req_path`.
pub fn render_directory_html(req_path: &str, files: &[QuarkFile]) -> (r: String)
    ensures
        r@ == directory_page(req_path@, files@),
{
    proof {
        reveal_strlit("/");
        assert("/"@ =~= root_path());
    }
    let decoded = percent_decode(req_path);
    let display = if decoded.as_str().unicode_len() == 0 || same_text(decoded.as_str(), "/") {
        String::from_str("/")
    } else {
        decoded
    };
    assert(display@ == display_path(req_path@));
    let at_root = same_text(display.as_str(), "/");
    let rv = chars_of(req_path);
    let mut base = String::from_str(req_path);
    if !(rv.len() == 0 || rv[rv.len() - 1] == '/') {
        push_char(&mut base, '/');
    }
    assert(base@ =~= link_base(req_path@));
    let ds = sort_by_name(only_dirs(files));
    let fs = sort_by_name(only_files(files));
    let mut out = String::new();
    push_str(&mut out, PAGE_HEAD);
    let title = html_escape(display.as_str());
    push_str(&mut out, title.as_str());
    push_str(&mut out, PAGE_AFTER_TITLE);
    push_breadcrumbs(&mut out, display.as_str(), at_root);
    push_str(&mut out, PAGE_AFTER_CRUMBS);
    let ghost head = out@;
    if !at_root {
        push_str(&mut out, PARENT_ROW);
    }
    let ghost with_parent = out@;
    let mut i: usize = 0;
    assert(ds@.take(0) =~= seq![]);
    while i < ds.len()
        invariant
            i <= ds@.len(),
            out@ == with_parent + dir_rows(base@, ds@.take(i as int)),
        decreases ds.len() - i,
    {
        push_dir_row(&mut out, base.as_str(), &ds[i]);
        assert(ds@.take(i + 1).drop_last() =~= ds@.take(i as int));
        i = i + 1;
    }
    assert(ds@.take(i as int) =~= ds@);
    let ghost with_dirs = out@;
    let mut i: usize = 0;
    assert(fs@.take(0) =~= seq![]);
    while i < fs.len()
        invariant
            i <= fs@.len(),
            out@ == with_dirs + file_rows(base@, fs@.take(i as int)),
        decreases fs.len() - i,
    {
        push_file_row(&mut out, base.as_str(), &fs[i]);
        assert(fs@.take(i + 1).drop_last() =~= fs@.take(i as int));
        i = i + 1;
    }
    assert(fs@.take(i as int) =~= fs@);
    push_str(&mut out, PAGE_AFTER_ROWS);
    proof {
        lemma_sorted_len(dirs_in(files@));
        lemma_sorted_len(files_in(files@));
        lemma_filtered_len(files@);
    }
    push_decimal_wide(&mut out, ds.len() as u128 + fs.len() as u128);
    push_str(&mut out, PAGE_TAIL);
    assert(out@ =~= directory_page(req_path@, files@));
    out
}

proof fn lemma_sorted_len(s: Seq<QuarkFile>)
    ensures
        sorted_by_name(s).len() == s.len(),
    decreases s.len(),
{
    if s.len() > 0 {
        lemma_sorted_len(s.drop_last());
        lemma_insert_pos_bounds(sorted_by_name(s.drop_last()), name_key(s.last()));
    }
}

proof fn lemma_filtered_len(s: Seq<QuarkFile>)
    ensures
        dirs_in(s).len() + files_in(s).len() <= 2 * s.len(),
    decreases s.len(),
{
    if s.len() > 0 {
        lemma_filtered_len(s.drop_last());
    }
}

} // verus!
