use quarkdrive_webdav::html::{
    file_icon, format_civil, format_size, format_timestamp, html_escape, html_unescape, CivilTime,
};
use quarkdrive_webdav::model::QuarkFile;
use quarkdrive_webdav::percent::{percent_decode, percent_encode_path};
use quarkdrive_webdav::render::render_directory_html;

fn record(fid: &str, name: &str, size: u64, at: u64, dir: bool) -> QuarkFile {
    QuarkFile {
        fid: fid.to_string(),
        file_name: name.to_string(),
        pdir_fid: "0".to_string(),
        size,
        format_type: if dir { "".to_string() } else { "text/plain".to_string() },
        status: 1,
        created_at: at,
        updated_at: at,
        dir,
        file: !dir,
        download_url: None,
        content_hash: None,
        parent_path: None,
    }
}

#[test]
fn test_format_size_bytes() {
    assert_eq!(format_size(0), "0 B");
    assert_eq!(format_size(1), "1 B");
    assert_eq!(format_size(1023), "1023 B");
}

#[test]
fn test_format_size_kb() {
    assert_eq!(format_size(1024), "1.0 KB");
    assert_eq!(format_size(1536), "1.5 KB");
}

#[test]
fn test_format_size_mb() {
    assert_eq!(format_size(1024 * 1024), "1.0 MB");
    assert_eq!(format_size(1024 * 1024 * 5), "5.0 MB");
}

#[test]
fn test_format_size_gb() {
    assert_eq!(format_size(1024 * 1024 * 1024), "1.0 GB");
}

#[test]
fn test_format_size_tb() {
    assert_eq!(format_size(1024u64 * 1024 * 1024 * 1024), "1.0 TB");
    assert_eq!(format_size(1024u64 * 1024 * 1024 * 1024 * 3), "3.0 TB");
}

#[test]
fn format_size_rounds_half_to_even_like_float_formatting() {
    // 6400 / 1024 = 6.25 exactly; 3840 / 1024 = 3.75 exactly.
    assert_eq!(format_size(6400), format!("{:.1} KB", 6400f64 / 1024f64));
    assert_eq!(format_size(3840), format!("{:.1} KB", 3840f64 / 1024f64));
    assert_eq!(format_size(6400), "6.2 KB");
    assert_eq!(format_size(3840), "3.8 KB");
}

#[test]
fn format_size_matches_float_formatting_on_many_values() {
    let mut n: u64 = 1;
    while n < (1u64 << 52) {
        for m in [n, n + 1, n * 3 + 7, n * 10 + 123] {
            let expected = {
                const KB: u64 = 1024;
                const MB: u64 = KB * 1024;
                const GB: u64 = MB * 1024;
                const TB: u64 = GB * 1024;
                if m >= TB {
                    format!("{:.1} TB", m as f64 / TB as f64)
                } else if m >= GB {
                    format!("{:.1} GB", m as f64 / GB as f64)
                } else if m >= MB {
                    format!("{:.1} MB", m as f64 / MB as f64)
                } else if m >= KB {
                    format!("{:.1} KB", m as f64 / KB as f64)
                } else {
                    format!("{} B", m)
                }
            };
            assert_eq!(format_size(m), expected);
        }
        n = n * 3 + 1;
    }
}

#[test]
fn format_size_is_monotone_on_neighbours() {
    let units = ["B", "KB", "MB", "GB", "TB"];
    let rank = |s: &str| {
        let (num, unit) = s.split_once(' ').unwrap();
        let k = units.iter().position(|u| *u == unit).unwrap();
        let tenths: u64 = if k == 0 {
            num.parse().unwrap()
        } else {
            let (w, f) = num.split_once('.').unwrap();
            assert_eq!(f.len(), 1);
            w.parse::<u64>().unwrap() * 10 + f.parse::<u64>().unwrap()
        };
        (k, tenths)
    };
    let mut prev = rank(&format_size(0));
    for n in 1..5000u64 {
        let cur = rank(&format_size(n * 409));
        assert!(prev <= cur);
        prev = cur;
    }
}

#[test]
fn test_format_timestamp_normal() {
    let result = format_timestamp(1704067200000);
    assert_eq!(result, "2024-01-01 08:00");
}

#[test]
fn test_format_timestamp_zero() {
    let result = format_timestamp(0);
    assert_eq!(result, "1970-01-01 08:00");
}

#[test]
fn format_timestamp_crosses_midnight_in_utc_plus_8() {
    // 2023-12-31 16:30 UTC is 2024-01-01 00:30 in UTC+8.
    assert_eq!(format_timestamp(1704040200000), "2024-01-01 00:30");
    assert_eq!(format_timestamp(u64::MAX), "-");
}

#[test]
fn format_civil_pads_and_signs() {
    let c = CivilTime { year: 987, month: 3, day: 4, hour: 5, minute: 6 };
    assert_eq!(format_civil(&c), "0987-03-04 05:06");
    let c = CivilTime { year: 12345, month: 12, day: 31, hour: 23, minute: 59 };
    assert_eq!(format_civil(&c), "+12345-12-31 23:59");
}

#[test]
fn test_html_escape_all_entities() {
    assert_eq!(html_escape("&<>\"'"), "&amp;&lt;&gt;&quot;&#x27;");
}

#[test]
fn test_html_escape_empty() {
    assert_eq!(html_escape(""), "");
}

#[test]
fn test_html_escape_no_special() {
    assert_eq!(html_escape("hello world"), "hello world");
}

#[test]
fn test_html_escape_mixed() {
    assert_eq!(html_escape("a & b < c > d"), "a &amp; b &lt; c &gt; d");
}

#[test]
fn html_escape_output_has_no_markup_and_extends_prefixes() {
    let s = "x<y>\"z\"'w'&";
    let e = html_escape(s);
    assert!(!e.contains('<') && !e.contains('>') && !e.contains('"') && !e.contains('\''));
    for cut in 0..s.len() {
        assert!(e.starts_with(&html_escape(&s[..cut])));
    }
}

#[test]
fn html_unescape_decodes_entities() {
    assert_eq!(html_unescape("a &amp; b.txt"), "a & b.txt");
    assert_eq!(html_unescape("&lt;&gt;&quot;&#x27;&#39;&apos;"), "<>\"'''");
    assert_eq!(html_unescape("&amp;lt;"), "&lt;");
    assert_eq!(html_unescape("a & b"), "a & b");
    let s = "测试 & <b> \"q\" 'a'";
    assert_eq!(html_unescape(&html_escape(s)), s);
}

#[test]
fn test_file_icon_image() {
    assert_eq!(file_icon("photo.jpg"), "🖼️");
    assert_eq!(file_icon("photo.PNG"), "🖼️");
    assert_eq!(file_icon("photo.Jpeg"), "🖼️");
}

#[test]
fn test_file_icon_video() {
    assert_eq!(file_icon("movie.mp4"), "🎬");
    assert_eq!(file_icon("movie.MKV"), "🎬");
}

#[test]
fn test_file_icon_audio() {
    assert_eq!(file_icon("song.mp3"), "🎵");
    assert_eq!(file_icon("song.FLAC"), "🎵");
}

#[test]
fn test_file_icon_document() {
    assert_eq!(file_icon("report.pdf"), "📕");
    assert_eq!(file_icon("report.doc"), "📝");
    assert_eq!(file_icon("data.xlsx"), "📊");
    assert_eq!(file_icon("slides.pptx"), "📎");
}

#[test]
fn test_file_icon_archive() {
    assert_eq!(file_icon("archive.zip"), "📦");
    assert_eq!(file_icon("archive.tar"), "📦");
}

#[test]
fn test_file_icon_code() {
    assert_eq!(file_icon("main.rs"), "💻");
    assert_eq!(file_icon("app.js"), "💻");
    assert_eq!(file_icon("config.yaml"), "💻");
}

#[test]
fn test_file_icon_unknown() {
    assert_eq!(file_icon("file.xyz"), "📄");
    assert_eq!(file_icon("noext"), "📄");
}

#[test]
fn file_icon_uses_last_extension_only() {
    assert_eq!(file_icon("backup.tar.gz"), "📦");
    assert_eq!(file_icon("archive.zip.txt"), "📄");
    assert_eq!(file_icon("Makefile.EXE"), "⚙️");
}

#[test]
fn test_percent_encode_path_chinese() {
    let encoded = percent_encode_path("你好");
    assert!(!encoded.contains("你"));
    let decoded = percent_decode(&encoded);
    assert_eq!(decoded, "你好");
}

#[test]
fn test_percent_encode_path_special_chars() {
    let encoded = percent_encode_path("file name (1).txt");
    assert!(!encoded.contains(' '));
    let decoded = percent_decode(&encoded);
    assert_eq!(decoded, "file name (1).txt");
}

#[test]
fn test_percent_decode_empty() {
    assert_eq!(percent_decode(""), "");
}

#[test]
fn test_percent_encode_roundtrip() {
    let text = "测试文件 & 文档.pdf";
    let encoded = percent_encode_path(text);
    let decoded = percent_decode(&encoded);
    assert_eq!(decoded, text);
}

#[test]
fn percent_encoding_is_exact() {
    assert_eq!(percent_encode_path("a b/c.txt"), "a%20b%2Fc%2Etxt");
    assert_eq!(percent_encode_path("é"), "%C3%A9");
    assert_eq!(percent_decode("%41%2f%zz%"), "A/%zz%");
    assert_eq!(percent_decode("%ff"), "\u{FFFD}");
}

#[test]
fn test_render_directory_html_root_empty() {
    let files: Vec<QuarkFile> = vec![];
    let html = render_directory_html("/", &files);
    assert!(html.contains("QuarkDrive"));
    assert!(html.contains("0 个项目"));
    assert!(!html.contains("href=\"../\""));
}

#[test]
fn test_render_directory_html_with_files() {
    let files = vec![
        QuarkFile {
            fid: "1".to_string(),
            file_name: "子目录".to_string(),
            pdir_fid: "0".to_string(),
            size: 0,
            format_type: "".to_string(),
            status: 1,
            created_at: 1704067200000,
            updated_at: 1704067200000,
            dir: true,
            file: false,
            download_url: None,
            content_hash: None,
            parent_path: None,
        },
        QuarkFile {
            fid: "2".to_string(),
            file_name: "test.txt".to_string(),
            pdir_fid: "0".to_string(),
            size: 1024,
            format_type: "text/plain".to_string(),
            status: 1,
            created_at: 1704067200000,
            updated_at: 1704067200000,
            dir: false,
            file: true,
            download_url: None,
            content_hash: None,
            parent_path: None,
        },
    ];
    let html = render_directory_html("/docs", &files);
    assert!(html.contains("2 个项目"));
    assert!(html.contains("href=\"../\""));
    assert!(html.contains("子目录"));
    assert!(html.contains("test.txt"));
    assert!(html.contains("1.0 KB"));
}

#[test]
fn test_render_directory_html_sorting() {
    let files = vec![
        QuarkFile {
            fid: "1".to_string(),
            file_name: "b.txt".to_string(),
            pdir_fid: "0".to_string(),
            size: 100,
            format_type: "text/plain".to_string(),
            status: 1,
            created_at: 0,
            updated_at: 0,
            dir: false,
            file: true,
            download_url: None,
            content_hash: None,
            parent_path: None,
        },
        QuarkFile {
            fid: "2".to_string(),
            file_name: "a.txt".to_string(),
            pdir_fid: "0".to_string(),
            size: 200,
            format_type: "text/plain".to_string(),
            status: 1,
            created_at: 0,
            updated_at: 0,
            dir: false,
            file: true,
            download_url: None,
            content_hash: None,
            parent_path: None,
        },
    ];
    let html = render_directory_html("/", &files);
    let pos_a = html.find("a.txt").unwrap();
    let pos_b = html.find("b.txt").unwrap();
    assert!(pos_a < pos_b);
}

#[test]
fn render_puts_directories_first_sorted_case_insensitively() {
    let files = vec![
        record("1", "b.txt", 1, 0, false),
        record("2", "Zeta", 0, 0, true),
        record("3", "A.txt", 2, 0, false),
        record("4", "alpha", 0, 0, true),
    ];
    let html = render_directory_html("/x/", &files);
    let p = |s: &str| html.find(s).unwrap();
    assert!(p("alpha") < p("Zeta"));
    assert!(p("Zeta") < p("A.txt"));
    assert!(p("A.txt") < p("b.txt"));
    assert!(html.contains("href=\"/x/alpha/\""));
    assert!(html.contains("href=\"/x/A%2Etxt\""));
    assert!(html.contains("4 个项目"));
}

#[test]
fn render_breadcrumbs_link_each_prefix() {
    let html = render_directory_html("/a%20b/c", &[]);
    assert!(html.contains("<a href=\"/\">根目录</a> / <a href=\"/a%20b/\">a b</a> / <span class=\"current\">c</span>"));
    assert!(html.contains("<title>QuarkDrive - /a b/c</title>"));
    assert!(html.contains("href=\"../\""));
}

#[test]
fn render_escapes_names_again() {
    let files = vec![record("1", "a & b.txt", 5, 0, false)];
    let html = render_directory_html("/", &files);
    assert!(html.contains(">a &amp; b.txt</a>"));
    assert!(html.contains("href=\"/a%20%26%20b%2Etxt\""));
    assert!(html.contains("5 B"));
    assert!(html.contains("1970-01-01 08:00"));
}
