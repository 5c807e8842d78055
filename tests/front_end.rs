use quarkdrive_webdav::front::{
    authorize, compute_fs_path, find_text, is_browser_request, route_request, AuthOutcome, Route,
    AUTH_CHALLENGE,
};
use quarkdrive_webdav::adapter::{plan_rename, read_window};
use quarkdrive_webdav::paths::{base_name, child_path, parent_path, segment_below};

#[test]
fn browser_detection_needs_get_and_html() {
    assert!(is_browser_request("GET", Some("text/html,application/xhtml+xml")));
    assert!(!is_browser_request("PROPFIND", Some("text/html")));
    assert!(!is_browser_request("GET", Some("application/xml")));
    assert!(!is_browser_request("GET", None));
    assert!(!is_browser_request("get", Some("text/html")));
}

#[test]
fn substring_search() {
    assert!(find_text("abc", ""));
    assert!(find_text("xxtext/htmlyy", "text/html"));
    assert!(!find_text("text/htm", "text/html"));
}

#[test]
fn authentication_gate() {
    assert!(matches!(authorize(Some("u"), Some("p"), None), AuthOutcome::Challenge));
    assert!(matches!(authorize(Some("u"), Some("p"), Some(("u", "x"))), AuthOutcome::Challenge));
    match authorize(Some("u"), Some("p"), Some(("u", "p"))) {
        AuthOutcome::Principal(name) => assert_eq!(name, "u"),
        _ => panic!("credentials should pass"),
    }
    assert!(matches!(authorize(Some("u"), None, None), AuthOutcome::Open));
    assert!(matches!(authorize(None, None, Some(("a", "b"))), AuthOutcome::Open));
    assert_eq!(AUTH_CHALLENGE, "Basic realm=\"quarkdrive-webdav\"");
}

#[test]
fn routing_by_auth_and_browser() {
    assert!(matches!(route_request(AuthOutcome::Challenge, true), Route::Unauthorized));
    assert!(matches!(route_request(AuthOutcome::Open, true), Route::Page(None)));
    assert!(matches!(route_request(AuthOutcome::Open, false), Route::Dav(None)));
    match route_request(AuthOutcome::Principal("u".to_string()), false) {
        Route::Dav(Some(p)) => assert_eq!(p, "u"),
        _ => panic!("expected the WebDAV handler"),
    }
    match route_request(AuthOutcome::Principal("u".to_string()), true) {
        Route::Page(Some(p)) => assert_eq!(p, "u"),
        _ => panic!("expected the page"),
    }
}

#[test]
fn fs_path_mapping() {
    assert_eq!(compute_fs_path(None, "/", "/"), "/");
    assert_eq!(compute_fs_path(None, "/", ""), "/");
    assert_eq!(compute_fs_path(None, "/", "/A/"), "/A");
    assert_eq!(compute_fs_path(None, "/", "/a%20b/c"), "/a b/c");
    assert_eq!(compute_fs_path(Some("/dav/"), "/", "/dav/A/B/"), "/A/B");
    assert_eq!(compute_fs_path(Some("/dav"), "/", "/other/A"), "/other/A");
    assert_eq!(compute_fs_path(None, "/root", "/A"), "/root/A");
    assert_eq!(compute_fs_path(None, "/root/", "/A"), "/root/A");
    assert_eq!(compute_fs_path(None, "/root", "/"), "/root");
    assert_eq!(compute_fs_path(None, "/", "/%E6%96%87"), "/文");
}

#[test]
fn path_helpers() {
    assert_eq!(parent_path("/A/B"), Some("/A".to_string()));
    assert_eq!(parent_path("/A"), Some("/".to_string()));
    assert_eq!(parent_path("/"), None);
    assert_eq!(parent_path("A"), None);
    assert_eq!(base_name("/A/C.txt"), "C.txt");
    assert_eq!(base_name("/"), "");
    assert_eq!(child_path("/", "A"), "/A");
    assert_eq!(child_path("/A", "C.txt"), "/A/C.txt");
    assert_eq!(segment_below("/A/B/C", "/A"), "B");
    assert_eq!(segment_below("/A/B/C", "/"), "A");
    assert_eq!(segment_below("/A", "/A"), "");
}

#[test]
fn rename_plans() {
    use_plan("/A/C.txt", "/A/D.txt", "C.txt", false, Some("D.txt"));
    use_plan("/A/C.txt", "/B/C.txt", "C.txt", true, None);
    use_plan("/A/C.txt", "/D.txt", "C.txt", true, Some("D.txt"));
    assert!(plan_rename("/", "/A", "x").is_none());
}

fn use_plan(from: &str, to: &str, name: &str, moves: bool, new_name: Option<&str>) {
    let p = plan_rename(from, to, name).unwrap();
    assert_eq!(p.moves, moves);
    assert_eq!(p.new_name.as_deref(), new_name);
    assert_eq!(p.from_parent, parent_path(from).unwrap());
    assert_eq!(p.to_parent, parent_path(to).unwrap());
}

#[test]
fn read_windows() {
    assert_eq!(read_window(10, 0, 4), 4);
    assert_eq!(read_window(10, 8, 4), 2);
    assert_eq!(read_window(10, 10, 4), 0);
    assert_eq!(read_window(10, 12, 4), 0);
}
