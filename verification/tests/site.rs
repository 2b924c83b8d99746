use kiabluejay::site::{
    choose_file, default_session_ttl_hours, index_route, is_public_path, served_segments,
    session_age_route, static_route, FileChoice, PageConfig, RewriteTable, ServeError,
    SessionConfig, SiteState,
};

fn pages() -> PageConfig {
    PageConfig {
        index_first_visit: "index.html".to_string(),
        index_returning_visit: "index2.html".to_string(),
        session_age_gt_20: "adult.html".to_string(),
        session_age_lte_20: "young.html".to_string(),
    }
}

fn state(enabled: bool) -> SiteState {
    let mut rewrites = RewriteTable::new();
    rewrites.insert("/about".to_string(), "/about.html".to_string());
    rewrites.insert("/shop".to_string(), "/shop.html".to_string());
    rewrites.insert("/start".to_string(), "/index.html".to_string());
    SiteState {
        static_dir: "/var/www/html/".to_string(),
        rewrites,
        pages: pages(),
        session: SessionConfig { enabled, ttl_hours: 2, secure_cookie: false },
    }
}

#[test]
fn session_defaults() {
    let c = SessionConfig::default();
    assert!(!c.enabled);
    assert_eq!(c.ttl_hours, 2);
    assert!(!c.secure_cookie);
    assert_eq!(default_session_ttl_hours(), 2);
}

#[test]
fn rewrite_read_after_write() {
    let mut t = RewriteTable::new();
    assert_eq!(t.get("/a"), None);
    t.insert("/a".to_string(), "/a.html".to_string());
    t.insert("/b".to_string(), "/b.html".to_string());
    assert_eq!(t.get("/a"), Some("/a.html".to_string()));
    t.insert("/a".to_string(), "/other.html".to_string());
    assert_eq!(t.get("/a"), Some("/other.html".to_string()));
    assert_eq!(t.get("/b"), Some("/b.html".to_string()));
    assert_eq!(t.rewrite("/c"), "/c");
    assert_eq!(t.rewrite("/b"), "/b.html");
}

#[test]
fn public_paths() {
    let p = pages();
    assert!(is_public_path("/", "/index.html", &p));
    assert!(is_public_path("/index.html", "/index.html", &p));
    assert!(is_public_path("/start", "/index.html", &p));
    assert!(is_public_path("/young.html/", "/young.html/", &p));
    assert!(!is_public_path("/shop", "/shop.html", &p));
    assert!(!is_public_path("/adult.html", "/adult.html", &p));
}

#[test]
fn session_route_over_20_counts_visit() {
    let s = state(true);
    let r = session_age_route(21, &s, None).unwrap();
    assert_eq!(r.path, "adult.html");
    assert_eq!(r.counter, Some(1));
    let r = session_age_route(30, &s, Some(4)).unwrap();
    assert_eq!(r.counter, Some(5));
}

#[test]
fn session_route_over_20_without_sessions() {
    let r = session_age_route(40, &state(false), Some(4)).unwrap();
    assert_eq!(r.path, "adult.html");
    assert_eq!(r.counter, None);
}

#[test]
fn session_route_20_and_under() {
    let r = session_age_route(20, &state(true), Some(4)).unwrap();
    assert_eq!(r.path, "young.html");
    assert_eq!(r.counter, None);
    let r = session_age_route(-5, &state(true), None).unwrap();
    assert_eq!(r.path, "young.html");
}

#[test]
fn index_route_cases() {
    let r = index_route(&state(true), Some(2));
    assert_eq!((r.path.as_str(), r.counter), ("index2.html", Some(3)));
    let r = index_route(&state(true), None);
    assert_eq!((r.path.as_str(), r.counter), ("index.html", None));
    let r = index_route(&state(false), Some(2));
    assert_eq!((r.path.as_str(), r.counter), ("index.html", None));
}

#[test]
fn static_route_without_sessions_serves_rewrite() {
    let r = static_route("/shop", &state(false), None);
    assert_eq!((r.path.as_str(), r.counter), ("/shop.html", None));
    let r = static_route("/img/a.png", &state(false), None);
    assert_eq!((r.path.as_str(), r.counter), ("/img/a.png", None));
}

#[test]
fn static_route_gate_without_counter() {
    let r = static_route("/shop", &state(true), None);
    assert_eq!((r.path.as_str(), r.counter), ("index.html", None));
}

#[test]
fn static_route_with_counter_counts_visit() {
    let r = static_route("/shop", &state(true), Some(7));
    assert_eq!((r.path.as_str(), r.counter), ("/shop.html", Some(8)));
}

#[test]
fn static_route_public_needs_no_counter() {
    let r = static_route("/start", &state(true), None);
    assert_eq!((r.path.as_str(), r.counter), ("/index.html", None));
    let r = static_route("/young.html", &state(true), Some(3));
    assert_eq!((r.path.as_str(), r.counter), ("/young.html", None));
}

#[test]
fn served_segments_cases() {
    assert_eq!(served_segments("/docs/index.html"), Ok(vec!["docs".to_string(), "index.html".to_string()]));
    assert_eq!(served_segments("/../secret"), Err(ServeError::BadRequest));
}

#[test]
fn file_choice_cases() {
    assert_eq!(choose_file(true, false, false), Ok(FileChoice::Itself));
    assert_eq!(choose_file(false, true, true), Ok(FileChoice::DirectoryIndex));
    assert_eq!(choose_file(false, true, false), Err(ServeError::NotFound));
    assert_eq!(choose_file(false, false, true), Err(ServeError::NotFound));
}

#[test]
fn session_route_age_cap() {
    let r = session_age_route(32767, &state(true), None).unwrap();
    assert_eq!((r.path.as_str(), r.counter), ("adult.html", Some(1)));
    assert!(session_age_route(32768, &state(true), None).is_none());
    assert!(session_age_route(i32::MAX, &state(true), Some(i32::MAX)).is_none());
    assert!(session_age_route(i32::MIN, &state(false), None).is_some());
}
