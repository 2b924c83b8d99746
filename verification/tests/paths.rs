use std::path::{Component, Path};

use kiabluejay::paths::{is_space_char, normalize_url_like, path_matches_page, sanitize_relative_path};

fn segs(items: &[&str]) -> Option<Vec<String>> {
    Some(items.iter().map(|s| s.to_string()).collect())
}

#[test]
fn space_agrees_with_std_on_every_char() {
    for u in 0u32..=0x10FFFF {
        if let Some(c) = char::from_u32(u) {
            assert_eq!(is_space_char(c), c.is_whitespace(), "char {:x}", u);
        }
    }
}

#[test]
fn normalize_blank_and_root() {
    assert_eq!(normalize_url_like(""), "/");
    assert_eq!(normalize_url_like("   "), "/");
    assert_eq!(normalize_url_like("/"), "/");
    assert_eq!(normalize_url_like(" / "), "/");
    assert_eq!(normalize_url_like("//"), "/");
}

#[test]
fn normalize_adds_leading_and_drops_trailing_slashes() {
    assert_eq!(normalize_url_like("index.html"), "/index.html");
    assert_eq!(normalize_url_like("/about/"), "/about");
    assert_eq!(normalize_url_like("docs///"), "/docs");
    assert_eq!(normalize_url_like("  /a/b/  "), "/a/b");
    assert_eq!(normalize_url_like("\u{3000}x\u{A0}"), "/x");
}

#[test]
fn normalize_keeps_inner_text() {
    assert_eq!(normalize_url_like("a b/c"), "/a b/c");
    assert_eq!(normalize_url_like("//a"), "//a");
}

#[test]
fn normalize_twice_differs_when_blank_precedes_trailing_slash() {
    let once = normalize_url_like("a /");
    assert_eq!(once, "/a ");
    assert_eq!(normalize_url_like(&once), "/a");
}

#[test]
fn normalize_twice_is_once_otherwise() {
    for s in ["", "/", "x", " /a/b// ", "index.html", "//"] {
        let once = normalize_url_like(s);
        assert_eq!(normalize_url_like(&once), once);
    }
}

#[test]
fn trailing_slash_names_the_same_page() {
    assert!(path_matches_page("/about/", "/about"));
    assert!(path_matches_page("about", "/about/"));
    assert!(path_matches_page(" index.html ", "/index.html"));
    assert!(!path_matches_page("/about", "/About"));
    assert!(!path_matches_page("/a/b", "/a"));
}

#[test]
fn sanitize_keeps_plain_segments() {
    assert_eq!(sanitize_relative_path("index.html"), segs(&["index.html"]));
    assert_eq!(sanitize_relative_path("/docs/index.html"), segs(&["docs", "index.html"]));
    assert_eq!(sanitize_relative_path("///a//b/"), segs(&["a", "b"]));
    assert_eq!(sanitize_relative_path("./a/./b/."), segs(&["a", "b"]));
    assert_eq!(sanitize_relative_path("a/.../b"), segs(&["a", "...", "b"]));
}

#[test]
fn sanitize_empty_paths_name_the_root() {
    assert_eq!(sanitize_relative_path(""), segs(&[]));
    assert_eq!(sanitize_relative_path("/"), segs(&[]));
    assert_eq!(sanitize_relative_path("."), segs(&[]));
}

#[test]
fn sanitize_refuses_parent_components() {
    assert_eq!(sanitize_relative_path(".."), None);
    assert_eq!(sanitize_relative_path("../etc/passwd"), None);
    assert_eq!(sanitize_relative_path("/a/../../b"), None);
    assert_eq!(sanitize_relative_path("a/b/.."), None);
}

#[test]
fn sanitize_agrees_with_std_components() {
    for s in ["a/b", "/x/./y", "./", "a//b/./c/", "..a/b..", "/./../x", "a/b/c/../d", " a / b "] {
        let trimmed = s.trim_start_matches('/');
        let mut expected = Some(Vec::new());
        for c in Path::new(trimmed).components() {
            match c {
                Component::Normal(p) => {
                    if let Some(v) = expected.as_mut() {
                        v.push(p.to_str().unwrap().to_string());
                    }
                }
                Component::CurDir => {}
                _ => {
                    expected = None;
                    break;
                }
            }
        }
        assert_eq!(sanitize_relative_path(s), expected, "input {:?}", s);
    }
}

#[test]
fn sanitize_ignores_one_leading_slash() {
    for s in ["a/b", "x", "../y", ""] {
        let with = format!("/{}", s);
        assert_eq!(sanitize_relative_path(&with), sanitize_relative_path(s));
    }
}

#[test]
fn plain_segments_round_trip() {
    let parts = ["docs", "a b", "...", "x.html"];
    let joined = parts.join("/");
    assert_eq!(sanitize_relative_path(&joined), segs(&parts));
    assert_eq!(sanitize_relative_path("single"), segs(&["single"]));
}

#[test]
fn sanitized_segments_are_plain() {
    for s in ["/a//./b/c/", "x/.../y", "./.", "//a"] {
        if let Some(v) = sanitize_relative_path(s) {
            for p in v {
                assert!(!p.is_empty() && p != "." && p != ".." && !p.contains('/'));
            }
        }
    }
}

#[test]
fn trailing_slash_on_blank_and_leading_space() {
    assert_eq!(normalize_url_like("   /"), normalize_url_like("   "));
    assert_eq!(normalize_url_like("  about/"), normalize_url_like("  about"));
    assert_ne!(normalize_url_like("a /"), normalize_url_like("a "));
}
