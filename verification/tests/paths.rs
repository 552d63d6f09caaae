use static_http::mime::{content_type, find_content_type, media_type_for};
use static_http::path::{extension, join, path_components, same_bytes, starts_with};
use static_http::resolve::{leads_with_byte, locate, resolve, Rejection};
use std::path::Path;

fn parts(path: &str) -> Vec<String> {
    path_components(path.as_bytes())
        .into_iter()
        .map(|c| String::from_utf8(c).unwrap())
        .collect()
}

const SAMPLES: [&str; 30] = [
    "",
    "/",
    "//",
    ".",
    "..",
    "./",
    "/.",
    "/..",
    "a",
    "a/",
    "a/b",
    "a//b",
    "a/./b",
    "a/b/.",
    "./a/b",
    ".//a",
    "/a/b",
    "/a/b/",
    "/a/../b",
    "/srv/www",
    "/srv/www/",
    "/srv/www2",
    "/srv/www/index.html",
    "/srv/www/a.b/c",
    "/srv/ww",
    ".hidden",
    "dir/.hidden",
    "name.",
    "..name",
    "archive.tar.gz",
];

#[test]
fn same_bytes_compares_content() {
    assert!(same_bytes(b"", b""));
    assert!(same_bytes(b"abc", b"abc"));
    assert!(!same_bytes(b"abc", b"abd"));
    assert!(!same_bytes(b"abc", b"ab"));
    assert!(!same_bytes(b"", b"a"));
}

#[test]
fn components_of_a_rooted_path() {
    assert_eq!(parts("/srv/www/index.html"), vec!["/", "srv", "www", "index.html"]);
}

#[test]
fn components_skip_repeated_and_trailing_separators() {
    assert_eq!(parts("a//b/"), vec!["a", "b"]);
    assert_eq!(parts("//"), vec!["/"]);
    assert_eq!(parts(""), Vec::<String>::new());
}

#[test]
fn components_keep_only_a_leading_cur_dir() {
    assert_eq!(parts("./a/./b/."), vec![".", "a", "b"]);
    assert_eq!(parts("/./a"), vec!["/", "a"]);
    assert_eq!(parts("."), vec!["."]);
    assert_eq!(parts(".a/b"), vec![".a", "b"]);
}

#[test]
fn components_keep_parent_dirs() {
    assert_eq!(parts("/a/../b"), vec!["/", "a", "..", "b"]);
    assert_eq!(parts(".."), vec![".."]);
}

#[test]
fn components_count_as_the_standard_library_counts() {
    for path in SAMPLES {
        assert_eq!(parts(path).len(), Path::new(path).components().count(), "{:?}", path);
    }
}

#[test]
fn starts_with_counts_whole_components() {
    assert!(starts_with(b"/srv/www/index.html", b"/srv/www"));
    assert!(starts_with(b"/srv/www", b"/srv/www"));
    assert!(starts_with(b"/srv/www", b"/srv/www/"));
    assert!(!starts_with(b"/srv/www2/index.html", b"/srv/www"));
    assert!(!starts_with(b"/srv", b"/srv/www"));
    assert!(!starts_with(b"/etc/passwd", b"/srv/www"));
}

#[test]
fn starts_with_tells_rooted_from_relative() {
    assert!(!starts_with(b"/srv/www", b"srv/www"));
    assert!(!starts_with(b"srv/www", b"/srv"));
    assert!(starts_with(b"/anything", b""));
    assert!(starts_with(b"/anything", b"/"));
}

#[test]
fn starts_with_agrees_with_the_standard_library() {
    for path in SAMPLES {
        for base in SAMPLES {
            assert_eq!(
                starts_with(path.as_bytes(), base.as_bytes()),
                Path::new(path).starts_with(Path::new(base)),
                "{:?} within {:?}",
                path,
                base
            );
        }
    }
}

#[test]
fn join_puts_a_separator_between() {
    assert_eq!(join(b"/srv/www", b"style.css"), b"/srv/www/style.css".to_vec());
    assert_eq!(join(b"/srv/www/", b"style.css"), b"/srv/www/style.css".to_vec());
    assert_eq!(join(b"/srv/www", b""), b"/srv/www/".to_vec());
    assert_eq!(join(b"", b"style.css"), b"style.css".to_vec());
}

#[test]
fn join_lets_a_rooted_path_replace_the_base() {
    assert_eq!(join(b"/srv/www", b"/etc/passwd"), b"/etc/passwd".to_vec());
}

#[test]
fn join_agrees_with_the_standard_library() {
    for base in SAMPLES {
        for rel in SAMPLES {
            assert_eq!(
                join(base.as_bytes(), rel.as_bytes()),
                Path::new(base).join(rel).to_str().unwrap().as_bytes().to_vec(),
                "{:?} joined with {:?}",
                base,
                rel
            );
        }
    }
}

#[test]
fn extension_is_what_follows_the_last_dot() {
    assert_eq!(extension(b"/srv/www/index.html"), Some(b"html".to_vec()));
    assert_eq!(extension(b"archive.tar.gz"), Some(b"gz".to_vec()));
    assert_eq!(extension(b"name."), Some(b"".to_vec()));
    assert_eq!(extension(b"..name"), Some(b"name".to_vec()));
}

#[test]
fn extension_is_missing_without_a_dot_inside_the_name() {
    assert_eq!(extension(b"/srv/www/README"), None);
    assert_eq!(extension(b".hidden"), None);
    assert_eq!(extension(b"/srv/www.d/file"), None);
    assert_eq!(extension(b"/"), None);
    assert_eq!(extension(b""), None);
    assert_eq!(extension(b"."), None);
    assert_eq!(extension(b"/srv/.."), None);
}

#[test]
fn extension_looks_past_a_trailing_separator() {
    assert_eq!(extension(b"/srv/site.css/"), Some(b"css".to_vec()));
    assert_eq!(extension(b"/srv/site.css/."), Some(b"css".to_vec()));
}

#[test]
fn extension_agrees_with_the_standard_library() {
    for path in SAMPLES {
        let expected = Path::new(path)
            .extension()
            .map(|e| e.to_str().unwrap().as_bytes().to_vec());
        assert_eq!(extension(path.as_bytes()), expected, "{:?}", path);
    }
}

#[test]
fn media_types_of_the_table() {
    assert_eq!(media_type_for(b"js"), Some("application/javascript"));
    assert_eq!(media_type_for(b"json"), Some("application/json"));
    assert_eq!(media_type_for(b"woff"), Some("font/woff"));
    assert_eq!(media_type_for(b"ico"), Some("image/x-icon"));
    assert_eq!(media_type_for(b"png"), Some("image/png"));
    assert_eq!(media_type_for(b"svg"), Some("image/svg+xml"));
    assert_eq!(media_type_for(b"css"), Some("text/css"));
    assert_eq!(media_type_for(b"html"), Some("text/html"));
}

#[test]
fn media_types_outside_the_table() {
    assert_eq!(media_type_for(b""), None);
    assert_eq!(media_type_for(b"txt"), None);
    assert_eq!(media_type_for(b"HTML"), None);
    assert_eq!(media_type_for(b"htm"), None);
    assert_eq!(media_type_for(b"jsonx"), None);
    assert_eq!(media_type_for(&[0xff, 0xfe]), None);
}

#[test]
fn content_type_of_known_files() {
    assert_eq!(content_type(b"/srv/www/index.html"), "text/html");
    assert_eq!(content_type(b"/srv/www/style.css"), "text/css");
    assert_eq!(content_type(b"/srv/www/app.min.js"), "application/javascript");
    assert_eq!(content_type(b"/srv/www/data.json"), "application/json");
    assert_eq!(content_type(b"/srv/www/font.woff"), "font/woff");
    assert_eq!(content_type(b"/srv/www/favicon.ico"), "image/x-icon");
    assert_eq!(content_type(b"/srv/www/logo.png"), "image/png");
    assert_eq!(content_type(b"/srv/www/logo.svg"), "image/svg+xml");
}

#[test]
fn content_type_is_not_found_for_other_files() {
    assert_eq!(find_content_type(b"/srv/www/notes.txt"), None);
    assert_eq!(find_content_type(b"/srv/www/README"), None);
    assert_eq!(find_content_type(b"/srv/www/.html"), None);
    assert_eq!(find_content_type(b"/srv/www/page.HTML"), None);
    assert_eq!(find_content_type(b"/srv/www/index.html"), Some("text/html"));
}

#[test]
fn locate_strips_the_leading_separator() {
    assert_eq!(locate(b"/srv/www", "/style.css"), b"/srv/www/style.css".to_vec());
    assert_eq!(locate(b"/srv/www", "/"), b"/srv/www/".to_vec());
    assert_eq!(locate(b"/srv/www", "/a/b.png"), b"/srv/www/a/b.png".to_vec());
    assert_eq!(locate(b"/srv/www", "/../etc/passwd"), b"/srv/www/../etc/passwd".to_vec());
}

#[test]
fn locate_drops_the_first_character_whatever_it_is() {
    assert_eq!(locate(b"/srv/www", "style.css"), b"/srv/www/tyle.css".to_vec());
    assert_eq!(locate(b"/srv/www", "//etc/passwd"), b"/etc/passwd".to_vec());
}

#[test]
fn locate_keeps_later_characters_of_any_length() {
    assert_eq!(locate(b"/srv/www", "/caf\u{e9}.html"), "/srv/www/caf\u{e9}.html".as_bytes().to_vec());
}

#[test]
fn leading_byte_of_a_target() {
    assert!(leads_with_byte("/"));
    assert!(leads_with_byte("x\u{e9}"));
    assert!(!leads_with_byte(""));
    assert!(!leads_with_byte("\u{e9}/index.html"));
    assert!(!leads_with_byte("\u{3000}"));
}

#[test]
fn resolve_without_a_canonical_path_is_not_found() {
    assert_eq!(resolve(b"/srv/www", None, false), Err(Rejection::NotFound));
    assert_eq!(resolve(b"/srv/www", None, true), Err(Rejection::NotFound));
}

#[test]
fn resolve_outside_the_root_is_forbidden() {
    assert_eq!(resolve(b"/srv/www", Some(b"/etc/passwd"), false), Err(Rejection::Forbidden));
    assert_eq!(resolve(b"/srv/www", Some(b"/srv/www2/a.html"), false), Err(Rejection::Forbidden));
    assert_eq!(resolve(b"/srv/www", Some(b"/srv"), true), Err(Rejection::Forbidden));
}

#[test]
fn resolve_of_a_file_is_the_file() {
    assert_eq!(
        resolve(b"/srv/www", Some(b"/srv/www/style.css"), false),
        Ok(b"/srv/www/style.css".to_vec())
    );
}

#[test]
fn resolve_of_a_directory_is_its_index() {
    assert_eq!(resolve(b"/srv/www", Some(b"/srv/www"), true), Ok(b"/srv/www/index.html".to_vec()));
    assert_eq!(
        resolve(b"/srv/www", Some(b"/srv/www/docs"), true),
        Ok(b"/srv/www/docs/index.html".to_vec())
    );
}

#[test]
fn resolve_with_a_relative_root_forbids_everything() {
    assert_eq!(resolve(b"www", Some(b"/srv/www/style.css"), false), Err(Rejection::Forbidden));
}
