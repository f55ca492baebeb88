use site_grabber::paths::{
    extension_of, file_prefix_of, joined, native, portable, renamed, with_new_extension,
};
use std::path::{Path, MAIN_SEPARATOR};

fn all_paths(len: usize) -> Vec<String> {
    let mut all = vec![String::new()];
    let mut last = all.clone();
    for _ in 0..len {
        let mut next = Vec::new();
        for path in &last {
            for c in ['a', '.', '/'] {
                next.push(format!("{path}{c}"));
            }
        }
        all.extend(next.iter().cloned());
        last = next;
    }
    all
}

#[test]
fn paths_agree_with_std() {
    for path in all_paths(8) {
        let p = Path::new(&path);
        assert_eq!(
            extension_of(&path),
            p.extension().map(|e| e.to_string_lossy().to_string()),
            "extension of {path:?}"
        );
        assert_eq!(
            file_prefix_of(&path),
            p.file_prefix().map(|e| e.to_string_lossy().to_string()),
            "prefix of {path:?}"
        );
        for ext in ["", "x", "x.y"] {
            assert_eq!(
                with_new_extension(&path, ext),
                p.with_extension(ext).to_string_lossy().to_string(),
                "{path:?} with extension {ext:?}"
            );
        }
        for name in ["", "b", "b.c", "/b", ".", ".."] {
            assert_eq!(
                renamed(&path, name),
                p.with_file_name(name).to_string_lossy().to_string(),
                "{path:?} with name {name:?}"
            );
            assert_eq!(
                joined(&path, name),
                p.join(name).to_string_lossy().to_string(),
                "{path:?} joined with {name:?}"
            );
        }
    }
}

#[test]
fn paths_of_other_machines() {
    let dir = portable("\\\\?\\C:\\data\\files", '\\');
    assert_eq!(dir, "//?/C:/data/files");
    let path = with_new_extension(&joined(&dir, "1f"), "cache");
    assert_eq!(native(&path, '\\'), "\\\\?\\C:\\data\\files\\1f.cache");
    let moved = renamed(&path, "x.torrent");
    assert_eq!(native(&moved, '\\'), "\\\\?\\C:\\data\\files\\x.torrent");
    assert_eq!(native(&portable("C:\\a", '\\'), '\\'), "C:\\a");
    assert_eq!(portable("a\\b/c", '/'), "a\\b/c");
    assert_eq!(native("a\\b/c", '/'), "a\\b/c");
}

#[test]
fn paths_of_this_machine() {
    let dir = Path::new("data").join("files");
    let text = portable(&dir.to_string_lossy(), MAIN_SEPARATOR);
    assert_eq!(text, "data/files");
    let path = native(&joined(&text, "x"), MAIN_SEPARATOR);
    assert_eq!(Path::new(&path), dir.join("x"));
}
