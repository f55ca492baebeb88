use site_grabber::downloader::save_as_file::DownloadItemInfo;
use site_grabber::downloader::simple_item::SimpleDownloaderLink;
use site_grabber::hashing::{cache_path, digest_of, digest_path, hex_hash, hex_text};
use std::hash::{DefaultHasher, Hash, Hasher};
use std::path::Path;

fn std_digest<H: Hash>(value: H) -> u64 {
    let mut hasher = DefaultHasher::new();
    value.hash(&mut hasher);
    hasher.finish()
}

#[test]
fn digests_are_those_of_std() {
    for url in ["", "a", "https://example.com/page?x=1", "страница"] {
        let owned = url.to_string();
        assert_eq!(digest_of(url), std_digest(url));
        assert_eq!(digest_of(&owned), std_digest(&owned));
        assert_eq!(hex_hash(&owned), format!("{:x}", std_digest(url)));
    }
    for description in [None, Some(String::new()), Some("attachment".to_string())] {
        for content_type in [None, Some("application/x-bittorrent".to_string())] {
            let info = DownloadItemInfo {
                description: description.clone(),
                content_type: content_type.clone(),
            };
            assert_eq!(digest_of(&info), std_digest(&info));
            assert_eq!(hex_hash(&info), format!("{:x}", std_digest(&info)));
        }
    }
}

#[test]
fn digests_are_written_in_hexadecimal() {
    assert_eq!(hex_text(0), "0");
    assert_eq!(hex_text(0xdead_beef), "deadbeef");
    assert_eq!(hex_text(u64::MAX), "ffffffffffffffff");
}

#[test]
fn cache_files_are_named_after_digests() {
    assert_eq!(digest_path("/data/pages", 0xabc), "/data/pages/abc.cache");
    assert_eq!(digest_path("/data/pages/", 0xabc), "/data/pages/abc.cache");
    assert_eq!(digest_path("", 0xabc), "abc.cache");
    assert_eq!(digest_path("/", 0xabc), "/abc.cache");
}

#[test]
fn cache_paths_are_those_of_std() {
    let url = "https://example.com/".to_string();
    let expected = Path::new("resources/pages")
        .join(format!("{:x}", std_digest(&url)))
        .with_extension("cache");
    assert_eq!(cache_path("resources/pages", &url), expected.to_string_lossy());
}

#[test]
fn one_url_has_one_cache_path() {
    let a = "https://example.com/a".to_string();
    let b = "https://example.com/b".to_string();
    assert_eq!(cache_path("d", &a), cache_path("d", &a.clone()));
    assert_ne!(cache_path("d", &a), cache_path("d", &b));
}

#[test]
fn links_get_cache_paths() {
    let urls = vec!["https://a.b/1".to_string(), "https://a.b/2".to_string()];
    let links = SimpleDownloaderLink::from_list_urls(&urls, "root");
    assert_eq!(links.len(), 2);
    for (link, url) in links.iter().zip(&urls) {
        assert_eq!(&link.url, url);
        assert_eq!(link.path, cache_path("root", url));
    }
    assert!(SimpleDownloaderLink::from_list_urls(&[], "root").is_empty());
}
