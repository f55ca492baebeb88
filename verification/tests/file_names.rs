use site_grabber::downloader::save_as_file::{
    accept_response, header_text, name_of_digest, DownloadItemInfo,
};
use site_grabber::error::GrabError;
use site_grabber::hashing::hex_hash;

fn info(description: Option<&str>, content_type: Option<&str>) -> DownloadItemInfo {
    DownloadItemInfo {
        description: description.map(str::to_string),
        content_type: content_type.map(str::to_string),
    }
}

fn name(description: &str) -> Option<String> {
    let info = info(Some(description), None);
    assert!(info.is_nameable());
    info.file_name()
}

#[test]
fn names_from_the_content_disposition() {
    assert_eq!(name("attachment; filename=file.torrent").as_deref(), Some("file.torrent"));
    assert_eq!(name("attachment; filename=\"a b.torrent\"").as_deref(), Some("a_b.torrent"));
    assert_eq!(name("filename=../../etc/passwd").as_deref(), Some("etc_passwd"));
    assert_eq!(name("attachment;filename= x-1_2.bin ; size=3").as_deref(), Some("x-1_2.bin"));
    assert_eq!(name("filename=a;filename=b").as_deref(), Some("a"));
    assert_eq!(name("filename=фильм.torrent").as_deref(), Some("torrent"));
    assert_eq!(name("filename=aфильмb").as_deref(), Some("aфильмb"));
    assert_eq!(name("filename=a☃b").as_deref(), Some("a_b"));
    assert_eq!(name("filename=").as_deref(), Some(""));
    assert_eq!(name("filename=\"...\"").as_deref(), Some(""));
    assert_eq!(name("attachment"), None);
    assert_eq!(name("filename*=UTF-8''x"), None);
}

#[test]
fn nine_bytes_are_skipped_wherever_the_mark_stands() {
    assert_eq!(name("x filename=ab").as_deref(), Some("e_ab"));
    assert_eq!(name("xfilename=ab").as_deref(), Some("ab"));
    assert_eq!(name("old filename=ab").as_deref(), Some("ame_ab"));
    assert_eq!(name("éfilename=ab").as_deref(), Some("e_ab"));
}

#[test]
fn a_name_that_would_begin_inside_a_character() {
    assert!(!info(Some("éééééfilename=x"), None).is_nameable());
    assert!(!info(Some("☃☃ééfilename=x"), Some("torrent")).is_nameable());
    assert!(info(Some("ééééfilename=x"), None).is_nameable());
    assert!(info(Some("😀😀filename=x"), None).is_nameable());
    assert_eq!(name("😀😀filename=x").as_deref(), Some("ilename_x"));
}

#[test]
fn names_from_the_content_type() {
    let torrent = info(None, Some("application/x-bittorrent"));
    assert!(torrent.is_nameable());
    assert_eq!(torrent.get_extension(), Some("torrent"));
    assert_eq!(torrent.file_name(), Some(format!("{}.torrent", hex_hash(&torrent))));

    let described = info(Some("inline"), Some("application/x-bittorrent"));
    assert_eq!(described.file_name(), Some(format!("{}.torrent", hex_hash(&described))));
    assert_ne!(described.file_name(), torrent.file_name());

    let nothing = info(None, None);
    assert!(nothing.is_nameable());
    assert_eq!(nothing.get_extension(), None);
    assert_eq!(nothing.file_name(), None);

    assert!(!info(None, Some("text/html")).is_nameable());
    assert!(info(Some("filename=a.html"), Some("text/html")).is_nameable());
}

#[test]
fn names_made_of_digests() {
    assert_eq!(name_of_digest(0x1f, "torrent"), "1f.torrent");
}

#[test]
fn names_keep_only_safe_characters() {
    for c in '\0'..='\u{2fff}' {
        if c == ';' {
            continue;
        }
        let kept = c.is_alphanumeric() || c == '_' || c == '.' || c == '-';
        let expected = format!("a{}b", if kept { c } else { '_' });
        assert_eq!(name(&format!("filename=a{c}b")), Some(expected), "{:x}", c as u32);
    }
}

#[test]
fn copies_of_what_is_known() {
    let torrent = info(Some("d"), Some("t"));
    assert_eq!(torrent.clone(), torrent);
}

#[test]
fn header_values_as_text() {
    assert_eq!(header_text(b"a b\t~").as_deref(), Some("a b\t~"));
    assert_eq!(header_text(b"").as_deref(), Some(""));
    assert_eq!(header_text(&[0x7f]), None);
    assert_eq!(header_text(&[b'a', 0xe9]), None);
    assert_eq!(header_text(b"a\n"), None);
    for b in 0..=255u8 {
        let value = reqwest::header::HeaderValue::from_bytes(&[b'x', b]);
        if let Ok(value) = value {
            assert_eq!(header_text(&[b'x', b]).as_deref(), value.to_str().ok(), "{b}");
        }
    }
}

#[test]
fn only_a_success_brings_a_file() {
    let accepted = accept_response(
        200,
        Some(b"attachment; filename=x.torrent".to_vec()),
        Some(vec![0xff]),
    );
    assert_eq!(accepted, Ok(info(Some("attachment; filename=x.torrent"), None)));
    assert_eq!(accept_response(299, None, None), Ok(info(None, None)));
    for status in [100, 199, 300, 404, 500] {
        assert_eq!(accept_response(status, None, None), Err(GrabError::HttpStatus(status)));
    }
    for status in 100..1000 {
        let code = reqwest::StatusCode::from_u16(status).unwrap();
        assert_eq!(accept_response(status, None, None).is_ok(), code.is_success());
    }
}
