use site_grabber::download::{new_path_gen, PathChoice, PathProbe, TableDownload};
use site_grabber::downloader::save_as_file::DownloadItemInfo;
use site_grabber::downloader::DownloadItem;
use site_grabber::hashing::cache_path;
use site_grabber::statement::SqlValue;
use std::collections::HashSet;
use std::path::PathBuf;

fn link(last_attempt_at: Option<i64>) -> TableDownload {
    TableDownload {
        site_id: 3,
        download_url: "https://example.com/f?x=1".to_string(),
        local_path: "files/old.cache".to_string(),
        attempts: 2,
        last_attempt_at,
    }
}

fn text(s: &str) -> SqlValue {
    SqlValue::Text(s.to_string())
}

fn number(n: i64) -> SqlValue {
    SqlValue::Int(n)
}

#[test]
fn a_link_is_looked_for_without_its_query() {
    let statement = TableDownload::link_exists("https://Example.com/a b?x=1#top").unwrap().statement();
    assert_eq!(
        statement.sql,
        "SELECT 1 FROM downloads WHERE download_url LIKE $1 AND attempts < $2 LIMIT 1"
    );
    assert_eq!(statement.args, vec![text("https://example.com/a%20b#top%"), number(5)]);
    let bare = TableDownload::link_exists("https://example.com/a").unwrap();
    assert_eq!(bare.pattern, "https://example.com/a%");
    assert_eq!(TableDownload::link_exists("no url"), None);
    assert_eq!(TableDownload::prefix_exists("p".to_string()).pattern, "p%");
}

#[test]
fn a_link_is_added_unless_it_is_there() {
    assert_eq!(TableDownload::append(3, "u", true), None);
    let statement = TableDownload::append(3, "u", false).unwrap().statement();
    assert_eq!(
        statement.sql,
        "INSERT INTO downloads (site_id, download_url) VALUES ($1, $2) ON CONFLICT DO NOTHING"
    );
    assert_eq!(statement.args, vec![number(3), text("u")]);
}

#[test]
fn a_link_is_reserved_for_the_first_time() {
    let statement = link(None).reserved(1000).statement();
    assert_eq!(
        statement.sql,
        "UPDATE downloads SET attempts = $1, last_attempt_at = $2 WHERE download_url = $3 AND site_id = $4 AND completed = 0 AND attempts = $5 AND last_attempt_at IS NULL"
    );
    assert_eq!(
        statement.args,
        vec![number(3), number(1000), text("https://example.com/f?x=1"), number(3), number(2)]
    );
}

#[test]
fn a_link_is_reserved_again() {
    let statement = link(Some(77)).reserved(1000).statement();
    assert_eq!(
        statement.sql,
        "UPDATE downloads SET attempts = $2, last_attempt_at = $3 WHERE download_url = $4 AND site_id = $5 AND completed = 0 AND attempts = $6 AND last_attempt_at = $1"
    );
    assert_eq!(
        statement.args,
        vec![number(77), number(3), number(1000), text("https://example.com/f?x=1"), number(3), number(2)]
    );
}

#[test]
fn links_that_are_due() {
    let search = TableDownload::get_not_completed(3, 1_000_000, 5);
    assert_eq!(search.time_limit, 1_000_000 - 3 * 60 * 60);
    let statement = search.statement();
    assert_eq!(statement.args, vec![number(3), number(989_200), number(5), number(5)]);
    assert!(statement.sql.contains("attempts < $3 AND enable = 1 LIMIT $4"));
    assert!(statement.sql.contains("completed = 0 AND (last_attempt_at IS NULL OR last_attempt_at < $2)"));
}

#[test]
fn links_whose_reservation_succeeded_are_taken() {
    let other = TableDownload { download_url: "u".to_string(), ..link(None) };
    let taken = TableDownload::take_reserved(vec![(0, link(None)), (1, other)], "files");
    assert_eq!(taken.len(), 1);
    assert_eq!(taken[0].download_url, "u");
    assert_eq!(taken[0].local_path, cache_path("files", "u"));
    assert_eq!(taken[0].attempts, 2);
    assert!(TableDownload::take_reserved(vec![], "files").is_empty());
}

#[test]
fn a_link_gets_a_temporary_place() {
    let mut link = link(None);
    link.set_tmp_path("files");
    assert_eq!(link.local_path, cache_path("files", "https://example.com/f?x=1"));
    assert_eq!(link.path(), link.local_path);
    assert_eq!(link.url_as_str(), "https://example.com/f?x=1");
}

#[test]
fn a_downloaded_file_gets_its_name() {
    let named = DownloadItemInfo {
        description: Some("attachment; filename=\"../x.torrent\"".to_string()),
        content_type: None,
    };
    let mut link = link(None);
    let probe = link.target(&named).unwrap();
    assert_eq!(probe, PathProbe::new("files/x.torrent".to_string()));
    let unnamed = DownloadItemInfo { description: None, content_type: None };
    assert_eq!(link.target(&unnamed), None);

    let statement = link.set_complete(Some("files/x.torrent".to_string())).statement();
    assert_eq!(link.local_path, "files/x.torrent");
    assert_eq!(
        statement.sql,
        "UPDATE downloads SET local_path = $1, completed = 1 WHERE download_url = $2"
    );
    assert_eq!(
        statement.args,
        vec![text("files/x.torrent"), text("https://example.com/f?x=1")]
    );
    let again = link.set_complete(None);
    assert_eq!(again.local_path, "files/x.torrent");
    assert_eq!(again.download_url, "https://example.com/f?x=1");
}

fn settle(path: &str, in_use: &HashSet<String>) -> String {
    let mut probe = PathProbe::new(path.to_string());
    loop {
        let exists = in_use.contains(&probe.path);
        match new_path_gen(probe, exists) {
            PathChoice::Free(path) => return path,
            PathChoice::Probe(next) => probe = next,
        }
    }
}

fn taken(paths: &[&str]) -> HashSet<String> {
    paths.iter().map(|path| path.to_string()).collect()
}

#[test]
fn a_path_that_is_free_is_taken() {
    assert_eq!(settle("d/a.txt", &taken(&[])), "d/a.txt");
    assert_eq!(settle("d/a.txt", &taken(&["d/a_1.txt"])), "d/a.txt");
}

#[test]
fn a_path_in_use_is_numbered() {
    assert_eq!(settle("d/a.txt", &taken(&["d/a.txt"])), "d/a_1.txt");
    assert_eq!(settle("d/a.txt", &taken(&["d/a.txt", "d/a_1.txt", "d/a_2.txt"])), "d/a_3.txt");
    assert_eq!(settle("d/a.tar.gz", &taken(&["d/a.tar.gz"])), "d/a_1.gz");
    assert_eq!(settle("a", &taken(&["a", "a_1"])), "a_2");
    assert_eq!(settle("/.b", &taken(&["/.b"])), "/.b_1");
    assert_eq!(settle("d/a.", &taken(&["d/a."])), "d/a_1");
}

#[test]
fn numbered_paths_are_those_of_std() {
    for start in ["d/a.txt", "a", "x/..a", "/.b.c", "d/a.", "d//a.b.c/", "e/./f/."] {
        let mut path = PathBuf::from(start);
        let name = path.file_prefix().unwrap().to_string_lossy().to_string();
        let ext = path.extension().and_then(|e| e.to_str()).unwrap_or("").to_string();
        let mut probe = PathProbe::new(start.to_string());
        for counter in 1..=12 {
            path = path.with_file_name(format!("{name}_{counter}")).with_extension(&ext);
            match new_path_gen(probe, true) {
                PathChoice::Probe(next) => probe = next,
                PathChoice::Free(_) => unreachable!(),
            }
            assert_eq!(probe.path, path.to_string_lossy());
            assert_eq!(probe.counter, counter);
        }
    }
}

#[test]
fn no_path_is_tried_twice() {
    let mut seen = HashSet::new();
    let mut probe = PathProbe::new("d/a_1.txt".to_string());
    for _ in 0..200 {
        assert!(seen.insert(probe.path.clone()));
        match new_path_gen(probe, true) {
            PathChoice::Probe(next) => probe = next,
            PathChoice::Free(_) => unreachable!(),
        }
    }
}
