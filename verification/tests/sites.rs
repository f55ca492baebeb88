use site_grabber::download::TableDownload;
use site_grabber::downloader::list::Downloaded;
use site_grabber::downloader::save_as_file::DownloadItemInfo;
use site_grabber::error::GrabError;
use site_grabber::pages::TablePage;
use site_grabber::sites::{
    after_download, after_resolving, collect_links, keep_present, prefer_joined, resolve_links,
    sum_up, SiteEvent, SiteStep, TableSites,
};
use site_grabber::state::{init_db_pool, init_resource_dirs};
use site_grabber::statement::SqlValue;

fn site(base_url: &str, proxy: i64) -> TableSites {
    TableSites { id: 4, base_url: base_url.to_string(), proxy }
}

fn page() -> TablePage {
    TablePage { url: "u".to_string(), path: "p".to_string(), rules: "[1]".to_string() }
}

fn link(url: &str) -> TableDownload {
    TableDownload {
        site_id: 4,
        download_url: url.to_string(),
        local_path: String::new(),
        attempts: 0,
        last_attempt_at: None,
    }
}

fn strings(list: &[&str]) -> Vec<String> {
    list.iter().map(|s| s.to_string()).collect()
}

#[test]
fn sites_are_read_in_order() {
    let statement = TableSites::get_all();
    assert_eq!(statement.sql, "SELECT * FROM sites ORDER BY id");
    assert!(statement.args.is_empty());
}

#[test]
fn links_are_resolved_against_the_base() {
    let links = strings(&["c.png", "/d", "//eve.com/b", "http://x.y/z?q", "http://[", "mailto:a@b"]);
    assert_eq!(
        resolve_links("https://example.net/a/b.html", &links),
        Ok(strings(&[
            "https://example.net/a/c.png",
            "https://example.net/d",
            "https://eve.com/b",
            "http://x.y/z?q",
            "mailto:a@b",
        ]))
    );
    assert_eq!(
        resolve_links("data:text/plain,x", &strings(&["c.png", "http://a.b/"])),
        Ok(strings(&["http://a.b/"]))
    );
    assert_eq!(resolve_links("example.net", &links), Err(GrabError::InvalidBaseUrl));
}

#[test]
fn links_of_the_pages_are_collected() {
    let loaded = vec![Some(strings(&["a", "b"])), None, Some(vec![]), Some(strings(&["c"]))];
    assert_eq!(collect_links(loaded), strings(&["a", "b", "c"]));
    assert_eq!(keep_present(vec![None, Some("x".to_string()), None]), strings(&["x"]));
}

#[test]
fn a_site_is_processed_step_by_step() {
    let site = site("https://example.com/", 1);
    assert_eq!(site.process(SiteEvent::Started), SiteStep::CreateClient(true));
    match site.process(SiteEvent::ClientCreated) {
        SiteStep::ReadPages(statement) => assert_eq!(statement.args, vec![SqlValue::Int(4)]),
        other => panic!("{other:?}"),
    }
    assert_eq!(
        site.process(SiteEvent::PagesRead(vec![page()])),
        SiteStep::DownloadPages(vec![page()])
    );
    assert_eq!(
        site.process(SiteEvent::PagesDownloaded(vec![page()])),
        SiteStep::LoadLinks(vec![page()])
    );
    assert_eq!(
        site.process(SiteEvent::LinksLoaded(vec![Some(strings(&["a"])), None])),
        SiteStep::AppendLinks(strings(&["https://example.com/a"]))
    );
    assert_eq!(site.process(SiteEvent::LinksAppended), SiteStep::ReserveLinks(5));
    assert_eq!(
        site.process(SiteEvent::LinksReserved(vec![link("a")])),
        SiteStep::DownloadLinks(vec![link("a")])
    );
    let info = DownloadItemInfo { description: None, content_type: None };
    let mut downloaded = Downloaded::new();
    downloaded.insert("b".to_string(), info.clone());
    assert_eq!(
        site.process(SiteEvent::LinksDownloaded(vec![link("a"), link("b")], downloaded)),
        SiteStep::CompleteLinks(vec![(link("b"), info)])
    );
    assert_eq!(site.process(SiteEvent::LinksCompleted), SiteStep::ReserveLinks(5));
    assert_eq!(site.process(SiteEvent::LinksReserved(vec![])), SiteStep::Done);
}

#[test]
fn a_site_without_a_proxy_or_with_a_bad_base() {
    assert_eq!(site("x", 0).process(SiteEvent::Started), SiteStep::CreateClient(false));
    assert_eq!(site("x", 2).process(SiteEvent::Started), SiteStep::CreateClient(false));
    let failed = SiteStep::Failed(GrabError::InvalidBaseUrl);
    assert_eq!(site("x", 0).process(SiteEvent::PagesDownloaded(vec![])), failed);
    let failed = SiteStep::Failed(GrabError::InvalidBaseUrl);
    assert_eq!(site("x", 0).process(SiteEvent::LinksLoaded(vec![])), failed);
}

#[test]
fn steps_that_follow_a_url() {
    let (a, b) = (Some("a".to_string()), Some("b".to_string()));
    assert_eq!(prefer_joined(a.clone(), b.clone()), a);
    assert_eq!(prefer_joined(None, b.clone()), b);
    assert_eq!(prefer_joined(None, None), None);
    assert_eq!(after_download(true, vec![page()]), SiteStep::LoadLinks(vec![page()]));
    let failed = || SiteStep::Failed(GrabError::InvalidBaseUrl);
    assert_eq!(after_download(false, vec![page()]), failed());
    assert_eq!(after_resolving(Ok(strings(&["a"]))), SiteStep::AppendLinks(strings(&["a"])));
    assert_eq!(after_resolving(Err(GrabError::InvalidBaseUrl)), failed());
}

#[test]
fn failures_are_summed_up() {
    assert_eq!(sum_up(vec![]), Ok(()));
    assert_eq!(sum_up(vec![Ok(()), Ok(())]), Ok(()));
    assert_eq!(
        sum_up(vec![Err("a".to_string()), Ok(()), Err("b".to_string())]),
        Err("a\nb".to_string())
    );
    assert_eq!(sum_up(vec![Err(String::new())]), Err(String::new()));
}

#[test]
fn the_directories_of_the_application() {
    let paths = init_resource_dirs("/srv/resources".to_string());
    assert_eq!(paths.resource_dir, "/srv/resources");
    assert_eq!(paths.pages_dir, "/srv/resources/pages");
    assert_eq!(paths.files_dir, "/srv/resources/files");
    let db = init_db_pool(&paths.resource_dir);
    assert_eq!(db.filename, "/srv/resources/db.sqlite");
    assert_eq!(db.busy_timeout, 5);
    assert!(db.create_if_missing);
    assert_eq!((db.journal_mode, db.synchronous), ("WAL", "NORMAL"));
    assert_eq!(db.migrations, "migrations/");
    assert_eq!(
        db.pragmas,
        vec![("page_size", "4096"), ("foreign_keys", "ON"), ("temp_store", "MEMORY")]
    );
}
