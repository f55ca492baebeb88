use site_grabber::downloader::simple_item::SimpleDownloaderLink;
use site_grabber::downloader::{DownloadItem, DownloadItemExpired};
use site_grabber::error::GrabError;
use site_grabber::hashing::cache_path;
use site_grabber::pages::{init_paths, LinkLoad, LoadStep, TablePage};
use site_grabber::rules::TablePageRule;
use site_grabber::statement::SqlValue;

fn page(path: &str, rules: &str) -> TablePage {
    TablePage {
        url: "https://example.com/list".to_string(),
        path: path.to_string(),
        rules: rules.to_string(),
    }
}

fn rule(filter: &str, action: &str) -> TablePageRule {
    TablePageRule {
        id: 1,
        group_id: 2,
        priority: 0,
        filter: filter.to_string(),
        new_value: None,
        action: action.to_string(),
        description: None,
    }
}

fn strings(list: &[&str]) -> Vec<String> {
    list.iter().map(|s| s.to_string()).collect()
}

fn groups(rules: &str) -> Result<Vec<i64>, GrabError> {
    page("", rules).get_rules_group()
}

#[test]
fn groups_of_a_json_array() {
    assert_eq!(groups("[1, 5, 3]"), Ok(vec![1, 5, 3]));
    assert_eq!(groups("[]"), Ok(vec![]));
    assert_eq!(groups("[-7]"), Ok(vec![-7]));
    assert_eq!(groups("[0, 4, 0, 2]"), Ok(vec![4, 2]));
}

#[test]
fn groups_of_other_lists() {
    assert_eq!(groups(""), Ok(vec![]));
    assert_eq!(groups(" 4 "), Ok(vec![4]));
    assert_eq!(groups("\t[[ 1 ,, +2 , 0, -0 ]]\n"), Ok(vec![1, 2]));
    assert_eq!(groups("[1,1]"), Ok(vec![1, 1]));
    assert_eq!(groups("[9223372036854775807]"), Ok(vec![i64::MAX]));
}

#[test]
fn lists_that_hold_no_numbers() {
    assert_eq!(groups("[1, x]"), Err(GrabError::InvalidRuleId));
    assert_eq!(groups("[1],[2]"), Err(GrabError::InvalidRuleId));
    assert_eq!(groups("[9223372036854775808]"), Err(GrabError::InvalidRuleId));
    assert_eq!(groups("[1 2]"), Err(GrabError::InvalidRuleId));
}

#[test]
fn a_page_without_a_place_gets_one() {
    let mut fresh = page("", "[]");
    fresh.init_path_if_empty("pages");
    assert_eq!(fresh.path, cache_path("pages", "https://example.com/list"));
    let first = fresh.path.clone();
    fresh.init_path_if_empty("elsewhere");
    assert_eq!(fresh.path, first);

    let mut pages = vec![page("kept", "[1]"), page("", "[2]")];
    init_paths(&mut pages, "pages");
    assert_eq!(pages, vec![page("kept", "[1]"), page(&first, "[2]")]);
}

#[test]
fn pages_are_read_by_site() {
    let statement = TablePage::get_by_site_id(7);
    assert_eq!(statement.sql, "SELECT url, path, rules FROM pages WHERE site_id = ?");
    assert_eq!(statement.args, vec![SqlValue::Int(7)]);
}

#[test]
fn pages_and_links_grow_old() {
    let day: u128 = 24 * 60 * 60 * 1_000_000_000;
    let page = page("p", "[]");
    assert_eq!((page.url_as_str(), page.path()), ("https://example.com/list", "p"));
    assert!(page.is_expired(None));
    assert!(!page.is_expired(Some(0)));
    assert!(!page.is_expired(Some(day)));
    assert!(page.is_expired(Some(day + 1)));
    let link = SimpleDownloaderLink { url: "u".to_string(), path: "p".to_string() };
    assert_eq!((link.url_as_str(), link.path()), ("u", "p"));
    assert!(link.is_expired(None));
    assert!(!link.is_expired(Some(day * 30)));
    assert!(link.is_expired(Some(day * 30 + 1)));
}

#[test]
fn links_of_a_page() {
    let load = page("p", "[2]").load_links("see /a and /b".to_string()).unwrap();
    assert_eq!(load.next_step(), LoadStep::ApplyGroup(2));
    let done = load.apply(&[rule("/[a-z]", "include")]).unwrap();
    assert_eq!(done.next_step(), LoadStep::Done);
    assert_eq!(done.contents, strings(&["/a", "/b"]));
}

#[test]
fn the_order_of_the_groups_is_the_order_of_application() {
    let load = page("p", "[1, 5]").load_links("see /a and /b".to_string()).unwrap();
    assert_eq!(load.next_step(), LoadStep::ApplyGroup(1));
    let load = load.apply(&[rule("/[a-z]", "include")]).unwrap();
    assert_eq!(load.next_step(), LoadStep::FollowLinks);
    assert_eq!(load.contents, strings(&["/a", "/b"]));

    let items = load.links_to_follow("https://example.com/list", "pages").unwrap();
    let urls: Vec<&str> = items.iter().map(|item| item.url.as_str()).collect();
    assert_eq!(urls, vec!["https://example.com/a", "https://example.com/b"]);
    assert_eq!(items[0].path, cache_path("pages", "https://example.com/a"));
    assert_eq!(load.links_to_follow("list", "pages"), Err(GrabError::InvalidBaseUrl));

    let load = load.follow(strings(&["file 1", "files 2 and 3"]));
    assert_eq!(load.next_step(), LoadStep::ApplyGroup(5));
    let done = load.apply(&[rule("[0-9]", "include")]).unwrap();
    assert_eq!(done.next_step(), LoadStep::Done);
    assert_eq!(done.contents, strings(&["1", "2", "3"]));
}

#[test]
fn a_page_without_rules_has_no_links() {
    let load = page("p", "[0]").load_links("see /a".to_string()).unwrap();
    assert_eq!(load.next_step(), LoadStep::Done);
    assert!(load.contents.is_empty());
    assert_eq!(
        page("p", "[a]").load_links("see /a".to_string()),
        Err(GrabError::InvalidRuleId)
    );
}

#[test]
fn rules_that_cannot_be_applied() {
    let load = || page("p", "[2]").load_links("a".to_string()).unwrap();
    assert_eq!(load().try_apply(&[rule("(", "include")]), Some(Err(GrabError::InvalidFilter)));
    assert_eq!(load().try_apply(&[rule("a", "?")]), None);
    let two = || page("p", "[2, 3]").load_links("a".to_string()).unwrap();
    assert_eq!(two().try_apply(&[rule("(", "include")]), Some(Err(GrabError::InvalidFilter)));
    let links = two().try_apply(&[rule("a", "include")]).unwrap().unwrap();
    assert_eq!(links.try_apply(&[rule("a", "include")]), None);
    let done = load().try_apply(&[rule("a", "include")]).unwrap().unwrap();
    let expected =
        LinkLoad { groups: vec![2], applied: 1, contents: strings(&["a"]), fetched: false };
    assert_eq!(done, expected);
    assert_eq!(done.try_apply(&[]), None);
}
