//! Downloads: what is fetched, how often it is tried, and what comes of it.
pub mod list;
pub mod list_laws;
pub mod name_laws;
pub mod save_as_file;
pub mod simple_item;

use crate::downloader::list::Downloaded;
use crate::error::GrabError;
use crate::text::opt_view;
use vstd::prelude::*;

verus! {

/// How long, in nanoseconds, a page is kept before it is fetched anew: a day.
pub const CACHE_DURATION: u128 = 86_400_000_000_000;

/// How long, in seconds, the client waits for an answer.
pub const TIMEOUT: u64 = 60;

/// How many redirections the client follows.
pub const MAX_REDIRECTS: usize = 5;

/// Something to download.
pub trait DownloadItem: Sized {
    /// What is fetched.
    spec fn url_view(&self) -> Seq<char>;

    /// Where it is kept.
    spec fn path_view(&self) -> Seq<char>;

    /// What is fetched.
    fn url_as_str(&self) -> (res: &str)
        ensures
            res@ == self.url_view(),
    ;

    /// Where it is kept.
    fn path(&self) -> (res: &str)
        ensures
            res@ == self.path_view(),
    ;
}

/// Whether something kept for `age` nanoseconds is older than `lifetime`; what is not kept at all is.
pub open spec fn outlived(age: Option<u128>, lifetime: int) -> bool {
    match age {
        Some(age) => age > lifetime,
        None => true,
    }
}

/// Whether something kept for `age` nanoseconds is older than `lifetime`.
pub fn has_outlived(age: Option<u128>, lifetime: u128) -> (res: bool)
    ensures
        res == outlived(age, lifetime as int),
{
    match age {
        Some(age) => age > lifetime,
        None => true,
    }
}

/// Something to download that grows old.
pub trait DownloadItemExpired: DownloadItem {
    /// How long, in nanoseconds, it is kept before it is fetched anew.
    spec fn lifetime(&self) -> int;

    /// Whether it has grown old: `age` is how long, in nanoseconds, it was kept, if it is kept.
    fn is_expired(&self, age: Option<u128>) -> (res: bool)
        ensures
            res == outlived(age, self.lifetime()),
    ;
}

/// How the client for the requests is set up.
#[derive(Debug, PartialEq, Eq)]
pub struct ClientConfig {
    /// The proxy that the requests go through.
    pub proxy: Option<String>,
    /// The headers that each request carries.
    pub headers: Vec<(&'static str, &'static str)>,
    /// How long, in seconds, an answer is waited for.
    pub timeout: u64,
    /// How many redirections are followed.
    pub max_redirects: usize,
}

/// The headers that each request carries.
pub open spec fn default_headers() -> Seq<(&'static str, &'static str)> {
    seq![
        (
            "sec-ch-ua",
            "\"Chromium\";v=\"146\", \"Not-A.Brand\";v=\"24\", \"YaBrowser\";v=\"26.4\", \"Yowser\";v=\"2.5\"",
        ),
        ("sec-ch-ua-mobile", "?0"),
        ("sec-ch-ua-platform", "\"Linux\""),
        (
            "user-agent",
            "Mozilla/5.0 (X11; Linux x86_64) AppleWebKit/537.36 (KHTML, like Gecko) Chrome/146.0.0.0 YaBrowser/26.4.0.0 Safari/537.36",
        ),
    ]
}

/// Whether a text is the address of a proxy.
pub uninterp spec fn proxy_valid(text: Seq<char>) -> bool;

/// `Proxy::all`: reads the address of a proxy for all requests. Whether that succeeds is a function of
/// the text.
#[verifier::external_body]
pub(crate) fn is_proxy(text: &str) -> (res: bool)
    ensures
        res == proxy_valid(text@),
{
    reqwest::Proxy::all(text).is_ok()
}

/// The proxy that is used: the one that the environment gives, if it is wanted.
pub open spec fn used_proxy(use_proxy: bool, proxy: Option<String>) -> Option<Seq<char>> {
    if use_proxy {
        opt_view(proxy)
    } else {
        None
    }
}

/// Whether the requests go through `proxy`, or through none, and the rest is set up as always.
pub open spec fn is_client(config: ClientConfig, proxy: Option<Seq<char>>) -> bool {
    &&& opt_view(config.proxy) == proxy
    &&& config.headers@ == default_headers()
    &&& config.timeout == TIMEOUT
    &&& config.max_redirects == MAX_REDIRECTS
}

/// How the client is set up: `proxy` is the proxy that the environment gives, and goes unused unless
/// `use_proxy` is set. It fails exactly if the proxy is used and its text is not the address of one.
pub fn create_client(use_proxy: bool, proxy: Option<String>) -> (res: Result<
    ClientConfig,
    GrabError,
>)
    ensures
        match res {
            Ok(config) => {
                &&& is_client(config, used_proxy(use_proxy, proxy))
                &&& used_proxy(use_proxy, proxy) matches Some(text) ==> proxy_valid(text)
                &&& use_proxy ==> config.proxy == proxy
                &&& !use_proxy ==> config.proxy is None
            },
            Err(err) => {
                &&& err == GrabError::InvalidProxy
                &&& used_proxy(use_proxy, proxy) matches Some(text) && !proxy_valid(text)
            },
        },
        res is Err <==> use_proxy && proxy is Some && !proxy_valid(proxy->0@),
{
    let proxy = if use_proxy {
        proxy
    } else {
        None
    };
    let valid = match &proxy {
        Some(text) => is_proxy(text.as_str()),
        None => true,
    };
    client_config(proxy, valid)
}

/// How the client is set up for requests through `proxy`, if there is one; `valid` says whether that
/// is the address of a proxy.
pub fn client_config(proxy: Option<String>, valid: bool) -> (res: Result<ClientConfig, GrabError>)
    ensures
        match res {
            Ok(config) => valid && is_client(config, opt_view(proxy)) && config.proxy == proxy,
            Err(err) => !valid && err == GrabError::InvalidProxy,
        },
{
    if !valid {
        return Err(GrabError::InvalidProxy);
    }
    let mut headers: Vec<(&'static str, &'static str)> = Vec::new();
    headers.push(
        (
            "sec-ch-ua",
            "\"Chromium\";v=\"146\", \"Not-A.Brand\";v=\"24\", \"YaBrowser\";v=\"26.4\", \"Yowser\";v=\"2.5\"",
        ),
    );
    headers.push(("sec-ch-ua-mobile", "?0"));
    headers.push(("sec-ch-ua-platform", "\"Linux\""));
    headers.push(
        (
            "user-agent",
            "Mozilla/5.0 (X11; Linux x86_64) AppleWebKit/537.36 (KHTML, like Gecko) Chrome/146.0.0.0 YaBrowser/26.4.0.0 Safari/537.36",
        ),
    );
    assert(headers@ =~= default_headers());
    Ok(ClientConfig { proxy, headers, timeout: TIMEOUT, max_redirects: MAX_REDIRECTS })
}

/// The pages, apart by whether they have to be fetched.
#[derive(Debug, PartialEq, Eq)]
pub struct PageDownload<T> {
    /// The pages that are kept already.
    pub finished: Vec<T>,
    /// The pages that have to be fetched.
    pub in_progress: Vec<T>,
}

/// Whether a page has the given mark.
pub open spec fn has_mark<T>(mark: bool) -> spec_fn((bool, T)) -> bool {
    |page: (bool, T)| page.0 == mark
}

/// The pages with the given mark, in order.
pub open spec fn marked<T>(pages: Seq<(bool, T)>, mark: bool) -> Seq<T> {
    pages.filter(has_mark(mark)).map_values(|page: (bool, T)| page.1)
}

/// Parts the pages that have grown old, which are marked, from the others.
pub fn download_pages<T>(pages: Vec<(bool, T)>) -> (res: PageDownload<T>)
    ensures
        res.finished@ == marked(pages@, false),
        res.in_progress@ == marked(pages@, true),
        res.finished@ == pages@.filter(|page: (bool, T)| page.0 == false).map_values(
            |page: (bool, T)| page.1,
        ),
        res.in_progress@ == pages@.filter(|page: (bool, T)| page.0 == true).map_values(
            |page: (bool, T)| page.1,
        ),
{
    proof {
        law_marked(pages@);
    }
    let ghost all = pages@;
    let mut finished: Vec<T> = Vec::new();
    let mut in_progress: Vec<T> = Vec::new();
    proof {
        reveal(Seq::filter);
        assert(finished@ =~= marked(all.take(0), false));
        assert(in_progress@ =~= marked(all.take(0), true));
    }
    for page in it: pages
        invariant
            it.seq() == all,
            finished@ == marked(all.take(it.index() as int), false),
            in_progress@ == marked(all.take(it.index() as int), true),
    {
        proof {
            lemma_marked_step(all, it.index() as int, false);
            lemma_marked_step(all, it.index() as int, true);
        }
        let (expired, item) = page;
        if expired {
            in_progress.push(item);
        } else {
            finished.push(item);
        }
    }
    assert(all.take(all.len() as int) =~= all);
    PageDownload { finished, in_progress }
}

/// One more page to mark.
proof fn lemma_marked_step<T>(pages: Seq<(bool, T)>, i: int, mark: bool)
    requires
        0 <= i < pages.len(),
    ensures
        marked(pages.take(i + 1), mark) == (if pages[i].0 == mark {
            marked(pages.take(i), mark).push(pages[i].1)
        } else {
            marked(pages.take(i), mark)
        }),
{
    reveal(Seq::filter);
    assert(pages.take(i + 1).drop_last() =~= pages.take(i));
    assert(marked(pages.take(i + 1), mark) =~= (if pages[i].0 == mark {
        marked(pages.take(i), mark).push(pages[i].1)
    } else {
        marked(pages.take(i), mark)
    }));
}

impl<T: DownloadItem> PageDownload<T> {
    /// The pages that are kept once `downloaded` was fetched: those that were already, then those
    /// that were fetched.
    pub fn finish(self, downloaded: &Downloaded) -> (res: Vec<T>)
        ensures
            res@ == self.finished@ + self.in_progress@.filter(
                |page: T| downloaded@.contains_key(page.url_view()),
            ),
    {
        let PageDownload { finished, in_progress } = self;
        let ghost kept = finished@;
        let ghost all = in_progress@;
        let ghost fetched = |page: T| downloaded@.contains_key(page.url_view());
        let mut res = finished;
        proof {
            reveal(Seq::filter);
            assert(res@ =~= kept + all.take(0).filter(fetched));
        }
        for page in it: in_progress
            invariant
                it.seq() == all,
                fetched == (|page: T| downloaded@.contains_key(page.url_view())),
                res@ == kept + all.take(it.index() as int).filter(fetched),
        {
            proof {
                reveal(Seq::filter);
                assert(all.take(it.index() + 1).drop_last() =~= all.take(it.index() as int));
            }
            let ghost before = res@;
            if downloaded.contains_key(page.url_as_str()) {
                res.push(page);
            }
            assert(res@ =~= kept + all.take(it.index() + 1).filter(fetched));
        }
        assert(all.take(all.len() as int) =~= all);
        res
    }
}

/// Parting the pages loses none, and makes up none: a page is among those that are kept in the end
/// exactly if it had not grown old, or was fetched.
pub proof fn law_download_pages<T>(
    pages: Seq<(bool, T)>,
    fetched: spec_fn(T) -> bool,
    page: T,
)
    ensures
        (marked(pages, false) + marked(pages, true).filter(fetched)).contains(page) <==> (
        pages.contains((false, page)) || (pages.contains((true, page)) && fetched(page))),
{
    let kept = marked(pages, false);
    let stale = marked(pages, true);
    let both = kept + stale.filter(fetched);
    lemma_marked_contains(pages, false, page);
    lemma_marked_contains(pages, true, page);
    if both.contains(page) {
        let i = choose|i: int| 0 <= i < both.len() && both[i] == page;
        if i < kept.len() {
            assert(kept[i] == page);
        } else {
            assert(stale.filter(fetched)[i - kept.len()] == page);
            lemma_filter_contains(stale, fetched, page);
        }
    }
    if kept.contains(page) {
        let i = choose|i: int| 0 <= i < kept.len() && kept[i] == page;
        assert(both[i] == page);
    }
    if stale.contains(page) && fetched(page) {
        lemma_filter_contains(stale, fetched, page);
        let i = choose|i: int|
            0 <= i < stale.filter(fetched).len() && stale.filter(fetched)[i] == page;
        assert(both[kept.len() + i] == page);
    }
}

/// A filtered sequence holds what passes the test.
proof fn lemma_filter_contains<T>(s: Seq<T>, keep: spec_fn(T) -> bool, item: T)
    ensures
        s.filter(keep).contains(item) <==> s.contains(item) && keep(item),
    decreases s.len(),
{
    reveal(Seq::filter);
    if s.len() > 0 {
        let front = s.drop_last();
        lemma_filter_contains(front, keep, item);
        let before = front.filter(keep);
        let after = s.filter(keep);
        if after.contains(item) {
            let i = choose|i: int| 0 <= i < after.len() && after[i] == item;
            if i < before.len() {
                assert(before[i] == item);
                let k = choose|k: int| 0 <= k < front.len() && front[k] == item;
                assert(s[k] == item);
            } else {
                assert(s[s.len() - 1] == item);
            }
        }
        if s.contains(item) && keep(item) {
            let k = choose|k: int| 0 <= k < s.len() && s[k] == item;
            if k < front.len() {
                assert(front[k] == item);
                let i = choose|i: int| 0 <= i < before.len() && before[i] == item;
                assert(after[i] == item);
            } else {
                assert(after[after.len() - 1] == item);
            }
        }
    }
}

/// The pages with a mark are those that stand there with it.
proof fn lemma_marked_contains<T>(pages: Seq<(bool, T)>, mark: bool, page: T)
    ensures
        marked(pages, mark).contains(page) <==> pages.contains((mark, page)),
{
    let keep = has_mark::<T>(mark);
    let entries = pages.filter(keep);
    lemma_filter_contains(pages, keep, (mark, page));
    if marked(pages, mark).contains(page) {
        let i = choose|i: int|
            0 <= i < marked(pages, mark).len() && marked(pages, mark)[i] == page;
        let entry = entries[i];
        assert(entries.contains(entry));
        lemma_filter_contains(pages, keep, entry);
        assert(entry == (mark, page));
    }
    if entries.contains((mark, page)) {
        let i = choose|i: int| 0 <= i < entries.len() && entries[i] == (mark, page);
        assert(marked(pages, mark)[i] == page);
    }
}

/// The pages that are kept already are those that are not marked, the others those that are: each page is
/// on one side, and the order is kept.
pub proof fn law_marked<T>(pages: Seq<(bool, T)>)
    ensures
        marked(pages, false) == pages.filter(|page: (bool, T)| page.0 == false).map_values(
            |page: (bool, T)| page.1,
        ),
        marked(pages, true) == pages.filter(|page: (bool, T)| page.0 == true).map_values(
            |page: (bool, T)| page.1,
        ),
        marked(pages, false).len() + marked(pages, true).len() == pages.len(),
    decreases pages.len(),
{
    reveal(Seq::filter);
    if pages.len() > 0 {
        law_marked(pages.drop_last());
        lemma_marked_step(pages, pages.len() - 1, false);
        lemma_marked_step(pages, pages.len() - 1, true);
        assert(pages.take(pages.len() as int) =~= pages);
        assert(pages.take(pages.len() - 1) =~= pages.drop_last());
    }
    assert(marked(pages, false) =~= pages.filter(|page: (bool, T)| page.0 == false).map_values(
        |page: (bool, T)| page.1,
    ));
    assert(marked(pages, true) =~= pages.filter(|page: (bool, T)| page.0 == true).map_values(
        |page: (bool, T)| page.1,
    ));
}

/// What is not kept is old, and what is kept is old exactly if it was kept for longer than its lifetime.
/// What is old stays so.
pub proof fn law_outlived(age: u128, later: u128, lifetime: int)
    ensures
        outlived(None, lifetime),
        outlived(Some(age), lifetime) <==> age > lifetime,
        age <= later && outlived(Some(age), lifetime) ==> outlived(Some(later), lifetime),
{
}

/// A page is kept for a day, a link for thirty.
pub proof fn law_lifetimes(
    page: crate::pages::TablePage,
    link: crate::downloader::simple_item::SimpleDownloaderLink,
)
    ensures
        page.lifetime() == 24 * 60 * 60 * 1_000_000_000int,
        link.lifetime() == 30 * page.lifetime(),
{
}

/// Each item is fetched from its own URL, and kept at its own path.
pub proof fn law_items(
    page: crate::pages::TablePage,
    link: crate::downloader::simple_item::SimpleDownloaderLink,
    download: crate::download::TableDownload,
)
    ensures
        page.url_view() == page.url@ && page.path_view() == page.path@,
        link.url_view() == link.url@ && link.path_view() == link.path@,
        download.url_view() == download.download_url@,
        download.path_view() == download.local_path@,
{
}

/// The proxy is used exactly if it is wanted and there is one; whichever it is, the rest of the client is
/// the same: a browser's headers, a minute to answer and five redirections.
pub proof fn law_client(config: ClientConfig, use_proxy: bool, proxy: Option<String>)
    requires
        is_client(config, used_proxy(use_proxy, proxy)),
    ensures
        config.proxy is Some <==> use_proxy && proxy is Some,
        config.proxy is Some ==> config.proxy->0@ == proxy->0@,
        config.timeout == 60,
        config.max_redirects == 5,
        config.headers@ == seq![
            (
                "sec-ch-ua",
                "\"Chromium\";v=\"146\", \"Not-A.Brand\";v=\"24\", \"YaBrowser\";v=\"26.4\", \"Yowser\";v=\"2.5\"",
            ),
            ("sec-ch-ua-mobile", "?0"),
            ("sec-ch-ua-platform", "\"Linux\""),
            (
                "user-agent",
                "Mozilla/5.0 (X11; Linux x86_64) AppleWebKit/537.36 (KHTML, like Gecko) Chrome/146.0.0.0 YaBrowser/26.4.0.0 Safari/537.36",
            ),
        ],
{
}

} // verus!
