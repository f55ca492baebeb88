//! The sites, and what is done for each of them.
use crate::download::TableDownload;
use crate::downloader::list::Downloaded;
use crate::downloader::save_as_file::DownloadItemInfo;
use crate::error::GrabError;
use crate::pages::{TablePage, PAGES_OF_SITE};
use crate::site_laws::{law_all_links, law_failures, law_paired, law_present};
use crate::statement::{Bound, Statement};
use crate::text::{join, join_texts, opt_view, views};
use crate::urls::{join_url, parse_url, url_joined, url_parsed};
use vstd::prelude::*;

verus! {

/// The text of the statement that reads the sites.
pub const ALL_SITES: &'static str = "SELECT * FROM sites ORDER BY id";

/// How many links are reserved at a time.
pub const BATCH: i64 = 5;

/// A row of the table `sites`.
#[derive(Debug, PartialEq, Eq)]
pub struct TableSites {
    /// The identifier of the site.
    pub id: i64,
    /// The address that relative links of the site are resolved against.
    pub base_url: String,
    /// Whether requests to the site go through the proxy, if there is one: 1 if they do.
    pub proxy: i64,
}

/// What was done last for a site, and what came of it.
#[derive(Debug, PartialEq, Eq)]
pub enum SiteEvent {
    /// Nothing was done yet.
    Started,
    /// The client was created.
    ClientCreated,
    /// The pages of the site were read.
    PagesRead(Vec<TablePage>),
    /// The pages were downloaded; these are kept now.
    PagesDownloaded(Vec<TablePage>),
    /// The links of each page were looked for; for a page where that failed there are none.
    LinksLoaded(Vec<Option<Vec<String>>>),
    /// The links were added to the queue.
    LinksAppended,
    /// These links were reserved.
    LinksReserved(Vec<TableDownload>),
    /// The reserved links were tried, and this is what was downloaded.
    LinksDownloaded(Vec<TableDownload>, Downloaded),
    /// The downloaded links were marked.
    LinksCompleted,
}

/// What is done next for a site.
#[derive(Debug, PartialEq, Eq)]
pub enum SiteStep {
    /// Create the client, with or without the proxy.
    CreateClient(bool),
    /// Read the pages of the site.
    ReadPages(Statement),
    /// Download those of the pages that have grown old.
    DownloadPages(Vec<TablePage>),
    /// Look for links in each of the pages.
    LoadLinks(Vec<TablePage>),
    /// Add the links to the queue.
    AppendLinks(Vec<String>),
    /// Reserve links, at most so many.
    ReserveLinks(i64),
    /// Download the links.
    DownloadLinks(Vec<TableDownload>),
    /// Mark the links as downloaded.
    CompleteLinks(Vec<(TableDownload, DownloadItemInfo)>),
    /// Nothing is left to do.
    Done,
    /// The site cannot be processed.
    Failed(GrabError),
}

/// The links of all the pages, one after another.
pub open spec fn all_links(loaded: Seq<Option<Vec<String>>>) -> Seq<Seq<char>>
    decreases loaded.len(),
{
    if loaded.len() == 0 {
        Seq::empty()
    } else {
        let before = all_links(loaded.drop_last());
        match loaded.last() {
            Some(links) => before + views(links@),
            None => before,
        }
    }
}

/// The URL that a link of the site at `base` leads to: it is resolved against the base, or else
/// taken for itself.
pub open spec fn resolved(base: Seq<char>, link: Seq<char>) -> Option<Seq<char>> {
    match url_joined(base, link) {
        Some(url) => Some(url),
        None => url_parsed(link),
    }
}

/// The texts that are there, in order.
pub open spec fn present(texts: Seq<Option<Seq<char>>>) -> Seq<Seq<char>>
    decreases texts.len(),
{
    if texts.len() == 0 {
        Seq::empty()
    } else {
        let before = present(texts.drop_last());
        match texts.last() {
            Some(text) => before.push(text),
            None => before,
        }
    }
}

/// The URLs that the links lead to; links that lead nowhere are left out.
pub open spec fn all_resolved(base: Seq<char>, links: Seq<Seq<char>>) -> Seq<Seq<char>> {
    present(links.map_values(|link: Seq<char>| resolved(base, link)))
}

/// The links that were downloaded, each with what is known of it.
pub open spec fn paired(
    links: Seq<TableDownload>,
    downloaded: Map<Seq<char>, DownloadItemInfo>,
) -> Seq<(TableDownload, DownloadItemInfo)>
    decreases links.len(),
{
    if links.len() == 0 {
        Seq::empty()
    } else {
        let before = paired(links.drop_last(), downloaded);
        let url = links.last().download_url@;
        if downloaded.contains_key(url) {
            before.push((links.last(), downloaded[url]))
        } else {
            before
        }
    }
}

/// The links of all the pages, one after another.
pub fn collect_links(loaded: Vec<Option<Vec<String>>>) -> (res: Vec<String>)
    ensures
        views(res@) == all_links(loaded@),
        views(res@) == loaded@.flat_map(
            |page: Option<Vec<String>>|
                match page {
                    Some(links) => views(links@),
                    None => Seq::empty(),
                },
        ),
{
    proof {
        law_all_links(loaded@);
    }
    let ghost all = loaded@;
    let mut res: Vec<String> = Vec::new();
    assert(views(res@) =~= all_links(all.take(0)));
    for page in it: loaded
        invariant
            it.seq() == all,
            views(res@) == all_links(all.take(it.index() as int)),
    {
        assert(all.take(it.index() + 1).drop_last() =~= all.take(it.index() as int));
        if let Some(links) = page {
            let ghost before = res@;
            let ghost found = links@;
            let mut links = links;
            res.append(&mut links);
            assert(views(res@) =~= views(before) + views(found));
        }
    }
    assert(all.take(all.len() as int) =~= all);
    res
}

/// The texts that are there, in order.
pub fn keep_present(texts: Vec<Option<String>>) -> (res: Vec<String>)
    ensures
        views(res@) == present(texts@.map_values(|text: Option<String>| opt_view(text))),
        views(res@) == texts@.map_values(|text: Option<String>| opt_view(text)).filter(
            |text: Option<Seq<char>>| text is Some,
        ).map_values(|text: Option<Seq<char>>| text->0),
{
    proof {
        law_present(texts@.map_values(|text: Option<String>| opt_view(text)));
    }
    let ghost all = texts@.map_values(|text: Option<String>| opt_view(text));
    let mut res: Vec<String> = Vec::new();
    assert(views(res@) =~= present(all.take(0)));
    for text in it: texts
        invariant
            all == it.seq().map_values(|text: Option<String>| opt_view(text)),
            views(res@) == present(all.take(it.index() as int)),
    {
        assert(all.take(it.index() + 1).drop_last() =~= all.take(it.index() as int));
        assert(all.take(it.index() + 1).last() == opt_view(text));
        if let Some(text) = text {
            let ghost before = res@;
            res.push(text);
            assert(views(res@) =~= views(before).push(text@));
        }
    }
    assert(all.take(all.len() as int) =~= all);
    res
}

/// The URL that a link of the site at `base` leads to.
fn resolve_link(base: &str, link: &str) -> (res: Option<String>)
    requires
        url_parsed(base@) is Some,
    ensures
        opt_view(res) == resolved(base@, link@),
{
    let joined = join_url(base, link);
    let parsed = if joined.is_some() {
        None
    } else {
        parse_url(link)
    };
    prefer_joined(joined, parsed)
}

/// The URL of a link that comes to `joined` on the page that it stands on, and to `parsed` for itself.
pub fn prefer_joined(joined: Option<String>, parsed: Option<String>) -> (res: Option<String>)
    ensures
        opt_view(res) == (match opt_view(joined) {
            Some(url) => Some(url),
            None => opt_view(parsed),
        }),
{
    match joined {
        Some(url) => Some(url),
        None => parsed,
    }
}

/// What is done once the pages were downloaded; `valid_base` says whether the base of the site is a
/// URL.
pub fn after_download(valid_base: bool, pages: Vec<TablePage>) -> (res: SiteStep)
    ensures
        res == (if valid_base {
            SiteStep::LoadLinks(pages)
        } else {
            SiteStep::Failed(GrabError::InvalidBaseUrl)
        }),
{
    if valid_base {
        SiteStep::LoadLinks(pages)
    } else {
        SiteStep::Failed(GrabError::InvalidBaseUrl)
    }
}

/// What is done once the links were resolved, or could not be.
pub fn after_resolving(resolved: Result<Vec<String>, GrabError>) -> (res: SiteStep)
    ensures
        res == (match resolved {
            Ok(urls) => SiteStep::AppendLinks(urls),
            Err(err) => SiteStep::Failed(err),
        }),
{
    match resolved {
        Ok(urls) => SiteStep::AppendLinks(urls),
        Err(err) => SiteStep::Failed(err),
    }
}

/// The URLs that the links of the site at `base` lead to.
pub fn resolve_links(base: &str, links: &[String]) -> (res: Result<Vec<String>, GrabError>)
    ensures
        match res {
            Ok(urls) => url_parsed(base@) is Some && views(urls@) == all_resolved(
                base@,
                views(links@),
            ),
            Err(err) => url_parsed(base@) is None && err == GrabError::InvalidBaseUrl,
        },
{
    if parse_url(base).is_none() {
        return Err(GrabError::InvalidBaseUrl);
    }
    let mut urls: Vec<Option<String>> = Vec::new();
    let mut i: usize = 0;
    while i < links.len()
        invariant
            i <= links.len(),
            url_parsed(base@) is Some,
            urls@.len() == i,
            forall|k: int|
                0 <= k < i ==> opt_view(#[trigger] urls@[k]) == resolved(base@, links@[k]@),
        decreases links.len() - i,
    {
        urls.push(resolve_link(base, links[i].as_str()));
        i += 1;
    }
    assert(urls@.map_values(|url: Option<String>| opt_view(url)) =~= views(links@).map_values(
        |link: Seq<char>| resolved(base@, link),
    ));
    Ok(keep_present(urls))
}

/// The links that were downloaded, each with what is known of it.
pub fn pair_links(links: Vec<TableDownload>, downloaded: &Downloaded) -> (res: Vec<
    (TableDownload, DownloadItemInfo),
>)
    ensures
        res@ == paired(links@, downloaded@),
        res@ == links@.filter(
            |link: TableDownload| downloaded@.contains_key(link.download_url@),
        ).map_values(|link: TableDownload| (link, downloaded@[link.download_url@])),
{
    proof {
        law_paired(links@, downloaded@);
    }
    let ghost all = links@;
    let mut res: Vec<(TableDownload, DownloadItemInfo)> = Vec::new();
    assert(res@ =~= paired(all.take(0), downloaded@));
    for link in it: links
        invariant
            it.seq() == all,
            res@ == paired(all.take(it.index() as int), downloaded@),
    {
        assert(all.take(it.index() + 1).drop_last() =~= all.take(it.index() as int));
        let found = match downloaded.get(link.download_url.as_str()) {
            Some(info) => Some(info.clone()),
            None => None,
        };
        if let Some(info) = found {
            res.push((link, info));
        }
    }
    assert(all.take(all.len() as int) =~= all);
    res
}

impl TableSites {
    /// The statement that reads the sites.
    pub fn get_all() -> (res: Statement)
        ensures
            res.says(ALL_SITES@, Seq::empty()),
    {
        Statement::new(ALL_SITES)
    }

    /// Whether `step` is what follows `event`.
    pub open spec fn follows(&self, event: SiteEvent, step: SiteStep) -> bool {
        match event {
            SiteEvent::Started => step == SiteStep::CreateClient(self.proxy == 1),
            SiteEvent::ClientCreated => {
                &&& step matches SiteStep::ReadPages(statement)
                &&& statement.says(PAGES_OF_SITE@, seq![Bound::Int(self.id)])
            },
            SiteEvent::PagesRead(pages) => step == SiteStep::DownloadPages(pages),
            SiteEvent::PagesDownloaded(pages) => if url_parsed(self.base_url@) is Some {
                step == SiteStep::LoadLinks(pages)
            } else {
                step == SiteStep::Failed(GrabError::InvalidBaseUrl)
            },
            SiteEvent::LinksLoaded(loaded) => if url_parsed(self.base_url@) is Some {
                &&& step matches SiteStep::AppendLinks(urls)
                &&& views(urls@) == all_resolved(self.base_url@, all_links(loaded@))
            } else {
                step == SiteStep::Failed(GrabError::InvalidBaseUrl)
            },
            SiteEvent::LinksAppended => step == SiteStep::ReserveLinks(BATCH),
            SiteEvent::LinksReserved(links) => if links@.len() == 0 {
                step == SiteStep::Done
            } else {
                step == SiteStep::DownloadLinks(links)
            },
            SiteEvent::LinksDownloaded(links, downloaded) => {
                &&& step matches SiteStep::CompleteLinks(done)
                &&& done@ == paired(links@, downloaded@)
            },
            SiteEvent::LinksCompleted => step == SiteStep::ReserveLinks(BATCH),
        }
    }

    /// What is done next for the site.
    pub fn process(&self, event: SiteEvent) -> (res: SiteStep)
        ensures
            self.follows(event, res),
    {
        match event {
            SiteEvent::Started => SiteStep::CreateClient(self.proxy == 1),
            SiteEvent::ClientCreated => SiteStep::ReadPages(TablePage::get_by_site_id(self.id)),
            SiteEvent::PagesRead(pages) => SiteStep::DownloadPages(pages),
            SiteEvent::PagesDownloaded(pages) => after_download(
                parse_url(self.base_url.as_str()).is_some(),
                pages,
            ),
            SiteEvent::LinksLoaded(loaded) => {
                let links = collect_links(loaded);
                after_resolving(resolve_links(self.base_url.as_str(), links.as_slice()))
            },
            SiteEvent::LinksAppended => SiteStep::ReserveLinks(BATCH),
            SiteEvent::LinksReserved(links) => if links.len() == 0 {
                SiteStep::Done
            } else {
                SiteStep::DownloadLinks(links)
            },
            SiteEvent::LinksDownloaded(links, downloaded) => SiteStep::CompleteLinks(
                pair_links(links, &downloaded),
            ),
            SiteEvent::LinksCompleted => SiteStep::ReserveLinks(BATCH),
        }
    }
}

/// The messages of the sites that failed, in order.
pub open spec fn failures(results: Seq<Result<(), String>>) -> Seq<Seq<char>>
    decreases results.len(),
{
    if results.len() == 0 {
        Seq::empty()
    } else {
        let before = failures(results.drop_last());
        match results.last() {
            Ok(_) => before,
            Err(message) => before.push(message@),
        }
    }
}

/// The outcome for all the sites: the messages of those that failed, one per line.
pub fn sum_up(results: Vec<Result<(), String>>) -> (res: Result<(), String>)
    ensures
        match res {
            Ok(_) => failures(results@).len() == 0,
            Err(message) => failures(results@).len() > 0 && message@ == join(
                failures(results@),
                "\n"@,
            ),
        },
        res is Ok <==> forall|i: int| 0 <= i < results@.len() ==> #[trigger] results@[i] is Ok,
{
    proof {
        law_failures(results@);
    }
    let ghost all = results@;
    let mut errors: Vec<String> = Vec::new();
    assert(views(errors@) =~= failures(all.take(0)));
    for result in it: results
        invariant
            it.seq() == all,
            views(errors@) == failures(all.take(it.index() as int)),
    {
        assert(all.take(it.index() + 1).drop_last() =~= all.take(it.index() as int));
        if let Err(message) = result {
            let ghost before = errors@;
            errors.push(message);
            assert(views(errors@) =~= views(before).push(message@));
        }
    }
    assert(all.take(all.len() as int) =~= all);
    assert(views(errors@).len() == errors@.len());
    if errors.len() == 0 {
        Ok(())
    } else {
        Err(join_texts(errors.as_slice(), "\n"))
    }
}

} // verus!
