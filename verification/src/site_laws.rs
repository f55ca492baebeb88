//! What holds of the work for a site.
use crate::download::TableDownload;
use crate::downloader::save_as_file::DownloadItemInfo;
use crate::error::GrabError;
use crate::pages::PAGES_OF_SITE;
use crate::sites::{
    all_links, all_resolved, failures, paired, present, resolved, SiteEvent, SiteStep, TableSites,
};
use crate::statement::Bound;
use crate::text::views;
use crate::urls::{url_joined, url_parsed};
use vstd::prelude::*;

verus! {

/// The links to complete are those of the links that were downloaded, all of them and in order, each
/// with what is known of its URL.
pub proof fn law_paired(links: Seq<TableDownload>, downloaded: Map<Seq<char>, DownloadItemInfo>)
    ensures
        paired(links, downloaded) == links.filter(
            |link: TableDownload| downloaded.contains_key(link.download_url@),
        ).map_values(|link: TableDownload| (link, downloaded[link.download_url@])),
    decreases links.len(),
{
    reveal(Seq::filter);
    let known = |link: TableDownload| downloaded.contains_key(link.download_url@);
    let pair = |link: TableDownload| (link, downloaded[link.download_url@]);
    if links.len() > 0 {
        law_paired(links.drop_last(), downloaded);
    }
    assert(paired(links, downloaded) =~= links.filter(known).map_values(pair));
}

/// A link is completed exactly if its URL was downloaded.
pub proof fn law_paired_contains(
    links: Seq<TableDownload>,
    downloaded: Map<Seq<char>, DownloadItemInfo>,
    i: int,
)
    requires
        0 <= i < links.len(),
    ensures
        ({
            let url = links[i].download_url@;
            downloaded.contains_key(url) <==> paired(links, downloaded).contains(
                (links[i], downloaded[url]),
            )
        }),
{
    let known = |link: TableDownload| downloaded.contains_key(link.download_url@);
    let done = paired(links, downloaded);
    let url = links[i].download_url@;
    let kept = links.filter(known);
    law_paired(links, downloaded);
    if downloaded.contains_key(url) {
        links.lemma_filter_contains(known, i);
        let k = choose|k: int| 0 <= k < kept.len() && kept[k] == links[i];
        assert(done[k] == (links[i], downloaded[url]));
    }
    if done.contains((links[i], downloaded[url])) {
        let k = choose|k: int| 0 <= k < done.len() && done[k] == (links[i], downloaded[url]);
        links.lemma_filter_pred(known, k);
        assert(known(kept[k]));
    }
}

/// The links of the pages are those of each page, one page after another; a page that failed has none.
pub proof fn law_all_links(loaded: Seq<Option<Vec<String>>>)
    ensures
        all_links(loaded) == loaded.flat_map(
            |page: Option<Vec<String>>|
                match page {
                    Some(links) => views(links@),
                    None => Seq::empty(),
                },
        ),
    decreases loaded.len(),
{
    let links_of = |page: Option<Vec<String>>|
        match page {
            Some(links) => views(links@),
            None => Seq::empty(),
        };
    if loaded.len() > 0 {
        let front = loaded.drop_last();
        law_all_links(front);
        front.lemma_flat_map_push(links_of, loaded.last());
        assert(front.push(loaded.last()) =~= loaded);
        assert(all_links(loaded) =~= all_links(front) + links_of(loaded.last()));
    } else {
        assert(loaded.map_values(links_of) =~= Seq::empty());
        assert(all_links(loaded) =~= loaded.flat_map(links_of));
    }
}

/// The texts that are there are all that are not missing, in order.
pub proof fn law_present(texts: Seq<Option<Seq<char>>>)
    ensures
        present(texts) == texts.filter(|text: Option<Seq<char>>| text is Some).map_values(
            |text: Option<Seq<char>>| text->0,
        ),
    decreases texts.len(),
{
    reveal(Seq::filter);
    let there = |text: Option<Seq<char>>| text is Some;
    let inner = |text: Option<Seq<char>>| text->0;
    if texts.len() > 0 {
        law_present(texts.drop_last());
    }
    assert(present(texts) =~= texts.filter(there).map_values(inner));
}

/// A link leads to what it comes to on the page of the base, if that is a URL, and else to what it comes
/// to for itself, if that is one. A link that leads nowhere is left out.
pub proof fn law_resolved_one(base: Seq<char>, link: Seq<char>)
    ensures
        all_resolved(base, Seq::empty()) == Seq::<Seq<char>>::empty(),
        all_resolved(base, seq![link]) == (match (url_joined(base, link), url_parsed(link)) {
            (Some(url), _) => seq![url],
            (None, Some(url)) => seq![url],
            (None, None) => Seq::empty(),
        }),
{
    let lead = |link: Seq<char>| resolved(base, link);
    assert(Seq::<Seq<char>>::empty().map_values(lead) =~= Seq::empty());
    let one = seq![link].map_values(lead);
    assert(one.last() == resolved(base, link));
    assert(one.drop_last() =~= Seq::empty());
    assert(present(one.drop_last()) =~= Seq::empty());
}

/// Some links and others lead to where the ones lead, and then to where the others do: none is lost, and
/// the order is kept.
pub proof fn law_resolved_add(base: Seq<char>, a: Seq<Seq<char>>, b: Seq<Seq<char>>)
    ensures
        all_resolved(base, a + b) == all_resolved(base, a) + all_resolved(base, b),
    decreases b.len(),
{
    let lead = |link: Seq<char>| resolved(base, link);
    if b.len() == 0 {
        assert(a + b =~= a);
        assert(b.map_values(lead) =~= Seq::empty());
    } else {
        assert((a + b).map_values(lead).drop_last() =~= (a + b.drop_last()).map_values(lead));
        assert((a + b).map_values(lead).last() == resolved(base, b.last()));
        assert(b.map_values(lead).drop_last() =~= b.drop_last().map_values(lead));
        assert(b.map_values(lead).last() == resolved(base, b.last()));
        law_resolved_add(base, a, b.drop_last());
    }
    assert(all_resolved(base, a + b) =~= all_resolved(base, a) + all_resolved(base, b));
}

/// What follows each event: the client with the proxy exactly if the site wants it, the pages of the
/// site, those that were read and then those that were downloaded, the links of the pages as URLs, five
/// links at a time until none is reserved, all that were reserved, and all that were downloaded. Only a
/// base that is not a URL ends the work.
pub proof fn law_site_steps(site: TableSites, event: SiteEvent, step: SiteStep)
    requires
        site.follows(event, step),
    ensures
        match event {
            SiteEvent::Started => step == SiteStep::CreateClient(site.proxy == 1),
            SiteEvent::ClientCreated => {
                &&& step matches SiteStep::ReadPages(statement)
                &&& statement.sql@ == PAGES_OF_SITE@
                &&& statement.args@.len() == 1
                &&& statement.args@[0]@ == Bound::Int(site.id)
            },
            SiteEvent::PagesRead(pages) => step == SiteStep::DownloadPages(pages),
            SiteEvent::PagesDownloaded(pages) => match url_parsed(site.base_url@) {
                Some(_) => step == SiteStep::LoadLinks(pages),
                None => step == SiteStep::Failed(GrabError::InvalidBaseUrl),
            },
            SiteEvent::LinksLoaded(loaded) => match url_parsed(site.base_url@) {
                Some(_) => step matches SiteStep::AppendLinks(urls) && views(urls@) == all_resolved(
                    site.base_url@,
                    loaded@.flat_map(
                        |page: Option<Vec<String>>|
                            match page {
                                Some(links) => views(links@),
                                None => Seq::empty(),
                            },
                    ),
                ),
                None => step == SiteStep::Failed(GrabError::InvalidBaseUrl),
            },
            SiteEvent::LinksAppended | SiteEvent::LinksCompleted => step
                == SiteStep::ReserveLinks(5),
            SiteEvent::LinksReserved(links) => if links@.len() > 0 {
                step == SiteStep::DownloadLinks(links)
            } else {
                step == SiteStep::Done
            },
            SiteEvent::LinksDownloaded(links, downloaded) => {
                &&& step matches SiteStep::CompleteLinks(done)
                &&& done@ == links@.filter(
                    |link: TableDownload| downloaded@.contains_key(link.download_url@),
                ).map_values(|link: TableDownload| (link, downloaded@[link.download_url@]))
            },
        },
{
    match event {
        SiteEvent::ClientCreated => {
            if let SiteStep::ReadPages(statement) = step {
                assert(statement.bounds().len() == 1);
                assert(statement.bounds()[0] == statement.args@[0]@);
            }
        },
        SiteEvent::LinksLoaded(loaded) => {
            law_all_links(loaded@);
        },
        SiteEvent::LinksDownloaded(links, downloaded) => {
            law_paired(links@, downloaded@);
        },
        _ => {},
    }
}

/// The messages of the sites that failed are all of them, in order; there is none exactly if no site
/// failed.
pub proof fn law_failures(results: Seq<Result<(), String>>)
    ensures
        failures(results) == results.filter(|result: Result<(), String>| result is Err).map_values(
            |result: Result<(), String>| result->Err_0@,
        ),
        failures(results).len() == 0 <==> forall|i: int|
            0 <= i < results.len() ==> #[trigger] results[i] is Ok,
    decreases results.len(),
{
    reveal(Seq::filter);
    let failed = |result: Result<(), String>| result is Err;
    let message = |result: Result<(), String>| result->Err_0@;
    if results.len() > 0 {
        let front = results.drop_last();
        law_failures(front);
        if failures(results).len() == 0 {
            assert forall|i: int| 0 <= i < results.len() implies #[trigger] results[i] is Ok by {
                if i < front.len() {
                    assert(front[i] is Ok);
                }
            }
        }
        if forall|i: int| 0 <= i < results.len() ==> #[trigger] results[i] is Ok {
            assert forall|i: int| 0 <= i < front.len() implies #[trigger] front[i] is Ok by {
                assert(results[i] is Ok);
            }
            assert(results[results.len() - 1] is Ok);
        }
    }
    assert(failures(results) =~= results.filter(failed).map_values(message));
}

} // verus!
