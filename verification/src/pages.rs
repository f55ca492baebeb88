//! The pages of a site, and the links that the rules find in them.
use crate::downloader::simple_item::SimpleDownloaderLink;
use crate::downloader::{has_outlived, DownloadItem, DownloadItemExpired, CACHE_DURATION};
use crate::error::GrabError;
use crate::hashing::{cache_file, cache_path, text_writes};
use crate::numbers::{parse_i64, parse_integer};
use crate::rules::{all_applicable, process_group, spec_process_group, TablePageRule};
use crate::sites::{all_resolved, resolve_links};
use crate::statement::{Bound, Statement};
use crate::text::{chars_of, split, split_chars, texts, trim, trim_by, trimmed, views, Trimmed};
use crate::urls::url_parsed;
use vstd::prelude::*;

verus! {

/// The text of the statement that reads the pages of a site.
pub const PAGES_OF_SITE: &'static str = "SELECT url, path, rules FROM pages WHERE site_id = ?";

/// A row of the table `pages`.
#[derive(Debug, PartialEq, Eq)]
pub struct TablePage {
    /// The address of the page.
    pub url: String,
    /// Where the page is kept once it was downloaded.
    pub path: String,
    /// The groups of rules for the page, as a JSON array such as `[1, 5, 3]`. The groups are applied
    /// in this order; `[]` means that there are none.
    pub rules: String,
}

/// The rule groups that the parts of a list stand for: blank parts and zeros are left out.
pub open spec fn group_ids(parts: Seq<Seq<char>>) -> Result<Seq<i64>, GrabError>
    decreases parts.len(),
{
    if parts.len() == 0 {
        Ok(Seq::empty())
    } else {
        match group_ids(parts.drop_last()) {
            Err(err) => Err(err),
            Ok(ids) => if parts.last().len() == 0 {
                Ok(ids)
            } else {
                match parse_integer(parts.last()) {
                    None => Err(GrabError::InvalidRuleId),
                    Some(id) => if id == 0 {
                        Ok(ids)
                    } else {
                        Ok(ids.push(id))
                    },
                }
            },
        }
    }
}

/// The parts of a list between its brackets and commas.
pub open spec fn list_parts(list: Seq<char>) -> Seq<Seq<char>> {
    split(trim_by(trim(list), Trimmed::Brackets), ',').map_values(|part: Seq<char>| trim(part))
}

/// The rule groups that a list stands for.
pub open spec fn rules_group(list: Seq<char>) -> Result<Seq<i64>, GrabError> {
    group_ids(list_parts(list))
}

/// A part that is not a number makes the whole list invalid.
proof fn lemma_invalid_part(parts: Seq<Seq<char>>, i: int)
    requires
        0 <= i < parts.len(),
        group_ids(parts.take(i)) is Ok,
        parts[i].len() > 0,
        parse_integer(parts[i]) is None,
    ensures
        group_ids(parts) == Err::<Seq<i64>, _>(GrabError::InvalidRuleId),
    decreases parts.len(),
{
    if i == parts.len() - 1 {
        assert(parts.drop_last() =~= parts.take(i));
    } else {
        assert(parts.drop_last().take(i) =~= parts.take(i));
        lemma_invalid_part(parts.drop_last(), i);
    }
}

impl TablePage {
    /// The statement that reads the pages of a site.
    pub fn get_by_site_id(site_id: i64) -> (res: Statement)
        ensures
            res.says(PAGES_OF_SITE@, seq![Bound::Int(site_id)]),
    {
        Statement::new(PAGES_OF_SITE).bind_int(site_id)
    }

    /// Gives the page a place below `pages_dir` if it has none.
    pub fn init_path_if_empty(&mut self, pages_dir: &str)
        ensures
            final(self).url == old(self).url,
            final(self).rules == old(self).rules,
            old(self).path@.len() > 0 ==> final(self).path == old(self).path,
            old(self).path@.len() == 0 ==> final(self).path@ == cache_file(
                pages_dir@,
                text_writes(old(self).url@),
            ),
    {
        if !self.path.as_str().is_empty() {
            return;
        }
        self.path = cache_path(pages_dir, &self.url);
    }

    /// The groups of rules for the page, in the order in which they are applied.
    pub fn get_rules_group(&self) -> (res: Result<Vec<i64>, GrabError>)
        ensures
            match res {
                Ok(ids) => rules_group(self.rules@) == Ok::<_, GrabError>(ids@),
                Err(err) => rules_group(self.rules@) == Err::<Seq<i64>, _>(err),
            },
    {
        let chars = chars_of(self.rules.as_str());
        let list = trimmed(trimmed(chars.as_slice(), Trimmed::WhiteSpace), Trimmed::Brackets);
        let parts = split_chars(list, ',');
        let ghost all = list_parts(self.rules@);
        let mut ids: Vec<i64> = Vec::new();
        let mut i: usize = 0;
        assert(ids@ =~= Seq::empty());
        while i < parts.len()
            invariant
                i <= parts.len(),
                all == list_parts(self.rules@),
                all == texts(parts@).map_values(|part: Seq<char>| trim(part)),
                group_ids(all.take(i as int)) == Ok::<_, GrabError>(ids@),
            decreases parts.len() - i,
        {
            let part = trimmed(parts[i].as_slice(), Trimmed::WhiteSpace);
            assert(all[i as int] == part@);
            assert(all.take(i + 1).drop_last() =~= all.take(i as int));
            assert(all.take(i + 1).last() == part@);
            if part.len() > 0 {
                match parse_i64(part) {
                    Some(id) => if id != 0 {
                        ids.push(id);
                    },
                    None => {
                        proof {
                            lemma_invalid_part(all, i as int);
                        }
                        return Err(GrabError::InvalidRuleId);
                    },
                }
            }
            i += 1;
        }
        assert(all.take(all.len() as int) =~= all);
        Ok(ids)
    }

    /// Begins to look for links in the content of the page. A page without rules has none.
    pub fn load_links(&self, page_content: String) -> (res: Result<LinkLoad, GrabError>)
        ensures
            match res {
                Ok(load) => {
                    &&& rules_group(self.rules@) == Ok::<_, GrabError>(load.groups@)
                    &&& load.applied == 0
                    &&& load.fetched
                    &&& views(load.contents@) == (if load.groups@.len() == 0 {
                        Seq::empty()
                    } else {
                        seq![page_content@]
                    })
                },
                Err(err) => rules_group(self.rules@) == Err::<Seq<i64>, _>(err),
            },
    {
        let groups = self.get_rules_group()?;
        let mut contents: Vec<String> = Vec::new();
        if groups.len() > 0 {
            contents.push(page_content);
        }
        assert(views(contents@) =~= (if groups@.len() == 0 {
            Seq::empty()
        } else {
            seq![page_content@]
        }));
        Ok(LinkLoad { groups, applied: 0, contents, fetched: true })
    }
}

impl DownloadItem for TablePage {
    open spec fn url_view(&self) -> Seq<char> {
        self.url@
    }

    open spec fn path_view(&self) -> Seq<char> {
        self.path@
    }

    fn url_as_str(&self) -> (res: &str) {
        self.url.as_str()
    }

    fn path(&self) -> (res: &str) {
        self.path.as_str()
    }
}

impl DownloadItemExpired for TablePage {
    open spec fn lifetime(&self) -> int {
        CACHE_DURATION as int
    }

    fn is_expired(&self, age: Option<u128>) -> (res: bool) {
        has_outlived(age, CACHE_DURATION)
    }
}

/// Gives each of the pages that has none a place below `pages_dir`.
pub fn init_paths(pages: &mut Vec<TablePage>, pages_dir: &str)
    ensures
        final(pages)@.len() == old(pages)@.len(),
        forall|i: int|
            0 <= i < old(pages)@.len() ==> {
                let page = #[trigger] final(pages)@[i];
                let row = old(pages)@[i];
                &&& page.url == row.url
                &&& page.rules == row.rules
                &&& row.path@.len() > 0 ==> page.path == row.path
                &&& row.path@.len() == 0 ==> page.path@ == cache_file(
                    pages_dir@,
                    text_writes(row.url@),
                )
            },
{
    let ghost rows = pages@;
    let mut i: usize = 0;
    while i < pages.len()
        invariant
            i <= pages.len(),
            pages@.len() == rows.len(),
            forall|k: int| i <= k < rows.len() ==> pages@[k] == rows[k],
            forall|k: int|
                0 <= k < i ==> {
                    let page = #[trigger] pages@[k];
                    let row = rows[k];
                    &&& page.url == row.url
                    &&& page.rules == row.rules
                    &&& row.path@.len() > 0 ==> page.path == row.path
                    &&& row.path@.len() == 0 ==> page.path@ == cache_file(
                        pages_dir@,
                        text_writes(row.url@),
                    )
                },
        decreases pages.len() - i,
    {
        pages[i].init_path_if_empty(pages_dir);
        i += 1;
    }
}

/// The search for links in a page: the groups of rules are applied one after another, the first to the
/// page and each of the others to what the links that the one before it left lead to.
#[derive(Debug, PartialEq, Eq)]
pub struct LinkLoad {
    /// The groups of rules.
    pub groups: Vec<i64>,
    /// How many of them were applied.
    pub applied: usize,
    /// What the next group is applied to, or the links that the last one left.
    pub contents: Vec<String>,
    /// Whether the contents were fetched: if not, they are links.
    pub fetched: bool,
}

/// What is done next to find the links of a page.
#[derive(Debug, PartialEq, Eq)]
pub enum LoadStep {
    /// Apply the rules of this group.
    ApplyGroup(i64),
    /// Fetch what the links lead to.
    FollowLinks,
    /// Nothing is left to do: the links are those of the page.
    Done,
}

impl LinkLoad {
    /// What is done next.
    pub open spec fn spec_next_step(&self) -> LoadStep {
        if self.applied >= self.groups@.len() {
            LoadStep::Done
        } else if self.fetched {
            LoadStep::ApplyGroup(self.groups@[self.applied as int])
        } else {
            LoadStep::FollowLinks
        }
    }

    /// Whether `rules` can be applied as those of the next group.
    pub open spec fn can_apply(&self, rules: Seq<TablePageRule>) -> bool {
        &&& self.spec_next_step() is ApplyGroup
        &&& self.contents@.len() > 0 ==> all_applicable(rules)
    }

    /// Whether `res` is the outcome of applying `rules` as those of the next group.
    pub open spec fn applied_as(
        &self,
        rules: Seq<TablePageRule>,
        res: Result<LinkLoad, GrabError>,
    ) -> bool {
        match spec_process_group(rules, views(self.contents@)) {
            Ok(lines) => {
                &&& res matches Ok(load)
                &&& load.groups == self.groups
                &&& load.applied == self.applied + 1
                &&& views(load.contents@) == lines
                &&& !load.fetched
            },
            Err(err) => res == Err::<LinkLoad, _>(err),
        }
    }

    /// What is done next.
    pub fn next_step(&self) -> (res: LoadStep)
        ensures
            res == self.spec_next_step(),
    {
        if self.applied >= self.groups.len() {
            LoadStep::Done
        } else if self.fetched {
            LoadStep::ApplyGroup(self.groups[self.applied])
        } else {
            LoadStep::FollowLinks
        }
    }

    /// Applies the rules of the next group.
    pub fn apply(self, rules: &[TablePageRule]) -> (res: Result<LinkLoad, GrabError>)
        requires
            self.can_apply(rules@),
        ensures
            self.applied_as(rules@, res),
    {
        let LinkLoad { groups, applied, contents, fetched: _ } = self;
        let count: usize = groups.len();
        assert(applied < count);
        match process_group(rules, contents) {
            Ok(lines) => Ok(
                LinkLoad { groups, applied: applied + 1, contents: lines, fetched: false },
            ),
            Err(err) => Err(err),
        }
    }

    /// Applies the rules of the next group if that can be done.
    pub fn try_apply(self, rules: &[TablePageRule]) -> (res: Option<Result<LinkLoad, GrabError>>)
        ensures
            res is Some <==> self.can_apply(rules@),
            match res {
                Some(outcome) => self.applied_as(rules@, outcome),
                None => true,
            },
    {
        if self.applied >= self.groups.len() || !self.fetched {
            return None;
        }
        if self.contents.len() > 0 && !are_applicable(rules) {
            return None;
        }
        Some(self.apply(rules))
    }

    /// What the links lead to, each to be kept below `dir`, for a page of the site at `base`.
    pub fn links_to_follow(&self, base: &str, dir: &str) -> (res: Result<
        Vec<SimpleDownloaderLink>,
        GrabError,
    >)
        ensures
            match res {
                Ok(items) => {
                    let urls = all_resolved(base@, views(self.contents@));
                    &&& url_parsed(base@) is Some
                    &&& items@.len() == urls.len()
                    &&& forall|i: int|
                        0 <= i < urls.len() ==> {
                            &&& (#[trigger] items@[i]).url@ == urls[i]
                            &&& items@[i].path@ == cache_file(dir@, text_writes(urls[i]))
                        }
                },
                Err(err) => url_parsed(base@) is None && err == GrabError::InvalidBaseUrl,
            },
    {
        match resolve_links(base, self.contents.as_slice()) {
            Ok(urls) => {
                assert(forall|i: int| 0 <= i < urls@.len() ==> views(urls@)[i] == urls@[i]@);
                Ok(SimpleDownloaderLink::from_list_urls(urls.as_slice(), dir))
            },
            Err(err) => Err(err),
        }
    }

    /// Takes what the links lead to, in the place of the links.
    pub fn follow(self, contents: Vec<String>) -> (res: LinkLoad)
        requires
            self.spec_next_step() is FollowLinks,
        ensures
            res.groups == self.groups,
            res.applied == self.applied,
            res.contents == contents,
            res.fetched,
            res.spec_next_step() == LoadStep::ApplyGroup(self.groups@[self.applied as int]),
    {
        LinkLoad { groups: self.groups, applied: self.applied, contents, fetched: true }
    }
}

/// Whether the rules can be applied one after another.
pub fn are_applicable(rules: &[TablePageRule]) -> (res: bool)
    ensures
        res == all_applicable(rules@),
{
    let mut i: usize = 0;
    assert(rules@.skip(0) =~= rules@);
    while i < rules.len()
        invariant
            i <= rules.len(),
            all_applicable(rules@) == all_applicable(rules@.skip(i as int)),
        decreases rules.len() - i,
    {
        assert(rules@.skip(i as int).drop_first() =~= rules@.skip(i + 1));
        assert(rules@.skip(i as int).first() == rules@[i as int]);
        if !rules[i].is_applicable() {
            return false;
        }
        if !rules[i].compiles() {
            return true;
        }
        i += 1;
    }
    true
}

} // verus!
