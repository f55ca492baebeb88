//! The queue of files to download.
use crate::download_laws::law_reserved_links;
use crate::downloader::save_as_file::DownloadItemInfo;
use crate::downloader::DownloadItem;
use crate::hashing::{cache_file, cache_path, text_writes};
use crate::numbers::{digits, digits_of};
use crate::paths::{
    extension, extension_of, file_name, file_prefix, file_prefix_of, lemma_extension_no_slash, renamed,
    with_extension, with_file_name, with_new_extension,
};
use crate::statement::{Bound, Statement};
use crate::text::{opt_view, text_of};
use crate::urls::{url_bare, url_parsed, without_query};
use vstd::prelude::*;

verus! {

/// How often a file may be reserved for download.
pub const MAX_ATTEMPTS: i64 = 5;

/// How long, in seconds, a reservation lasts: three hours.
pub const RESERVATION_SECONDS: i64 = 10_800;

/// The text of the statement that looks for a link.
pub const LINK_EXISTS: &'static str =
    "SELECT 1 FROM downloads WHERE download_url LIKE $1 AND attempts < $2 LIMIT 1";

/// The text of the statement that adds a link.
pub const INSERT_LINK: &'static str =
    "INSERT INTO downloads (site_id, download_url) VALUES ($1, $2) ON CONFLICT DO NOTHING";

/// The text of the statement that reserves a link that was reserved before.
pub const RESERVE_AGAIN: &'static str =
    "UPDATE downloads SET attempts = $2, last_attempt_at = $3 WHERE download_url = $4 AND site_id = $5 AND completed = 0 AND attempts = $6 AND last_attempt_at = $1";

/// The text of the statement that reserves a link for the first time.
pub const RESERVE_FIRST: &'static str =
    "UPDATE downloads SET attempts = $1, last_attempt_at = $2 WHERE download_url = $3 AND site_id = $4 AND completed = 0 AND attempts = $5 AND last_attempt_at IS NULL";

/// The text of the statement that reads the links that are due.
pub const NOT_COMPLETED: &'static str =
    "SELECT site_id, download_url, local_path, attempts, last_attempt_at FROM downloads WHERE site_id = $1 AND completed = 0 AND (last_attempt_at IS NULL OR last_attempt_at < $2) AND attempts < $3 AND enable = 1 LIMIT $4";

/// The text of the statement that marks a link as downloaded.
pub const SET_COMPLETE: &'static str =
    "UPDATE downloads SET local_path = $1, completed = 1 WHERE download_url = $2";

/// What a row of the table `downloads` says.
pub struct DownloadRow {
    /// The site that the link was found on.
    pub site_id: i64,
    /// The link; no two rows have the same.
    pub download_url: Seq<char>,
    /// Where the file is kept.
    pub local_path: Seq<char>,
    /// How often the link was reserved.
    pub attempts: i64,
    /// When, in seconds since 1970, it was reserved last.
    pub last_attempt_at: Option<i64>,
    /// Whether the file was downloaded.
    pub completed: bool,
    /// Whether the file is wanted.
    pub enable: bool,
}

/// What a link in the queue says.
pub struct LinkView {
    /// The site that the link was found on.
    pub site_id: i64,
    /// The link.
    pub download_url: Seq<char>,
    /// Where the file is kept.
    pub local_path: Seq<char>,
    /// How often the link was reserved.
    pub attempts: i64,
    /// When it was reserved last.
    pub last_attempt_at: Option<i64>,
}

/// A link in the queue.
#[derive(Debug, PartialEq, Eq)]
pub struct TableDownload {
    /// The site that the link was found on.
    pub site_id: i64,
    /// The link; no two rows of the queue have the same.
    pub download_url: String,
    /// Where the file is kept.
    pub local_path: String,
    /// How often the link was reserved.
    pub attempts: i64,
    /// When, in seconds since 1970, it was reserved last; `None` if it never was.
    pub last_attempt_at: Option<i64>,
}

impl View for TableDownload {
    type V = LinkView;

    open spec fn view(&self) -> LinkView {
        LinkView {
            site_id: self.site_id,
            download_url: self.download_url@,
            local_path: self.local_path@,
            attempts: self.attempts,
            last_attempt_at: self.last_attempt_at,
        }
    }
}

impl LinkView {
    /// The link with a place for its file below `dir`.
    pub open spec fn with_tmp_path(self, dir: Seq<char>) -> LinkView {
        LinkView { local_path: cache_file(dir, text_writes(self.download_url)), ..self }
    }
}

/// The attempt to reserve a link: it succeeds only if the row is still as it was read.
#[derive(Debug, PartialEq, Eq)]
pub struct Reservation {
    /// The site of the row.
    pub site_id: i64,
    /// The link of the row.
    pub download_url: String,
    /// How often the row was reserved when it was read.
    pub attempts: i64,
    /// When the row was reserved last when it was read.
    pub last_attempt_at: Option<i64>,
    /// When the row is reserved.
    pub now: i64,
}

impl Reservation {
    /// Whether the reservation is the one of `link` at the time `now`.
    pub open spec fn is_of(&self, link: LinkView, now: i64) -> bool {
        &&& self.site_id == link.site_id
        &&& self.download_url@ == link.download_url
        &&& self.attempts == link.attempts
        &&& self.last_attempt_at == link.last_attempt_at
        &&& self.now == now
    }

    /// Whether the statement for the reservation changes `row`.
    pub open spec fn takes(&self, row: DownloadRow) -> bool {
        &&& row.download_url == self.download_url@
        &&& row.site_id == self.site_id
        &&& !row.completed
        &&& row.attempts == self.attempts
        &&& row.last_attempt_at == self.last_attempt_at
    }

    /// What the statement for the reservation makes of a row that it changes.
    pub open spec fn taken(&self, row: DownloadRow) -> DownloadRow {
        DownloadRow {
            attempts: (self.attempts + 1) as i64,
            last_attempt_at: Some(self.now),
            ..row
        }
    }

    /// The statement for the reservation.
    pub fn statement(&self) -> (res: Statement)
        requires
            self.attempts < i64::MAX,
        ensures
            match self.last_attempt_at {
                Some(time) => res.says(
                    RESERVE_AGAIN@,
                    seq![
                        Bound::Int(time),
                        Bound::Int((self.attempts + 1) as i64),
                        Bound::Int(self.now),
                        Bound::Text(self.download_url@),
                        Bound::Int(self.site_id),
                        Bound::Int(self.attempts),
                    ],
                ),
                None => res.says(
                    RESERVE_FIRST@,
                    seq![
                        Bound::Int((self.attempts + 1) as i64),
                        Bound::Int(self.now),
                        Bound::Text(self.download_url@),
                        Bound::Int(self.site_id),
                        Bound::Int(self.attempts),
                    ],
                ),
            },
    {
        let statement = match self.last_attempt_at {
            Some(time) => Statement::new(RESERVE_AGAIN).bind_int(time),
            None => Statement::new(RESERVE_FIRST),
        };
        let set = statement.bind_int(self.attempts + 1).bind_int(self.now);
        set.bind_text(self.download_url.as_str()).bind_int(self.site_id).bind_int(self.attempts)
    }
}

/// The search for links that are due.
#[derive(Debug, PartialEq, Eq)]
pub struct DueLinks {
    /// The site that the links were found on.
    pub site_id: i64,
    /// Reservations made before this time no longer hold.
    pub time_limit: i64,
    /// How many links are wanted at most.
    pub limit: i64,
}

impl DueLinks {
    /// Whether the search finds `row`: one of the site that is wanted, was not downloaded, was not
    /// reserved too often, and is not reserved now.
    pub open spec fn finds(&self, row: DownloadRow) -> bool {
        &&& row.site_id == self.site_id
        &&& !row.completed
        &&& match row.last_attempt_at {
            Some(time) => time < self.time_limit,
            None => true,
        }
        &&& row.attempts < MAX_ATTEMPTS
        &&& row.enable
    }

    /// The statement for the search.
    pub fn statement(&self) -> (res: Statement)
        ensures
            res.says(
                NOT_COMPLETED@,
                seq![
                    Bound::Int(self.site_id),
                    Bound::Int(self.time_limit),
                    Bound::Int(MAX_ATTEMPTS),
                    Bound::Int(self.limit),
                ],
            ),
    {
        Statement::new(NOT_COMPLETED).bind_int(self.site_id).bind_int(self.time_limit).bind_int(
            MAX_ATTEMPTS,
        ).bind_int(self.limit)
    }
}

/// `c`, if it is a capital letter of ASCII, as the small letter.
pub open spec fn small(c: char) -> char {
    if 'A' <= c <= 'Z' {
        (c as u32 + 32) as char
    } else {
        c
    }
}

/// Whether the database takes `text` to be like `pattern`: `%` in the pattern stands for any text, `_`
/// for any character, and other characters for themselves, the letters of ASCII in either case.
pub open spec fn is_like(text: Seq<char>, pattern: Seq<char>) -> bool
    decreases pattern.len(), text.len(),
{
    if pattern.len() == 0 {
        text.len() == 0
    } else if pattern.first() == '%' {
        is_like(text, pattern.drop_first()) || (text.len() > 0 && is_like(
            text.drop_first(),
            pattern,
        ))
    } else {
        &&& text.len() > 0
        &&& pattern.first() == '_' || small(pattern.first()) == small(text.first())
        &&& is_like(text.drop_first(), pattern.drop_first())
    }
}

/// Whether the search for links like `pattern` finds `row`: one that may still be tried.
pub open spec fn finds_like(pattern: Seq<char>, row: DownloadRow) -> bool {
    is_like(row.download_url, pattern) && row.attempts < MAX_ATTEMPTS
}

/// The pattern for `link`, whatever its query.
pub open spec fn link_pattern(link: Seq<char>) -> Seq<char> {
    url_bare(link).unwrap().push('%')
}

/// The search for a link that is queued.
#[derive(Debug, PartialEq, Eq)]
pub struct LinkSearch {
    /// What the link has to be like.
    pub pattern: String,
}

impl LinkSearch {
    /// Whether the search finds `row`.
    pub open spec fn finds(&self, row: DownloadRow) -> bool {
        finds_like(self.pattern@, row)
    }

    /// The statement for the search.
    pub fn statement(&self) -> (res: Statement)
        ensures
            res.says(LINK_EXISTS@, seq![Bound::Text(self.pattern@), Bound::Int(MAX_ATTEMPTS)]),
    {
        Statement::new(LINK_EXISTS).bind_text(self.pattern.as_str()).bind_int(MAX_ATTEMPTS)
    }
}

/// Whether one of the rows has the link `url`.
pub open spec fn has_url(rows: Seq<DownloadRow>, url: Seq<char>) -> bool {
    exists|i: int| 0 <= i < rows.len() && (#[trigger] rows[i]).download_url == url
}

/// The rows after `row` was added to them, unless one has its link.
pub open spec fn with_row(rows: Seq<DownloadRow>, row: DownloadRow) -> Seq<DownloadRow> {
    if has_url(rows, row.download_url) {
        rows
    } else {
        rows.push(row)
    }
}

/// A link that is added to the queue.
#[derive(Debug, PartialEq, Eq)]
pub struct NewLink {
    /// The site that the link was found on.
    pub site_id: i64,
    /// The link.
    pub download_url: String,
}

impl NewLink {
    /// The statement that adds the link.
    pub fn statement(&self) -> (res: Statement)
        ensures
            res.says(
                INSERT_LINK@,
                seq![Bound::Int(self.site_id), Bound::Text(self.download_url@)],
            ),
    {
        Statement::new(INSERT_LINK).bind_int(self.site_id).bind_text(self.download_url.as_str())
    }
}

/// The note that a link was downloaded.
#[derive(Debug, PartialEq, Eq)]
pub struct Completion {
    /// Where the file is kept.
    pub local_path: String,
    /// The link.
    pub download_url: String,
}

impl Completion {
    /// Whether the statement for the note changes `row`.
    pub open spec fn marks(&self, row: DownloadRow) -> bool {
        row.download_url == self.download_url@
    }

    /// What the statement for the note makes of `row`.
    pub open spec fn marked(&self, row: DownloadRow) -> DownloadRow {
        if self.marks(row) {
            DownloadRow { local_path: self.local_path@, completed: true, ..row }
        } else {
            row
        }
    }

    /// The statement for the note.
    pub fn statement(&self) -> (res: Statement)
        ensures
            res.says(
                SET_COMPLETE@,
                seq![Bound::Text(self.local_path@), Bound::Text(self.download_url@)],
            ),
    {
        Statement::new(SET_COMPLETE).bind_text(self.local_path.as_str()).bind_text(
            self.download_url.as_str(),
        )
    }
}

/// The links whose reservation changed a row, in order, each with a place for its file below `dir`.
pub open spec fn reserved_links(links: Seq<(u64, TableDownload)>, dir: Seq<char>) -> Seq<LinkView>
    decreases links.len(),
{
    if links.len() == 0 {
        Seq::empty()
    } else {
        let before = reserved_links(links.drop_last(), dir);
        if links.last().0 > 0 {
            before.push(links.last().1@.with_tmp_path(dir))
        } else {
            before
        }
    }
}

/// What each of the links says.
pub open spec fn link_views(links: Seq<TableDownload>) -> Seq<LinkView> {
    links.map_values(|link: TableDownload| link@)
}

impl TableDownload {
    /// The link to add to the queue, unless it is there.
    pub fn append(site_id: i64, link: &str, exists: bool) -> (res: Option<NewLink>)
        ensures
            match res {
                Some(new_link) => {
                    &&& !exists
                    &&& new_link.site_id == site_id
                    &&& new_link.download_url@ == link@
                },
                None => exists,
            },
    {
        if exists {
            return None;
        }
        Some(NewLink { site_id, download_url: link.to_owned() })
    }

    /// The search that tells whether the queue holds `link`, whatever its query, and may still try it.
    /// There is none for a text that is not a URL.
    pub fn link_exists(link: &str) -> (res: Option<LinkSearch>)
        ensures
            res is Some <==> url_parsed(link@) is Some,
            res is Some <==> url_bare(link@) is Some,
            res matches Some(search) ==> search.pattern@ == link_pattern(link@),
            res matches Some(search) ==> search.pattern@ == url_bare(link@).unwrap().push('%'),
    {
        match without_query(link) {
            Some(bare) => Some(TableDownload::prefix_exists(bare)),
            None => None,
        }
    }

    /// The search that tells whether the queue holds a link that begins with `prefix` and may still be
    /// tried.
    pub fn prefix_exists(prefix: String) -> (res: LinkSearch)
        ensures
            res.pattern@ == prefix@.push('%'),
    {
        let mut pattern = prefix;
        pattern.push('%');
        LinkSearch { pattern }
    }

    /// The attempt to reserve the link at the time `now`, in seconds since 1970.
    pub fn reserved(&self, now: u64) -> (res: Reservation)
        ensures
            res.is_of(self@, now as i64),
            res.site_id == self.site_id,
            res.download_url@ == self.download_url@,
            res.attempts == self.attempts,
            res.last_attempt_at == self.last_attempt_at,
            res.now == now as i64,
    {
        Reservation {
            site_id: self.site_id,
            download_url: self.download_url.clone(),
            attempts: self.attempts,
            last_attempt_at: self.last_attempt_at,
            now: #[verifier::truncate] (now as i64),
        }
    }

    /// The search for the links of a site that are due at the time `now`, in seconds since 1970.
    pub fn get_not_completed(site_id: i64, now: u64, limit: i64) -> (res: DueLinks)
        requires
            i64::MIN + RESERVATION_SECONDS <= (now as i64),
        ensures
            res.site_id == site_id,
            res.time_limit == (now as i64) - RESERVATION_SECONDS,
            res.limit == limit,
    {
        let now: i64 = #[verifier::truncate] (now as i64);
        DueLinks { site_id, time_limit: now - RESERVATION_SECONDS, limit }
    }

    /// Of the links that were found, each with the number of rows that its reservation changed,
    /// those that are reserved, each with a place for its file below `dir`.
    pub fn take_reserved(links: Vec<(u64, TableDownload)>, dir: &str) -> (res: Vec<TableDownload>)
        ensures
            link_views(res@) == reserved_links(links@, dir@),
            res@.map_values(|link: TableDownload| link@) == links@.filter(
                |link: (u64, TableDownload)| link.0 > 0,
            ).map_values(
                |link: (u64, TableDownload)|
                    LinkView {
                        local_path: cache_file(dir@, text_writes(link.1.download_url@)),
                        ..link.1@
                    },
            ),
    {
        proof {
            law_reserved_links(links@, dir@);
        }
        let ghost all = links@;
        let mut res: Vec<TableDownload> = Vec::new();
        assert(link_views(res@) =~= reserved_links(all.take(0), dir@));
        for pair in it: links
            invariant
                it.seq() == all,
                link_views(res@) == reserved_links(all.take(it.index() as int), dir@),
        {
            assert(all.take(it.index() + 1).drop_last() =~= all.take(it.index() as int));
            let ghost before = res@;
            let (affected_rows, link) = pair;
            if affected_rows > 0 {
                let mut link = link;
                link.set_tmp_path(dir);
                res.push(link);
                assert(link_views(res@) =~= link_views(before).push(link@));
            }
        }
        assert(all.take(all.len() as int) =~= all);
        res
    }

    /// Gives the link a place for its file below `dir`.
    pub fn set_tmp_path(&mut self, dir: &str)
        ensures
            final(self)@ == old(self)@.with_tmp_path(dir@),
            final(self).local_path@ == cache_file(dir@, text_writes(old(self).download_url@)),
            final(self).site_id == old(self).site_id,
            final(self).download_url == old(self).download_url,
            final(self).attempts == old(self).attempts,
            final(self).last_attempt_at == old(self).last_attempt_at,
    {
        self.local_path = cache_path(dir, &self.download_url);
    }

    /// Where the file of the link should go, now that `info` is known of it; nowhere, if no name
    /// follows from that.
    pub fn target(&self, info: &DownloadItemInfo) -> (res: Option<PathProbe>)
        requires
            info.nameable(),
        ensures
            match (res, info.spec_file_name()) {
                (Some(probe), Some(name)) => {
                    &&& probe.origin@ == with_file_name(self.local_path@, name)
                    &&& probe.path@ == probe.origin@
                    &&& probe.counter == 0
                    &&& probe.wf()
                },
                (None, None) => true,
                _ => false,
            },
    {
        match info.file_name() {
            Some(name) => Some(PathProbe::new(renamed(self.local_path.as_str(), name.as_str()))),
            None => None,
        }
    }

    /// The note that the link was downloaded, with its file at `new_path` if it was moved.
    pub fn set_complete(&mut self, new_path: Option<String>) -> (res: Completion)
        ensures
            final(self)@ == (LinkView {
                local_path: (match opt_view(new_path) {
                    Some(path) => path,
                    None => old(self).local_path@,
                }),
                ..old(self)@
            }),
            res.local_path@ == final(self).local_path@,
            res.download_url@ == old(self).download_url@,
    {
        if let Some(path) = new_path {
            self.local_path = path;
        }
        Completion {
            local_path: self.local_path.clone(),
            download_url: self.download_url.clone(),
        }
    }
}

impl DownloadItem for TableDownload {
    open spec fn url_view(&self) -> Seq<char> {
        self.download_url@
    }

    open spec fn path_view(&self) -> Seq<char> {
        self.local_path@
    }

    fn url_as_str(&self) -> (res: &str) {
        self.download_url.as_str()
    }

    fn path(&self) -> (res: &str) {
        self.local_path.as_str()
    }
}

/// The search for a path that is not in use.
#[derive(Debug, PartialEq, Eq)]
pub struct PathProbe {
    /// The path that is wanted.
    pub origin: String,
    /// The path that is tried next.
    pub path: String,
    /// How many paths were in use.
    pub counter: i32,
}

/// What comes of trying a path.
#[derive(Debug, PartialEq, Eq)]
pub enum PathChoice {
    /// The path is not in use.
    Free(String),
    /// Another path has to be tried.
    Probe(PathProbe),
}

/// The extension of the path, or nothing.
pub open spec fn extension_or_empty(path: Seq<char>) -> Seq<char> {
    match extension(path) {
        Some(ext) => ext,
        None => Seq::empty(),
    }
}

/// `path` with the file name of `origin`, numbered `n`, in the place of its own.
pub open spec fn numbered(path: Seq<char>, origin: Seq<char>, n: nat) -> Seq<char> {
    with_extension(
        with_file_name(path, file_prefix(origin).unwrap() + "_"@ + digits(n, 10)),
        extension_or_empty(origin),
    )
}

/// The path that is tried after `k` others were in use.
pub open spec fn candidate(origin: Seq<char>, k: nat) -> Seq<char>
    decreases k,
{
    if k == 0 {
        origin
    } else {
        numbered(candidate(origin, (k - 1) as nat), origin, k)
    }
}

impl PathProbe {
    /// As many paths were tried, one after another, as were counted.
    pub open spec fn wf(&self) -> bool {
        self.counter >= 0 && self.path@ == candidate(self.origin@, self.counter as nat)
    }

    /// Begins with the path that is wanted.
    pub fn new(path: String) -> (res: PathProbe)
        ensures
            res.origin@ == path@,
            res.path@ == path@,
            res.counter == 0,
            res.wf(),
    {
        PathProbe { origin: path.clone(), path, counter: 0 }
    }
}

/// Settles on the path that was tried last, or, if it exists, numbers the file name of the path that
/// is wanted.
pub fn new_path_gen(probe: PathProbe, exists: bool) -> (res: PathChoice)
    requires
        exists ==> file_name(probe.origin@) is Some,
        exists ==> 0 <= probe.counter < i32::MAX,
    ensures
        match res {
            PathChoice::Free(path) => !exists && path == probe.path,
            PathChoice::Probe(next) => {
                &&& exists
                &&& next.origin == probe.origin
                &&& next.counter == probe.counter + 1
                &&& next.path@ == numbered(probe.path@, probe.origin@, next.counter as nat)
                &&& probe.wf() ==> next.wf()
                &&& probe.path@ == candidate(probe.origin@, probe.counter as nat) ==> next.path@
                    == candidate(probe.origin@, (probe.counter + 1) as nat)
            },
        },
{
    if !exists {
        return PathChoice::Free(probe.path);
    }
    let mut name = match file_prefix_of(probe.origin.as_str()) {
        Some(name) => name,
        None => String::new(),
    };
    let ext = match extension_of(probe.origin.as_str()) {
        Some(ext) => ext,
        None => String::new(),
    };
    let counter: i32 = probe.counter + 1;
    let number = text_of(digits_of(counter as u64, 10).as_slice());
    name.append("_");
    name.append(number.as_str());
    let path = renamed(probe.path.as_str(), name.as_str());
    proof {
        lemma_extension_no_slash(probe.origin@);
        assert(ext@ =~= extension_or_empty(probe.origin@));
    }
    let path = with_new_extension(path.as_str(), ext.as_str());
    PathChoice::Probe(PathProbe { origin: probe.origin, path, counter })
}

} // verus!
