//! Downloads that are tried again until they succeed.
use crate::downloader::save_as_file::DownloadItemInfo;
use crate::downloader::DownloadItem;
use crate::text::{same_text, views};
use vstd::prelude::*;

verus! {

/// How many attempts may bring something in.
pub const MAX_ATTEMPTS: usize = 5;

/// What was downloaded: for each URL, what the server said of the file.
#[derive(Debug, PartialEq, Eq)]
pub struct Downloaded {
    entries: Vec<(String, DownloadItemInfo)>,
}

impl View for Downloaded {
    type V = Map<Seq<char>, DownloadItemInfo>;

    closed spec fn view(&self) -> Map<Seq<char>, DownloadItemInfo> {
        Map::new(
            |url: Seq<char>| has_entry(self.entries@, url),
            |url: Seq<char>| self.entries@[entry_place(self.entries@, url)].1,
        )
    }
}

/// Whether the entry at `i` is for `url`.
spec fn is_entry(entries: Seq<(String, DownloadItemInfo)>, url: Seq<char>, i: int) -> bool {
    0 <= i < entries.len() && entries[i].0@ == url
}

/// Whether there is an entry for `url`.
spec fn has_entry(entries: Seq<(String, DownloadItemInfo)>, url: Seq<char>) -> bool {
    exists|i: int| is_entry(entries, url, i)
}

/// Where the entry for `url` stands.
spec fn entry_place(entries: Seq<(String, DownloadItemInfo)>, url: Seq<char>) -> int {
    choose|i: int| is_entry(entries, url, i)
}

impl Downloaded {
    /// No URL has two entries.
    #[verifier::type_invariant]
    spec fn wf(&self) -> bool {
        forall|i: int, j: int|
            0 <= i < j < self.entries@.len() ==> #[trigger] self.entries@[i].0@
                != #[trigger] self.entries@[j].0@
    }

    /// Nothing.
    pub fn new() -> (res: Downloaded)
        ensures
            res@ == Map::<Seq<char>, DownloadItemInfo>::empty(),
    {
        let res = Downloaded { entries: Vec::new() };
        assert(res@ =~= Map::<Seq<char>, DownloadItemInfo>::empty());
        res
    }

    /// Where the entry for `url` stands.
    fn find(&self, url: &str) -> (res: Option<usize>)
        ensures
            match res {
                Some(i) => is_entry(self.entries@, url@, i as int) && i == entry_place(
                    self.entries@,
                    url@,
                ),
                None => !has_entry(self.entries@, url@),
            },
    {
        proof {
            use_type_invariant(self);
        }
        let mut i: usize = 0;
        while i < self.entries.len()
            invariant
                i <= self.entries.len(),
                self.wf(),
                forall|k: int| 0 <= k < i ==> !is_entry(self.entries@, url@, k),
            decreases self.entries.len() - i,
        {
            if same_text(self.entries[i].0.as_str(), url) {
                assert(is_entry(self.entries@, url@, i as int));
                let ghost j = entry_place(self.entries@, url@);
                assert(is_entry(self.entries@, url@, j));
                assert(self.entries@[j].0@ == self.entries@[i as int].0@);
                return Some(i);
            }
            i += 1;
        }
        None
    }

    /// What is known of `url`.
    pub fn get(&self, url: &str) -> (res: Option<&DownloadItemInfo>)
        ensures
            match res {
                Some(info) => self@.contains_key(url@) && *info == self@[url@],
                None => !self@.contains_key(url@),
            },
    {
        match self.find(url) {
            Some(i) => Some(&self.entries[i].1),
            None => None,
        }
    }

    /// Whether `url` was downloaded.
    pub fn contains_key(&self, url: &str) -> (res: bool)
        ensures
            res == self@.contains_key(url@),
    {
        self.find(url).is_some()
    }

    /// Notes what is known of `url`, in the place of what was known before.
    pub fn insert(&mut self, url: String, info: DownloadItemInfo)
        ensures
            final(self)@ == old(self)@.insert(url@, info),
    {
        proof {
            use_type_invariant(&*self);
        }
        let ghost before = self.entries@;
        let ghost map = self@;
        let ghost key = url@;
        let place = self.find(url.as_str());
        let mut entries: Vec<(String, DownloadItemInfo)> = Vec::new();
        std::mem::swap(&mut entries, &mut self.entries);
        match place {
            Some(i) => {
                entries.set(i, (url, info));
                self.entries = entries;
                proof {
                    let after = self.entries@;
                    assert forall|u: Seq<char>, k: int| #[trigger]
                        is_entry(after, u, k) == is_entry(before, u, k) by {}
                    assert forall|u: Seq<char>| #[trigger]
                        has_entry(after, u) == has_entry(before, u) by {
                        if has_entry(after, u) {
                            let k = choose|k: int| is_entry(after, u, k);
                            assert(is_entry(before, u, k));
                        }
                        if has_entry(before, u) {
                            let k = choose|k: int| is_entry(before, u, k);
                            assert(is_entry(after, u, k));
                        }
                    }
                    assert forall|u: Seq<char>| #[trigger] has_entry(before, u) implies self@[u]
                        == map.insert(key, info)[u] by {
                        let k = entry_place(before, u);
                        assert(is_entry(before, u, k));
                        assert(is_entry(after, u, k));
                        let k2 = entry_place(after, u);
                        assert(is_entry(after, u, k2));
                        assert(after[k].0@ == after[k2].0@);
                        assert(k == k2);
                        if u == key {
                            assert(is_entry(after, u, i as int));
                            assert(after[k].0@ == after[i as int].0@);
                        } else {
                            assert(k != i);
                        }
                    }
                    assert(self@ =~= map.insert(key, info));
                }
            },
            None => {
                entries.push((url, info));
                proof {
                    let after = entries@;
                    assert forall|i: int, j: int| 0 <= i < j < after.len() implies #[trigger]
                        after[i].0@ != #[trigger] after[j].0@ by {
                        if j == before.len() && after[i].0@ == after[j].0@ {
                            assert(is_entry(before, key, i));
                        }
                    }
                }
                self.entries = entries;
                proof {
                    let after = self.entries@;
                    assert forall|u: Seq<char>, k: int| 0 <= k < before.len() implies #[trigger]
                        is_entry(after, u, k) == is_entry(before, u, k) by {}
                    assert forall|u: Seq<char>| #[trigger]
                        has_entry(after, u) == (has_entry(before, u) || u == key) by {
                        if has_entry(after, u) {
                            let k = choose|k: int| is_entry(after, u, k);
                            if k < before.len() {
                                assert(is_entry(before, u, k));
                            }
                        }
                        if has_entry(before, u) {
                            let k = choose|k: int| is_entry(before, u, k);
                            assert(is_entry(after, u, k));
                        }
                        if u == key {
                            assert(is_entry(after, u, before.len() as int));
                        }
                    }
                    assert forall|u: Seq<char>| #[trigger] has_entry(after, u) implies self@[u]
                        == map.insert(key, info)[u] by {
                        let k2 = entry_place(after, u);
                        assert(is_entry(after, u, k2));
                        if u == key {
                            assert(is_entry(after, u, before.len() as int));
                            assert(after[before.len() as int].0@ == after[k2].0@);
                        } else {
                            let k = entry_place(before, u);
                            assert(has_entry(before, u));
                            assert(is_entry(before, u, k));
                            assert(after[k].0@ == after[k2].0@);
                        }
                    }
                    assert(self@ =~= map.insert(key, info));
                }
            },
        }
    }
}

/// The state of a list of downloads.
pub struct ListState {
    /// The URLs of the items.
    pub urls: Seq<Seq<char>>,
    /// The items that are tried in this round, by their places in the list.
    pub pending: Seq<int>,
    /// What has come of the first of them in this round.
    pub results: Seq<Option<DownloadItemInfo>>,
    /// How many rounds were completed: how often each of the pending items was tried before.
    pub attempts: nat,
    /// What was downloaded.
    pub finished: Map<Seq<char>, DownloadItemInfo>,
}

/// The items without a result, in order.
pub open spec fn failed(pending: Seq<int>, results: Seq<Option<DownloadItemInfo>>) -> Seq<int>
    decreases pending.len(),
{
    if pending.len() == 0 {
        Seq::empty()
    } else {
        let before = failed(pending.drop_last(), results.drop_last());
        if results.last() is None {
            before.push(pending.last())
        } else {
            before
        }
    }
}

/// What was downloaded, with the results of the items that have one.
pub open spec fn collected(
    finished: Map<Seq<char>, DownloadItemInfo>,
    urls: Seq<Seq<char>>,
    pending: Seq<int>,
    results: Seq<Option<DownloadItemInfo>>,
) -> Map<Seq<char>, DownloadItemInfo>
    decreases pending.len(),
{
    if pending.len() == 0 {
        finished
    } else {
        let before = collected(finished, urls, pending.drop_last(), results.drop_last());
        match results.last() {
            Some(info) => before.insert(urls[pending.last()], info),
            None => before,
        }
    }
}

impl ListState {
    /// The list before anything was tried.
    pub open spec fn start(urls: Seq<Seq<char>>) -> ListState {
        ListState {
            urls,
            pending: Seq::new(urls.len(), |i: int| i),
            results: Seq::empty(),
            attempts: 0,
            finished: Map::empty(),
        }
    }

    /// The item that is tried next.
    pub open spec fn next(self) -> Option<int> {
        if self.results.len() < self.pending.len() {
            Some(self.pending[self.results.len() as int])
        } else {
            None
        }
    }

    /// The end of a round. Items whose attempts are used up are dropped, with their results; of the
    /// others those with a result are done, and those without are tried again.
    pub open spec fn close_round(self) -> ListState {
        if self.attempts + 1 > MAX_ATTEMPTS {
            ListState {
                pending: Seq::empty(),
                results: Seq::empty(),
                attempts: self.attempts + 1,
                ..self
            }
        } else {
            ListState {
                pending: failed(self.pending, self.results),
                results: Seq::empty(),
                attempts: self.attempts + 1,
                finished: collected(self.finished, self.urls, self.pending, self.results),
                ..self
            }
        }
    }

    /// The list after the item that was tried next came to `outcome`.
    pub open spec fn record(self, outcome: Option<DownloadItemInfo>) -> ListState {
        let tried = ListState { results: self.results.push(outcome), ..self };
        if tried.results.len() < tried.pending.len() {
            tried
        } else {
            tried.close_round()
        }
    }
}

/// A list of downloads in progress. Each item is tried until it succeeds or was tried too often.
#[derive(Debug, PartialEq, Eq)]
pub struct DownloadList {
    urls: Vec<String>,
    pending: Vec<usize>,
    results: Vec<Option<DownloadItemInfo>>,
    attempts: usize,
    finished: Downloaded,
}

impl View for DownloadList {
    type V = ListState;

    closed spec fn view(&self) -> ListState {
        ListState {
            urls: views(self.urls@),
            pending: self.pending@.map_values(|i: usize| i as int),
            results: self.results@,
            attempts: self.attempts as nat,
            finished: self.finished@,
        }
    }
}

/// The URLs of the items.
pub open spec fn urls_of<T: DownloadItem>(items: Seq<T>) -> Seq<Seq<char>> {
    items.map_values(|item: T| item.url_view())
}

/// Begins to download the items.
pub fn download_list<T: DownloadItem>(items: &[T]) -> (res: DownloadList)
    ensures
        res@ == ListState::start(urls_of(items@)),
{
    let mut urls: Vec<String> = Vec::new();
    let mut pending: Vec<usize> = Vec::new();
    let mut i: usize = 0;
    while i < items.len()
        invariant
            i <= items.len(),
            urls@.len() == i,
            pending@.len() == i,
            forall|k: int| 0 <= k < i ==> #[trigger] urls@[k]@ == items@[k].url_view(),
            forall|k: int| 0 <= k < i ==> #[trigger] pending@[k] == k,
        decreases items.len() - i,
    {
        urls.push(items[i].url_as_str().to_owned());
        pending.push(i);
        i += 1;
    }
    let res = DownloadList {
        urls,
        pending,
        results: Vec::new(),
        attempts: 0,
        finished: Downloaded::new(),
    };
    assert(res@.urls =~= urls_of(items@));
    assert(res@.pending =~= ListState::start(urls_of(items@)).pending);
    assert(res@.results =~= Seq::empty());
    res
}

impl DownloadList {
    /// The pending items are items of the list, and not all of them were tried in this round.
    #[verifier::type_invariant]
    spec fn wf(&self) -> bool {
        &&& self.attempts <= MAX_ATTEMPTS + 1
        &&& self.pending@.len() > 0 ==> self.attempts <= MAX_ATTEMPTS && self.results@.len()
            < self.pending@.len()
        &&& self.pending@.len() == 0 ==> self.results@.len() == 0
        &&& forall|k: int|
            0 <= k < self.pending@.len() ==> #[trigger] self.pending@[k] < self.urls@.len()
    }

    /// The item that is tried next, by its place in the list; none if the list is done.
    pub fn next(&self) -> (res: Option<usize>)
        ensures
            match res {
                Some(i) => self@.next() == Some(i as int) && i < self@.urls.len(),
                None => self@.next() is None,
            },
    {
        proof {
            use_type_invariant(self);
        }
        if self.results.len() < self.pending.len() {
            Some(self.pending[self.results.len()])
        } else {
            None
        }
    }

    /// Notes what came of the item that was tried next.
    pub fn record(&mut self, outcome: Option<DownloadItemInfo>)
        requires
            old(self)@.next() is Some,
        ensures
            final(self)@ == old(self)@.record(outcome),
    {
        proof {
            use_type_invariant(&*self);
        }
        let ghost before = self@;
        let mut results: Vec<Option<DownloadItemInfo>> = Vec::new();
        std::mem::swap(&mut results, &mut self.results);
        results.push(outcome);
        if results.len() == self.pending.len() {
            self.close_round(results);
        } else {
            self.results = results;
        }
        assert(self@ == before.record(outcome));
    }

    /// Ends a round in which the pending items came to `results`.
    fn close_round(&mut self, results: Vec<Option<DownloadItemInfo>>)
        requires
            old(self).pending@.len() > 0,
            results@.len() == old(self).pending@.len(),
        ensures
            final(self)@ == (ListState { results: results@, ..old(self)@ }).close_round(),
    {
        proof {
            use_type_invariant(&*self);
        }
        let ghost start = self@;
        let mut tried: Vec<usize> = Vec::new();
        let mut finished = Downloaded::new();
        self.results = Vec::new();
        std::mem::swap(&mut tried, &mut self.pending);
        self.attempts = self.attempts + 1;
        assert(self@.pending =~= Seq::empty());
        assert(self@.results =~= Seq::empty());
        if self.attempts > MAX_ATTEMPTS {
            return;
        }
        std::mem::swap(&mut finished, &mut self.finished);
        let ghost all = results@;
        let ghost places = tried@.map_values(|i: usize| i as int);
        let mut pending: Vec<usize> = Vec::new();
        let count: usize = tried.len();
        let mut k: usize = 0;
        assert(pending@.map_values(|i: usize| i as int) =~= failed(places.take(0), all.take(0)));
        for result in it: results
            invariant
                it.seq() == all,
                k == it.index(),
                all.len() == tried@.len(),
                count == tried@.len(),
                places == tried@.map_values(|i: usize| i as int),
                views(self.urls@) == start.urls,
                forall|j: int| 0 <= j < tried@.len() ==> #[trigger] tried@[j] < self.urls@.len(),
                forall|j: int| 0 <= j < pending@.len() ==> #[trigger] pending@[j] < self.urls@.len(),
                pending@.map_values(|i: usize| i as int) == failed(
                    places.take(k as int),
                    all.take(k as int),
                ),
                finished@ == collected(
                    start.finished,
                    start.urls,
                    places.take(k as int),
                    all.take(k as int),
                ),
        {
            let ghost here = pending@;
            proof {
                assert(places.take(k + 1).drop_last() =~= places.take(k as int));
                assert(all.take(k + 1).drop_last() =~= all.take(k as int));
                assert(all.take(k + 1).last() == result);
                assert(places.take(k + 1).last() == tried@[k as int] as int);
            }
            let item: usize = tried[k];
            match result {
                Some(info) => {
                    let url = self.urls[item].clone();
                    finished.insert(url, info);
                },
                None => {
                    pending.push(item);
                    assert(pending@.map_values(|i: usize| i as int) =~= here.map_values(
                        |i: usize| i as int,
                    ).push(item as int));
                },
            }
            k += 1;
        }
        assert(places.take(places.len() as int) =~= places);
        assert(all.take(all.len() as int) =~= all);
        self.finished = finished;
        self.pending = pending;
        assert(self@.results =~= Seq::empty());
    }

    /// What was downloaded.
    pub fn into_downloaded(self) -> (res: Downloaded)
        ensures
            res@ == self@.finished,
    {
        self.finished
    }
}

} // verus!
