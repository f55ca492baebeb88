//! What a list of downloads comes to, whatever becomes of the single attempts.
use crate::downloader::list::{collected, failed, urls_of, ListState, MAX_ATTEMPTS};
use crate::downloader::save_as_file::DownloadItemInfo;
use crate::downloader::DownloadItem;
use vstd::prelude::*;

verus! {

/// What comes of each attempt: of the first, second and so on, for each item of the list.
pub type Outcomes = spec_fn(int, nat) -> Option<DownloadItemInfo>;

/// Whether attempt `a` at item `i` succeeds.
pub open spec fn succeeds_at(outcomes: Outcomes, i: int, a: nat) -> bool {
    1 <= a && outcomes(i, a) is Some
}

/// Whether one of the first `n` attempts at item `i` succeeds.
pub open spec fn succeeds(outcomes: Outcomes, i: int, n: nat) -> bool {
    exists|a: nat| a <= n && #[trigger] succeeds_at(outcomes, i, a)
}

/// Whether attempt `a` is the first at item `i` that succeeds.
pub open spec fn first_success(outcomes: Outcomes, i: int, a: nat) -> bool {
    &&& succeeds_at(outcomes, i, a)
    &&& forall|b: nat| b < a ==> !#[trigger] succeeds_at(outcomes, i, b)
}

/// Whether an item with this URL succeeds within `n` attempts.
pub open spec fn loaded(urls: Seq<Seq<char>>, outcomes: Outcomes, url: Seq<char>, n: nat) -> bool {
    exists|i: int|
        0 <= i < urls.len() && urls[i] == url && #[trigger] succeeds(outcomes, i, n)
}

/// Whether no other item has the URL of item `i`.
pub open spec fn alone(urls: Seq<Seq<char>>, i: int) -> bool {
    forall|j: int| 0 <= j < urls.len() && j != i ==> #[trigger] urls[j] != urls[i]
}

/// The list when nothing is left to try.
pub open spec fn run(list: ListState, outcomes: Outcomes) -> ListState
    decreases MAX_ATTEMPTS + 1 - list.attempts, list.pending.len() - list.results.len(),
{
    if list.attempts > MAX_ATTEMPTS {
        list
    } else {
        match list.next() {
            Some(i) => run(list.record(outcomes(i, list.attempts + 1)), outcomes),
            None => list,
        }
    }
}

/// The least of the two.
pub open spec fn at_most(n: nat, limit: nat) -> nat {
    if n < limit {
        n
    } else {
        limit
    }
}

/// What holds of the list at each moment.
pub open spec fn consistent(
    urls: Seq<Seq<char>>,
    outcomes: Outcomes,
    list: ListState,
) -> bool {
    let counted = at_most(list.attempts, MAX_ATTEMPTS as nat);
    &&& list.urls == urls
    &&& list.attempts <= MAX_ATTEMPTS + 1
    &&& list.attempts == MAX_ATTEMPTS + 1 ==> list.pending.len() == 0
    &&& list.pending.len() == 0 ==> list.results.len() == 0
    &&& list.pending.len() > 0 ==> list.results.len() < list.pending.len()
    &&& forall|k: int|
        0 <= k < list.results.len() ==> #[trigger] list.results[k] == outcomes(
            list.pending[k],
            list.attempts + 1,
        )
    &&& list.pending.no_duplicates()
    &&& list.attempts <= MAX_ATTEMPTS ==> forall|i: int| #[trigger]
        list.pending.contains(i) <==> 0 <= i < urls.len() && !succeeds(
            outcomes,
            i,
            list.attempts,
        )
    &&& forall|url: Seq<char>| #[trigger]
        list.finished.contains_key(url) <==> loaded(urls, outcomes, url, counted)
    &&& forall|i: int, a: nat|
        0 <= i < urls.len() && alone(urls, i) && #[trigger] first_success(outcomes, i, a) && a
            <= counted ==> list.finished[urls[i]] == outcomes(i, a)->0
}

/// The items without a result are those that failed.
proof fn lemma_failed(pending: Seq<int>, results: Seq<Option<DownloadItemInfo>>)
    requires
        pending.len() == results.len(),
        pending.no_duplicates(),
    ensures
        failed(pending, results).no_duplicates(),
        forall|i: int| #[trigger]
            failed(pending, results).contains(i) <==> exists|k: int|
                0 <= k < pending.len() && #[trigger] pending[k] == i && results[k] is None,
    decreases pending.len(),
{
    if pending.len() > 0 {
        let p = pending.drop_last();
        let r = results.drop_last();
        lemma_failed(p, r);
        let before = failed(p, r);
        let after = failed(pending, results);
        assert forall|i: int| #[trigger] after.contains(i) <==> exists|k: int|
            0 <= k < pending.len() && #[trigger] pending[k] == i && results[k] is None by {
            if after.contains(i) {
                let n = choose|n: int| 0 <= n < after.len() && after[n] == i;
                if n < before.len() {
                    assert(before[n] == i);
                    assert(before.contains(i));
                    let k = choose|k: int|
                        0 <= k < p.len() && #[trigger] p[k] == i && r[k] is None;
                    assert(pending[k] == i && results[k] is None);
                } else {
                    assert(pending[pending.len() - 1] == i);
                }
            }
            if exists|k: int|
                0 <= k < pending.len() && #[trigger] pending[k] == i && results[k] is None {
                let k = choose|k: int|
                    0 <= k < pending.len() && #[trigger] pending[k] == i && results[k] is None;
                if k < p.len() {
                    assert(p[k] == i && r[k] is None);
                    assert(before.contains(i));
                    let n = choose|n: int| 0 <= n < before.len() && before[n] == i;
                    assert(after[n] == i);
                } else {
                    assert(after.last() == i);
                }
            }
        }
        if results.last() is None {
            if before.contains(pending.last()) {
                let k = choose|k: int|
                    0 <= k < p.len() && #[trigger] p[k] == pending.last() && r[k] is None;
                assert(pending[k] == pending[pending.len() - 1]);
            }
        }
    }
}

/// What is collected is what was there and what the results add.
proof fn lemma_collected(
    finished: Map<Seq<char>, DownloadItemInfo>,
    urls: Seq<Seq<char>>,
    pending: Seq<int>,
    results: Seq<Option<DownloadItemInfo>>,
)
    requires
        pending.len() == results.len(),
    ensures
        forall|url: Seq<char>| #[trigger]
            collected(finished, urls, pending, results).contains_key(url) <==> (
            finished.contains_key(url) || exists|k: int|
                0 <= k < pending.len() && urls[#[trigger] pending[k]] == url && results[k] is Some),
        forall|url: Seq<char>|
            (forall|k: int|
                0 <= k < pending.len() && results[k] is Some ==> urls[#[trigger] pending[k]] != url)
                ==> #[trigger] collected(finished, urls, pending, results)[url] == finished[url],
        forall|k: int|
            0 <= k < pending.len() && results[k] is Some && (forall|j: int|
                0 <= j < pending.len() && j != k ==> urls[#[trigger] pending[j]]
                    != urls[pending[k]]) ==> collected(
                finished,
                urls,
                pending,
                results,
            )[urls[#[trigger] pending[k]]] == results[k]->0,
    decreases pending.len(),
{
    if pending.len() > 0 {
        let p = pending.drop_last();
        let r = results.drop_last();
        lemma_collected(finished, urls, p, r);
        let before = collected(finished, urls, p, r);
        let after = collected(finished, urls, pending, results);
        assert forall|url: Seq<char>| #[trigger] after.contains_key(url) <==> (
        finished.contains_key(url) || exists|k: int|
            0 <= k < pending.len() && urls[#[trigger] pending[k]] == url && results[k] is Some) by {
            if after.contains_key(url) {
                if before.contains_key(url) {
                    if !finished.contains_key(url) {
                        let k = choose|k: int|
                            0 <= k < p.len() && urls[#[trigger] p[k]] == url && r[k] is Some;
                        assert(urls[pending[k]] == url && results[k] is Some);
                    }
                } else {
                    assert(urls[pending[pending.len() - 1]] == url);
                }
            }
            if exists|k: int|
                0 <= k < pending.len() && urls[#[trigger] pending[k]] == url && results[k] is Some {
                let k = choose|k: int|
                    0 <= k < pending.len() && urls[#[trigger] pending[k]] == url
                        && results[k] is Some;
                if k < p.len() {
                    assert(urls[p[k]] == url && r[k] is Some);
                    assert(before.contains_key(url));
                }
            }
        }
        assert forall|url: Seq<char>|
            (forall|k: int|
                0 <= k < pending.len() && results[k] is Some ==> urls[#[trigger] pending[k]]
                    != url) implies #[trigger] after[url] == finished[url] by {
            assert forall|k: int| 0 <= k < p.len() && r[k] is Some implies urls[#[trigger] p[k]]
                != url by {
                assert(urls[pending[k]] != url);
            }
            assert(before[url] == finished[url]);
            assert(results.last() is Some ==> urls[pending[pending.len() - 1]] != url);
        }
        assert forall|k: int|
            0 <= k < pending.len() && results[k] is Some && (forall|j: int|
                0 <= j < pending.len() && j != k ==> urls[#[trigger] pending[j]]
                    != urls[pending[k]]) implies after[urls[#[trigger] pending[k]]]
            == results[k]->0 by {
            if k < p.len() {
                assert(urls[pending[pending.len() - 1]] != urls[pending[k]]);
                assert forall|j: int| 0 <= j < p.len() && j != k implies urls[#[trigger] p[j]]
                    != urls[p[k]] by {
                    assert(urls[pending[j]] != urls[pending[k]]);
                }
                assert(before[urls[p[k]]] == r[k]->0);
            }
        }
    }
}

/// The end of a round keeps the list consistent.
proof fn lemma_close_round(urls: Seq<Seq<char>>, outcomes: Outcomes, list: ListState)
    requires
        list.urls == urls,
        list.attempts < MAX_ATTEMPTS,
        list.results.len() == list.pending.len(),
        forall|k: int|
            0 <= k < list.results.len() ==> #[trigger] list.results[k] == outcomes(
                list.pending[k],
                list.attempts + 1,
            ),
        list.pending.no_duplicates(),
        forall|i: int| #[trigger]
            list.pending.contains(i) <==> 0 <= i < urls.len() && !succeeds(
                outcomes,
                i,
                list.attempts,
            ),
        forall|url: Seq<char>| #[trigger]
            list.finished.contains_key(url) <==> loaded(urls, outcomes, url, list.attempts),
        forall|i: int, a: nat|
            0 <= i < urls.len() && alone(urls, i) && #[trigger] first_success(outcomes, i, a) && a
                <= list.attempts ==> list.finished[urls[i]] == outcomes(i, a)->0,
    ensures
        consistent(urls, outcomes, list.close_round()),
{
    let next = list.close_round();
    let n = list.attempts + 1;
    lemma_failed(list.pending, list.results);
    lemma_collected(list.finished, urls, list.pending, list.results);
    assert forall|i: int| #[trigger] next.pending.contains(i) <==> 0 <= i < urls.len()
        && !succeeds(outcomes, i, n) by {
        if next.pending.contains(i) {
            let k = choose|k: int|
                0 <= k < list.pending.len() && #[trigger] list.pending[k] == i
                    && list.results[k] is None;
            assert(list.pending.contains(i));
            if succeeds(outcomes, i, n) {
                let a = choose|a: nat| a <= n && #[trigger] succeeds_at(outcomes, i, a);
                assert(a == n);
            }
        }
        if 0 <= i < urls.len() && !succeeds(outcomes, i, n) {
            if succeeds(outcomes, i, list.attempts) {
                let a = choose|a: nat|
                    a <= list.attempts && #[trigger] succeeds_at(outcomes, i, a);
                assert(succeeds(outcomes, i, n));
            }
            assert(list.pending.contains(i));
            let k = choose|k: int| 0 <= k < list.pending.len() && list.pending[k] == i;
            assert(!succeeds_at(outcomes, i, n));
            assert(list.results[k] is None);
        }
    }
    assert forall|url: Seq<char>| #[trigger] next.finished.contains_key(url) <==> loaded(
        urls,
        outcomes,
        url,
        n,
    ) by {
        if next.finished.contains_key(url) {
            if list.finished.contains_key(url) {
                let i = choose|i: int|
                    0 <= i < urls.len() && urls[i] == url && #[trigger] succeeds(
                        outcomes,
                        i,
                        list.attempts,
                    );
                let a = choose|a: nat|
                    a <= list.attempts && #[trigger] succeeds_at(outcomes, i, a);
                assert(succeeds(outcomes, i, n));
            } else {
                let k = choose|k: int|
                    0 <= k < list.pending.len() && urls[#[trigger] list.pending[k]] == url
                        && list.results[k] is Some;
                let i = list.pending[k];
                assert(list.pending.contains(i));
                assert(succeeds_at(outcomes, i, n));
                assert(succeeds(outcomes, i, n));
            }
        }
        if loaded(urls, outcomes, url, n) {
            let i = choose|i: int|
                0 <= i < urls.len() && urls[i] == url && #[trigger] succeeds(outcomes, i, n);
            if succeeds(outcomes, i, list.attempts) {
                assert(loaded(urls, outcomes, url, list.attempts));
                assert(list.finished.contains_key(url));
            } else {
                let a = choose|a: nat| a <= n && #[trigger] succeeds_at(outcomes, i, a);
                assert(a == n);
                assert(list.pending.contains(i));
                let k = choose|k: int| 0 <= k < list.pending.len() && list.pending[k] == i;
                assert(list.results[k] is Some);
                assert(urls[list.pending[k]] == url);
            }
        }
    }
    assert forall|i: int, a: nat|
        0 <= i < urls.len() && alone(urls, i) && #[trigger] first_success(outcomes, i, a) && a
            <= n implies next.finished[urls[i]] == outcomes(i, a)->0 by {
        if a <= list.attempts {
            assert forall|k: int|
                0 <= k < list.pending.len()
                    && list.results[k] is Some implies urls[#[trigger] list.pending[k]]
                != urls[i] by {
                assert(list.pending.contains(list.pending[k]));
                if list.pending[k] == i {
                    assert(succeeds_at(outcomes, i, a));
                    assert(succeeds(outcomes, i, list.attempts));
                }
            }
            assert(next.finished[urls[i]] == list.finished[urls[i]]);
        } else {
            if succeeds(outcomes, i, list.attempts) {
                let b = choose|b: nat|
                    b <= list.attempts && #[trigger] succeeds_at(outcomes, i, b);
                assert(!succeeds_at(outcomes, i, b));
            }
            assert(list.pending.contains(i));
            let k = choose|k: int| 0 <= k < list.pending.len() && list.pending[k] == i;
            assert(list.results[k] is Some);
            assert forall|j: int|
                0 <= j < list.pending.len() && j != k implies urls[#[trigger] list.pending[j]]
                != urls[list.pending[k]] by {
                assert(list.pending.contains(list.pending[j]));
                assert(list.pending[j] != i);
            }
            assert(next.finished[urls[list.pending[k]]] == list.results[k]->0);
        }
    }
}

/// Noting what came of an attempt keeps the list consistent.
pub proof fn law_record_consistent(urls: Seq<Seq<char>>, outcomes: Outcomes, list: ListState)
    requires
        consistent(urls, outcomes, list),
        list.next() is Some,
    ensures
        consistent(
            urls,
            outcomes,
            list.record(outcomes(list.next().unwrap(), list.attempts + 1)),
        ),
{
    let outcome = outcomes(list.next().unwrap(), list.attempts + 1);
    let tried = ListState { results: list.results.push(outcome), ..list };
    if tried.results.len() == tried.pending.len() && list.attempts < MAX_ATTEMPTS {
        lemma_close_round(urls, outcomes, tried);
    }
}

/// An attempt is made only at an item at which all the attempts before failed, and that is at most
/// one attempt more than those that count.
pub proof fn law_only_failures_are_tried(
    urls: Seq<Seq<char>>,
    outcomes: Outcomes,
    list: ListState,
)
    requires
        consistent(urls, outcomes, list),
        list.next() is Some,
    ensures
        !succeeds(outcomes, list.next().unwrap(), list.attempts),
        list.attempts + 1 <= MAX_ATTEMPTS + 1,
{
    assert(list.pending.contains(list.next().unwrap()));
}

/// A consistent list stays consistent until nothing is left to try.
proof fn lemma_run(urls: Seq<Seq<char>>, outcomes: Outcomes, list: ListState)
    requires
        consistent(urls, outcomes, list),
    ensures
        consistent(urls, outcomes, run(list, outcomes)),
        run(list, outcomes).next() is None,
    decreases MAX_ATTEMPTS + 1 - list.attempts, list.pending.len() - list.results.len(),
{
    if list.attempts <= MAX_ATTEMPTS && list.next() is Some {
        law_record_consistent(urls, outcomes, list);
        lemma_run(
            urls,
            outcomes,
            list.record(outcomes(list.next().unwrap(), list.attempts + 1)),
        );
    }
}

/// Whatever becomes of the attempts, the list comes to an end. Then a URL was downloaded exactly if
/// one of the first five attempts at an item with that URL succeeded; what is known of an item that
/// shares its URL with no other is what its first success brought.
pub proof fn law_download_list(urls: Seq<Seq<char>>, outcomes: Outcomes)
    ensures
        MAX_ATTEMPTS == 5,
        ({
            let end = run(ListState::start(urls), outcomes);
            &&& end.next() is None
            &&& forall|url: Seq<char>| #[trigger]
                end.finished.contains_key(url) <==> loaded(
                    urls,
                    outcomes,
                    url,
                    MAX_ATTEMPTS as nat,
                )
            &&& forall|i: int, a: nat|
                0 <= i < urls.len() && alone(urls, i) && #[trigger] first_success(outcomes, i, a)
                    && a <= MAX_ATTEMPTS ==> end.finished[urls[i]] == outcomes(i, a)->0
        }),
{
    let start = ListState::start(urls);
    assert forall|i: int| #[trigger] start.pending.contains(i) <==> 0 <= i < urls.len()
        && !succeeds(outcomes, i, 0) by {
        if 0 <= i < urls.len() {
            assert(start.pending[i] == i);
        }
    }
    assert(consistent(urls, outcomes, start));
    lemma_run(urls, outcomes, start);
    let end = run(start, outcomes);
    if end.attempts < MAX_ATTEMPTS {
        assert(end.pending.len() == 0);
        assert forall|i: int, n: nat|
            0 <= i < urls.len() && MAX_ATTEMPTS >= n >= end.attempts implies #[trigger] succeeds(
            outcomes,
            i,
            n,
        ) by {
            assert(!end.pending.contains(i));
            assert(succeeds(outcomes, i, end.attempts));
            let a = choose|a: nat| a <= end.attempts && #[trigger] succeeds_at(outcomes, i, a);
            assert(succeeds_at(outcomes, i, a) && a <= n);
        }
        assert forall|url: Seq<char>| #[trigger] end.finished.contains_key(url) <==> loaded(
            urls,
            outcomes,
            url,
            MAX_ATTEMPTS as nat,
        ) by {
            if loaded(urls, outcomes, url, MAX_ATTEMPTS as nat) {
                let i = choose|i: int|
                    0 <= i < urls.len() && urls[i] == url && #[trigger] succeeds(
                        outcomes,
                        i,
                        MAX_ATTEMPTS as nat,
                    );
                assert(succeeds(outcomes, i, end.attempts));
            }
            if end.finished.contains_key(url) {
                let i = choose|i: int|
                    0 <= i < urls.len() && urls[i] == url && #[trigger] succeeds(
                        outcomes,
                        i,
                        end.attempts,
                    );
                assert(succeeds(outcomes, i, MAX_ATTEMPTS as nat));
            }
        }
        assert forall|i: int, a: nat|
            0 <= i < urls.len() && alone(urls, i) && #[trigger] first_success(outcomes, i, a) && a
                <= MAX_ATTEMPTS implies end.finished[urls[i]] == outcomes(i, a)->0 by {
            assert(succeeds(outcomes, i, end.attempts));
            let b = choose|b: nat| b <= end.attempts && #[trigger] succeeds_at(outcomes, i, b);
            assert(a <= b);
        }
    }
}

/// Before anything was tried, each item is due once, in order, and nothing was downloaded.
pub proof fn law_start<T: DownloadItem>(items: Seq<T>)
    ensures
        ({
            let list = ListState::start(urls_of(items));
            &&& list.urls.len() == items.len()
            &&& forall|i: int| 0 <= i < items.len() ==> #[trigger] list.urls[i] == items[i].url_view()
            &&& list.pending.len() == items.len()
            &&& forall|i: int| 0 <= i < items.len() ==> #[trigger] list.pending[i] == i
            &&& list.results.len() == 0
            &&& list.attempts == 0
            &&& list.finished == Map::<Seq<char>, DownloadItemInfo>::empty()
        }),
{
}

/// The items that are tried again are those of the round that failed, all of them and in order.
pub proof fn law_failed_in_order(pending: Seq<int>, results: Seq<Option<DownloadItemInfo>>)
    requires
        pending.len() == results.len(),
    ensures
        failed(pending, results) == pending.zip_with(results).filter(
            |tried: (int, Option<DownloadItemInfo>)| tried.1 is None,
        ).map_values(|tried: (int, Option<DownloadItemInfo>)| tried.0),
    decreases pending.len(),
{
    reveal(Seq::filter);
    let missed = |tried: (int, Option<DownloadItemInfo>)| tried.1 is None;
    let place = |tried: (int, Option<DownloadItemInfo>)| tried.0;
    let all = pending.zip_with(results);
    if pending.len() > 0 {
        law_failed_in_order(pending.drop_last(), results.drop_last());
        assert(all.drop_last() =~= pending.drop_last().zip_with(results.drop_last()));
        assert(all.last() == (pending.last(), results.last()));
    }
    assert(failed(pending, results) =~= all.filter(missed).map_values(place));
}

/// Of several successes for one URL in a round, the last is what is known of it.
pub proof fn law_last_success_counts(
    finished: Map<Seq<char>, DownloadItemInfo>,
    urls: Seq<Seq<char>>,
    pending: Seq<int>,
    results: Seq<Option<DownloadItemInfo>>,
    k: int,
)
    requires
        pending.len() == results.len(),
        0 <= k < pending.len(),
        results[k] is Some,
        forall|j: int|
            k < j < pending.len() && results[j] is Some ==> urls[#[trigger] pending[j]]
                != urls[pending[k]],
    ensures
        collected(finished, urls, pending, results).contains_key(urls[pending[k]]),
        collected(finished, urls, pending, results)[urls[pending[k]]] == results[k]->0,
    decreases pending.len(),
{
    if k < pending.len() - 1 {
        let front = pending.drop_last();
        let tried = results.drop_last();
        assert forall|j: int| k < j < front.len() && tried[j] is Some implies urls[
            #[trigger] front[j]
        ] != urls[front[k]] by {
            assert(front[j] == pending[j] && tried[j] == results[j]);
        }
        law_last_success_counts(finished, urls, front, tried, k);
        if results.last() is Some {
            assert(results[pending.len() - 1] is Some);
            assert(urls[pending[pending.len() - 1]] != urls[pending[k]]);
        }
    }
}

} // verus!
