//! What holds of the queue, and of the paths that downloaded files get.
use crate::download::{
    candidate, extension_or_empty, finds_like, has_url, is_like, link_pattern, link_views, numbered,
    reserved_links, small, with_row, Completion, DownloadRow, DueLinks, LinkSearch, LinkView,
    Reservation, TableDownload, MAX_ATTEMPTS, RESERVATION_SECONDS,
};
use crate::downloader::save_as_file::{law_file_name_stays, DownloadItemInfo};
use crate::hashing::{cache_file, text_writes};
use crate::numbers::{digits, is_digit, law_digits_injective, lemma_decimal_value_of_digits};
use crate::paths::{
    before_name, ends_prefix, extension, file_name, file_prefix, is_name, last_component, last_dot,
    law_joined_file_name, law_renamed_in_place, lemma_component_no_slash, lemma_extension_no_slash,
    lemma_last_dot, lemma_last_dot_place, lemma_prefix, name_prefix, no_slash, parent,
    with_extension, with_file_name, with_slash,
};
use crate::urls::url_bare;
use vstd::prelude::*;

verus! {

/// A link that was reserved cannot be reserved by another who read the same row: of all that read a
/// row in one state, one reserves it.
pub proof fn law_reserved_once(
    link: LinkView,
    row: DownloadRow,
    first: Reservation,
    second: Reservation,
    now: i64,
    later: i64,
)
    requires
        link.attempts < i64::MAX,
        first.is_of(link, now),
        second.is_of(link, later),
        first.takes(row),
    ensures
        !second.takes(first.taken(row)),
{
}

/// A link that was reserved is not due before the reservation has run out.
pub proof fn law_reservation_lasts(row: DownloadRow, taken_by: Reservation, search: DueLinks, now: int)
    requires
        taken_by.takes(row),
        search.time_limit == now - RESERVATION_SECONDS,
        now <= taken_by.now + RESERVATION_SECONDS,
    ensures
        !search.finds(taken_by.taken(row)),
{
}

/// A link that is found and reserved was not reserved more often than is allowed.
pub proof fn law_attempts_bounded(row: DownloadRow, search: DueLinks, taken_by: Reservation)
    requires
        search.finds(row),
        taken_by.takes(row),
    ensures
        taken_by.taken(row).attempts == row.attempts + 1,
        taken_by.taken(row).attempts <= MAX_ATTEMPTS,
{
}

/// A link that was downloaded is neither found nor reserved again.
pub proof fn law_completed_stays(row: DownloadRow, search: DueLinks, reservation: Reservation)
    requires
        row.completed,
    ensures
        !search.finds(row),
        !reservation.takes(row),
{
}

/// A link that is noted as downloaded is so from then on, with its file where the note says: it is
/// neither found nor reserved again. Nothing else of its row changes, and no other row.
pub proof fn law_completion(
    row: DownloadRow,
    completion: Completion,
    search: DueLinks,
    reservation: Reservation,
)
    ensures
        completion.marks(row) <==> row.download_url == completion.download_url@,
        !completion.marks(row) ==> completion.marked(row) == row,
        completion.marks(row) ==> {
            let marked = completion.marked(row);
            &&& marked.completed
            &&& marked.local_path == completion.local_path@
            &&& !search.finds(marked)
            &&& !reservation.takes(marked)
            &&& marked.site_id == row.site_id
            &&& marked.download_url == row.download_url
            &&& marked.attempts == row.attempts
            &&& marked.last_attempt_at == row.last_attempt_at
            &&& marked.enable == row.enable
        },
        row.completed ==> completion.marked(row).completed,
{
}

/// A reservation changes how often and when the row was reserved, and nothing else; what is noted of a
/// link that was reserved is noted of the same link.
pub proof fn law_reservation_keeps(
    row: DownloadRow,
    reservation: Reservation,
    completion: Completion,
)
    requires
        reservation.takes(row),
    ensures
        reservation.taken(row).site_id == row.site_id,
        reservation.taken(row).download_url == row.download_url,
        reservation.taken(row).local_path == row.local_path,
        reservation.taken(row).completed == row.completed,
        reservation.taken(row).enable == row.enable,
        completion.marks(reservation.taken(row)) <==> completion.marks(row),
{
}

/// How often the rows may still be reserved, all together.
pub open spec fn tries_left(rows: Seq<DownloadRow>) -> int
    decreases rows.len(),
{
    if rows.len() == 0 {
        0
    } else {
        let row = rows.last();
        tries_left(rows.drop_last()) + if row.attempts < MAX_ATTEMPTS {
            MAX_ATTEMPTS - row.attempts
        } else {
            0
        }
    }
}

/// Each reservation of a row that was found uses up one of the tries that are left, and these do not
/// fall below zero.
pub proof fn law_queue_runs_dry(
    rows: Seq<DownloadRow>,
    i: int,
    search: DueLinks,
    taken_by: Reservation,
)
    requires
        0 <= i < rows.len(),
        search.finds(rows[i]),
        taken_by.takes(rows[i]),
    ensures
        tries_left(rows.update(i, taken_by.taken(rows[i]))) == tries_left(rows) - 1,
        tries_left(rows.update(i, taken_by.taken(rows[i]))) >= 0,
    decreases rows.len(),
{
    let taken = taken_by.taken(rows[i]);
    let after = rows.update(i, taken);
    lemma_tries_left(after);
    if i == rows.len() - 1 {
        assert(after.drop_last() =~= rows.drop_last());
    } else {
        assert(after.drop_last() =~= rows.drop_last().update(i, taken));
        law_queue_runs_dry(rows.drop_last(), i, search, taken_by);
    }
}

/// The tries that are left do not fall below zero.
proof fn lemma_tries_left(rows: Seq<DownloadRow>)
    ensures
        tries_left(rows) >= 0,
    decreases rows.len(),
{
    if rows.len() > 0 {
        lemma_tries_left(rows.drop_last());
    }
}

/// A link that begins with the text that is searched for is found as long as it may be tried.
pub proof fn law_prefix_is_found(prefix: Seq<char>, row: DownloadRow)
    requires
        prefix.len() <= row.download_url.len(),
        row.download_url.take(prefix.len() as int) == prefix,
        row.attempts < MAX_ATTEMPTS,
    ensures
        finds_like(prefix.push('%'), row),
{
    let rest = row.download_url.skip(prefix.len() as int);
    assert(row.download_url =~= prefix + rest);
    lemma_prefix_is_like(prefix, rest);
}

/// A text is like what it begins with and anything after that.
proof fn lemma_prefix_is_like(prefix: Seq<char>, rest: Seq<char>)
    ensures
        is_like(prefix + rest, prefix.push('%')),
    decreases prefix.len(), rest.len(),
{
    let text = prefix + rest;
    let pattern = prefix.push('%');
    if prefix.len() > 0 {
        assert(text.drop_first() =~= prefix.drop_first() + rest);
        assert(pattern.drop_first() =~= prefix.drop_first().push('%'));
        lemma_prefix_is_like(prefix.drop_first(), rest);
        assert(is_like(text.drop_first(), pattern.drop_first()));
        assert(is_like(text.drop_first(), pattern) || pattern.first() != '%');
    } else {
        assert(text =~= rest);
        assert(pattern.drop_first() =~= Seq::empty());
        if rest.len() > 0 {
            lemma_prefix_is_like(prefix, rest.drop_first());
            assert(prefix + rest.drop_first() =~= rest.drop_first());
            assert(text.drop_first() =~= rest.drop_first());
        } else {
            assert(is_like(text, pattern.drop_first()));
        }
    }
}

/// The row that the database makes for a link of a site that is added to the queue.
pub type Fresh = spec_fn(i64, Seq<char>) -> DownloadRow;

/// Whether the search for `link` finds one of the rows.
pub open spec fn is_queued(rows: Seq<DownloadRow>, link: Seq<char>) -> bool {
    exists|i: int| 0 <= i < rows.len() && finds_like(link_pattern(link), #[trigger] rows[i])
}

/// The rows after `link` was added to them, unless the search finds it.
pub open spec fn append_link(
    rows: Seq<DownloadRow>,
    site_id: i64,
    link: Seq<char>,
    fresh: Fresh,
) -> Seq<DownloadRow> {
    if is_queued(rows, link) {
        rows
    } else {
        with_row(rows, fresh(site_id, link))
    }
}

/// The rows after the links were added to them one after another.
pub open spec fn append_links(
    rows: Seq<DownloadRow>,
    site_id: i64,
    links: Seq<Seq<char>>,
    fresh: Fresh,
) -> Seq<DownloadRow>
    decreases links.len(),
{
    if links.len() == 0 {
        rows
    } else {
        append_link(
            append_links(rows, site_id, links.drop_last(), fresh),
            site_id,
            links.last(),
            fresh,
        )
    }
}

/// Whether adding the link changes nothing: the search finds it, or a row has it.
spec fn is_settled(rows: Seq<DownloadRow>, link: Seq<char>) -> bool {
    is_queued(rows, link) || has_url(rows, link)
}

/// What is settled stays so when rows are added.
proof fn lemma_settled_stays(rows: Seq<DownloadRow>, more: Seq<DownloadRow>, link: Seq<char>)
    requires
        is_settled(rows, link),
        rows.is_prefix_of(more),
    ensures
        is_settled(more, link),
{
    if is_queued(rows, link) {
        let i = choose|i: int|
            0 <= i < rows.len() && finds_like(link_pattern(link), #[trigger] rows[i]);
        assert(more[i] == rows[i]);
    } else {
        let i = choose|i: int| 0 <= i < rows.len() && (#[trigger] rows[i]).download_url == link;
        assert(more[i] == rows[i]);
    }
}

/// Adding links only adds rows, and settles the links.
proof fn lemma_append_links(
    rows: Seq<DownloadRow>,
    site_id: i64,
    links: Seq<Seq<char>>,
    fresh: Fresh,
)
    requires
        forall|link: Seq<char>| (#[trigger] fresh(site_id, link)).download_url == link,
    ensures
        rows.is_prefix_of(append_links(rows, site_id, links, fresh)),
        forall|i: int|
            0 <= i < links.len() ==> is_settled(
                append_links(rows, site_id, links, fresh),
                #[trigger] links[i],
            ),
    decreases links.len(),
{
    if links.len() > 0 {
        let before = append_links(rows, site_id, links.drop_last(), fresh);
        let link = links.last();
        let row = fresh(site_id, link);
        let after = append_link(before, site_id, link, fresh);
        lemma_append_links(rows, site_id, links.drop_last(), fresh);
        assert(before.is_prefix_of(after));
        if !is_queued(before, link) && !has_url(before, link) {
            assert(after[before.len() as int].download_url == link);
        }
        assert forall|i: int| 0 <= i < links.len() implies is_settled(after, #[trigger] links[i]) by {
            if i < links.len() - 1 {
                assert(links.drop_last()[i] == links[i]);
                lemma_settled_stays(before, after, links[i]);
            }
        }
    }
}

/// Adding links that are settled changes nothing.
proof fn lemma_append_settled(
    rows: Seq<DownloadRow>,
    site_id: i64,
    links: Seq<Seq<char>>,
    fresh: Fresh,
)
    requires
        forall|link: Seq<char>| (#[trigger] fresh(site_id, link)).download_url == link,
        forall|i: int| 0 <= i < links.len() ==> is_settled(rows, #[trigger] links[i]),
    ensures
        append_links(rows, site_id, links, fresh) == rows,
    decreases links.len(),
{
    if links.len() > 0 {
        assert forall|i: int| 0 <= i < links.drop_last().len() implies is_settled(
            rows,
            #[trigger] links.drop_last()[i],
        ) by {
            assert(is_settled(rows, links[i]));
        }
        lemma_append_settled(rows, site_id, links.drop_last(), fresh);
        assert(is_settled(rows, links[links.len() - 1]));
        assert(fresh(site_id, links.last()).download_url == links.last());
    }
}

/// Adding the same links again, for whichever site, leaves the queue as it was.
pub proof fn law_append_twice(
    rows: Seq<DownloadRow>,
    site_id: i64,
    again: i64,
    links: Seq<Seq<char>>,
    fresh: Fresh,
)
    requires
        forall|site: i64, link: Seq<char>| (#[trigger] fresh(site, link)).download_url == link,
    ensures
        append_links(append_links(rows, site_id, links, fresh), again, links, fresh)
            == append_links(rows, site_id, links, fresh),
{
    lemma_append_links(rows, site_id, links, fresh);
    lemma_append_settled(append_links(rows, site_id, links, fresh), again, links, fresh);
}

/// The file name of the path that is wanted, numbered, without an extension.
pub open spec fn numbered_stem(origin: Seq<char>, k: nat) -> Seq<char> {
    file_prefix(origin).unwrap() + "_"@ + digits(k, 10)
}

/// The file name of the path that is tried after `k` others were in use.
pub open spec fn numbered_name(origin: Seq<char>, k: nat) -> Seq<char> {
    let ext = extension_or_empty(origin);
    if ext.len() == 0 {
        numbered_stem(origin, k)
    } else {
        numbered_stem(origin, k).push('.') + ext
    }
}

/// The prefix of a file name: it is not empty, and has no dot but one that begins it.
proof fn lemma_prefix_shape(name: Seq<char>)
    requires
        name.len() > 0,
    ensures
        1 <= name_prefix(name).len() <= name.len(),
        name_prefix(name) == name.take(name_prefix(name).len() as int),
        name_prefix(name).len() < name.len() ==> name[name_prefix(name).len() as int] == '.',
        forall|i: int| 1 <= i < name_prefix(name).len() ==> #[trigger] name_prefix(name)[i] != '.',
{
    lemma_prefix_exists(name, 1);
    let i = choose|i: int| ends_prefix(name, i);
    lemma_prefix(name, i);
}

/// There is a place where the prefix of a file name ends.
proof fn lemma_prefix_exists(name: Seq<char>, i: int)
    requires
        1 <= i <= name.len(),
        forall|k: int| 1 <= k < i ==> name[k] != '.',
    ensures
        exists|j: int| ends_prefix(name, j),
    decreases name.len() - i,
{
    if i < name.len() && name[i] != '.' {
        lemma_prefix_exists(name, i + 1);
    } else {
        assert(ends_prefix(name, i));
    }
}

/// The numbered file names are names, in one directory, and their stems have no extension.
proof fn lemma_numbered(origin: Seq<char>, k: nat)
    requires
        file_name(origin) is Some,
    ensures
        is_name(numbered_stem(origin, k)),
        no_slash(numbered_stem(origin, k)),
        last_dot(numbered_stem(origin, k)) <= 0,
        is_name(numbered_name(origin, k)),
        no_slash(numbered_name(origin, k)),
{
    reveal_strlit("_");
    let name = last_component(origin);
    let prefix = name_prefix(name);
    let number = digits(k, 10);
    let stem = numbered_stem(origin, k);
    lemma_component_no_slash(origin);
    lemma_prefix_shape(name);
    lemma_decimal_value_of_digits(k);
    assert forall|i: int| 0 <= i < stem.len() implies #[trigger] stem[i] != '/' by {
        if i < prefix.len() {
            assert(stem[i] == name[i]);
        } else if i > prefix.len() {
            assert(stem[i] == number[i - prefix.len() - 1]);
            assert(is_digit(number[i - prefix.len() - 1]));
        }
    }
    let more = "_"@ + number;
    assert forall|i: int| 0 <= i < more.len() implies #[trigger] more[i] != '.' by {
        if i > 0 {
            assert(is_digit(number[i - 1]));
        }
    }
    assert(stem =~= prefix + more);
    lemma_last_dot(prefix, more);
    lemma_last_dot_place(prefix);
    assert(stem.len() > 2);
    let ext = extension_or_empty(origin);
    let full = numbered_name(origin, k);
    lemma_extension_no_slash(origin);
    assert forall|i: int| 0 <= i < full.len() implies #[trigger] full[i] != '/' by {
        if i < stem.len() {
            assert(full[i] == stem[i]);
        } else if i > stem.len() {
            assert(full[i] == ext[i - stem.len() - 1]);
        }
    }
}

/// Numbering a path puts a numbered file name in the place of its own.
proof fn lemma_numbered_path(path: Seq<char>, origin: Seq<char>, k: nat)
    requires
        file_name(origin) is Some,
        file_name(path) is Some,
    ensures
        numbered(path, origin, k) == with_slash(parent(path)) + numbered_name(origin, k),
        file_name(numbered(path, origin, k)) == Some(numbered_name(origin, k)),
        parent(numbered(path, origin, k)) == parent(path),
{
    let stem = numbered_stem(origin, k);
    let full = numbered_name(origin, k);
    lemma_numbered(origin, k);
    law_renamed_in_place(path, stem);
    law_joined_file_name(parent(path), stem);
    let bare = with_file_name(path, stem);
    assert(before_name(bare) == with_slash(parent(path)));
    assert(with_extension(bare, extension_or_empty(origin)) =~= with_slash(parent(path)) + full);
    law_renamed_in_place(path, full);
}

/// The paths that are tried stand in the directory of the path that is wanted. The first is that
/// path itself, the others have its file name with a number after the prefix.
pub proof fn law_candidates(origin: Seq<char>, k: nat)
    requires
        file_name(origin) is Some,
    ensures
        file_name(candidate(origin, k)) == (if k == 0 {
            file_name(origin)
        } else {
            Some(numbered_name(origin, k))
        }),
        parent(candidate(origin, k)) == parent(origin),
        k > 0 ==> candidate(origin, k) == with_slash(parent(origin)) + numbered_name(origin, k),
    decreases k,
{
    if k > 0 {
        law_candidates(origin, (k - 1) as nat);
        lemma_numbered_path(candidate(origin, (k - 1) as nat), origin, k);
    }
}

/// No path is tried twice.
pub proof fn law_candidates_distinct(origin: Seq<char>, j: nat, k: nat)
    requires
        file_name(origin) is Some,
        j < k,
    ensures
        candidate(origin, j) != candidate(origin, k),
{
    reveal_strlit("_");
    law_candidates(origin, j);
    law_candidates(origin, k);
    let name = last_component(origin);
    let prefix = name_prefix(name);
    lemma_prefix_shape(name);
    let later = numbered_name(origin, k);
    lemma_decimal_value_of_digits(k);
    assert(later[prefix.len() as int] == '_');
    if j > 0 {
        let earlier = numbered_name(origin, j);
        if earlier == later {
            let ext = extension_or_empty(origin);
            let tail = if ext.len() == 0 {
                0
            } else {
                ext.len() as int + 1
            };
            let start = prefix.len() as int + 1;
            assert(digits(j, 10) =~= earlier.subrange(start, earlier.len() - tail));
            assert(digits(k, 10) =~= later.subrange(start, later.len() - tail));
            law_digits_injective(j, k, 10);
        }
    }
}

/// The first `n` of the paths that are tried.
spec fn first_candidates(origin: Seq<char>, n: nat) -> Set<Seq<char>>
    decreases n,
{
    if n == 0 {
        Set::empty()
    } else {
        first_candidates(origin, (n - 1) as nat).insert(candidate(origin, (n - 1) as nat))
    }
}

/// There are as many of the first paths as were counted.
proof fn lemma_first_candidates(origin: Seq<char>, n: nat)
    requires
        file_name(origin) is Some,
    ensures
        first_candidates(origin, n).finite(),
        first_candidates(origin, n).len() == n,
        forall|path: Seq<char>| #[trigger]
            first_candidates(origin, n).contains(path) <==> exists|k: nat|
                k < n && path == #[trigger] candidate(origin, k),
    decreases n,
{
    if n > 0 {
        let m = (n - 1) as nat;
        lemma_first_candidates(origin, m);
        let before = first_candidates(origin, m);
        let after = first_candidates(origin, n);
        if before.contains(candidate(origin, m)) {
            let k = choose|k: nat| k < m && candidate(origin, m) == #[trigger] candidate(origin, k);
            law_candidates_distinct(origin, k, m);
        }
        assert forall|path: Seq<char>| #[trigger] after.contains(path) <==> exists|k: nat|
            k < n && path == #[trigger] candidate(origin, k) by {
            if after.contains(path) && path != candidate(origin, m) {
                assert(before.contains(path));
                let k = choose|k: nat| k < m && path == #[trigger] candidate(origin, k);
                assert(k < n && path == candidate(origin, k));
            }
            if exists|k: nat| k < n && path == #[trigger] candidate(origin, k) {
                let k = choose|k: nat| k < n && path == #[trigger] candidate(origin, k);
                if k < m {
                    assert(before.contains(path));
                }
            }
        }
    }
}

/// Among as many paths as are in use and one more there is one that is not: the search ends after at
/// most as many numbers as there are paths in use.
pub proof fn law_free_path_is_found(origin: Seq<char>, in_use: Set<Seq<char>>)
    requires
        file_name(origin) is Some,
        in_use.finite(),
    ensures
        exists|k: nat| k <= in_use.len() && !in_use.contains(#[trigger] candidate(origin, k)),
{
    let n = in_use.len() + 1;
    let tried = first_candidates(origin, n);
    lemma_first_candidates(origin, n);
    if forall|k: nat| k <= in_use.len() ==> in_use.contains(#[trigger] candidate(origin, k)) {
        assert forall|path: Seq<char>| #[trigger] tried.contains(path) implies in_use.contains(
            path,
        ) by {
            let k = choose|k: nat| k < n && path == #[trigger] candidate(origin, k);
            assert(in_use.contains(candidate(origin, k)));
        }
        vstd::set_lib::lemma_len_subset(tried, in_use);
    }
}

/// A downloaded file stays in the directory that it was downloaded to, whatever the server says of
/// its name.
pub proof fn law_target_stays(local_path: Seq<char>, info: DownloadItemInfo, k: nat)
    requires
        info.nameable(),
        file_name(local_path) is Some,
        info.spec_file_name() matches Some(name) && name.len() > 0,
    ensures
        ({
            let origin = with_file_name(local_path, info.spec_file_name().unwrap());
            &&& file_name(origin) == info.spec_file_name()
            &&& parent(candidate(origin, k)) == parent(local_path)
        }),
{
    let name = info.spec_file_name().unwrap();
    law_file_name_stays(info);
    law_renamed_in_place(local_path, name);
    law_candidates(with_file_name(local_path, name), k);
}

/// The links that are handed out are those whose reservation changed a row, all of them and in order,
/// each as it was read but for the place of its file, which is the cache file of its URL.
pub proof fn law_reserved_links(links: Seq<(u64, TableDownload)>, dir: Seq<char>)
    ensures
        reserved_links(links, dir) == links.filter(|link: (u64, TableDownload)| link.0 > 0).map_values(
            |link: (u64, TableDownload)|
                LinkView {
                    local_path: cache_file(dir, text_writes(link.1.download_url@)),
                    ..link.1@
                },
        ),
    decreases links.len(),
{
    reveal(Seq::filter);
    let changed = |link: (u64, TableDownload)| link.0 > 0;
    let placed = |link: (u64, TableDownload)|
        LinkView { local_path: cache_file(dir, text_writes(link.1.download_url@)), ..link.1@ };
    if links.len() > 0 {
        law_reserved_links(links.drop_last(), dir);
    }
    assert(reserved_links(links, dir) =~= links.filter(changed).map_values(placed));
}

/// A link that is handed out was reserved, and one that was reserved is handed out.
pub proof fn law_reserved_contains(links: Seq<(u64, TableDownload)>, dir: Seq<char>, link: LinkView)
    ensures
        reserved_links(links, dir).contains(link) <==> exists|i: int|
            0 <= i < links.len() && (#[trigger] links[i]).0 > 0 && link == (LinkView {
                local_path: cache_file(dir, text_writes(links[i].1.download_url@)),
                ..links[i].1@
            }),
{
    let changed = |link: (u64, TableDownload)| link.0 > 0;
    let kept = links.filter(changed);
    let done = reserved_links(links, dir);
    law_reserved_links(links, dir);
    if done.contains(link) {
        let k = choose|k: int| 0 <= k < done.len() && done[k] == link;
        links.lemma_filter_pred(changed, k);
        assert(kept.contains(kept[k]));
        links.lemma_filter_contains_rev(changed, kept[k]);
        let i = choose|i: int| 0 <= i < links.len() && links[i] == kept[k];
        assert(links[i].0 > 0);
    }
    if exists|i: int|
        0 <= i < links.len() && (#[trigger] links[i]).0 > 0 && link == (LinkView {
            local_path: cache_file(dir, text_writes(links[i].1.download_url@)),
            ..links[i].1@
        }) {
        let i = choose|i: int|
            0 <= i < links.len() && (#[trigger] links[i]).0 > 0 && link == (LinkView {
                local_path: cache_file(dir, text_writes(links[i].1.download_url@)),
                ..links[i].1@
            });
        links.lemma_filter_contains(changed, i);
        let k = choose|k: int| 0 <= k < kept.len() && kept[k] == links[i];
        assert(done[k] == link);
    }
}

/// A link stands for all of its fields.
pub proof fn law_link_view(link: TableDownload, links: Seq<TableDownload>)
    ensures
        link@.site_id == link.site_id,
        link@.download_url == link.download_url@,
        link@.local_path == link.local_path@,
        link@.attempts == link.attempts,
        link@.last_attempt_at == link.last_attempt_at,
        link_views(links).len() == links.len(),
        forall|i: int| 0 <= i < links.len() ==> #[trigger] link_views(links)[i] == links[i]@,
{
}

/// A reservation takes a row exactly if that is still as it was read and not completed; the row is then
/// one attempt further, at the time of the reservation.
pub proof fn law_reservation(link: LinkView, now: i64, reservation: Reservation, row: DownloadRow)
    requires
        reservation.is_of(link, now),
        link.attempts < i64::MAX,
    ensures
        reservation.takes(row) <==> row.site_id == link.site_id && row.download_url
            == link.download_url && row.attempts == link.attempts && row.last_attempt_at
            == link.last_attempt_at && !row.completed,
        reservation.taken(row).attempts == link.attempts + 1,
        reservation.taken(row).last_attempt_at == Some(now),
{
}

/// A link is due exactly if it is one of the site, wanted, not completed, was reserved fewer than five
/// times, and not in the last three hours.
pub proof fn law_due(search: DueLinks, row: DownloadRow, now: int)
    requires
        search.time_limit == now - RESERVATION_SECONDS,
    ensures
        search.finds(row) <==> row.site_id == search.site_id && row.enable && !row.completed
            && row.attempts < 5 && (row.last_attempt_at matches Some(time) ==> now - time > 3 * 60
            * 60),
{
}

/// A link is searched for without its query, and whatever follows that.
pub proof fn law_link_search(link: Seq<char>, search: LinkSearch, row: DownloadRow)
    requires
        search.pattern@ == link_pattern(link),
    ensures
        search.pattern@ == url_bare(link).unwrap() + seq!['%'],
        search.finds(row) <==> is_like(row.download_url, search.pattern@) && row.attempts < 5,
{
    assert(url_bare(link).unwrap().push('%') =~= url_bare(link).unwrap() + seq!['%']);
}

/// A link that is found begins with the text that is searched for, letters of ASCII in either case,
/// unless that text holds `%` or `_`.
pub proof fn law_found_has_prefix(prefix: Seq<char>, text: Seq<char>)
    requires
        forall|i: int|
            0 <= i < prefix.len() ==> #[trigger] prefix[i] != '%' && prefix[i] != '_',
        is_like(text, prefix.push('%')),
    ensures
        prefix.len() <= text.len(),
        forall|i: int| 0 <= i < prefix.len() ==> small(#[trigger] prefix[i]) == small(text[i]),
    decreases prefix.len(),
{
    let pattern = prefix.push('%');
    if prefix.len() > 0 {
        assert(pattern.first() == prefix[0]);
        let rest = prefix.drop_first();
        assert(pattern.drop_first() =~= rest.push('%'));
        assert forall|i: int| 0 <= i < rest.len() implies #[trigger] rest[i] != '%' && rest[i]
            != '_' by {
            assert(prefix[i + 1] != '%' && prefix[i + 1] != '_');
        }
        law_found_has_prefix(rest, text.drop_first());
        assert forall|i: int| 0 <= i < prefix.len() implies small(#[trigger] prefix[i]) == small(
            text[i],
        ) by {
            if i > 0 {
                assert(prefix[i] == rest[i - 1]);
                assert(text[i] == text.drop_first()[i - 1]);
            }
        }
    }
}

/// The paths that are tried keep the extension of the path that is wanted, however long it is, and where
/// that has none, or an empty one, they have none. Their prefix is that of the path that is wanted with a
/// number behind it.
pub proof fn law_candidates_keep_extension(origin: Seq<char>, k: nat)
    requires
        file_name(origin) is Some,
        k > 0,
    ensures
        extension(origin) matches Some(ext) && ext.len() > 0 ==> extension(candidate(origin, k))
            == extension(origin),
        (extension(origin) matches Some(ext) ==> ext.len() == 0) ==> extension(
            candidate(origin, k),
        ) is None,
        file_prefix(candidate(origin, k)) == Some(
            file_prefix(origin)->0 + seq!['_'] + digits(k, 10),
        ),
{
    reveal_strlit("_");
    law_candidates(origin, k);
    lemma_numbered(origin, k);
    let name = last_component(origin);
    let prefix = name_prefix(name);
    let stem = numbered_stem(origin, k);
    let full = numbered_name(origin, k);
    let ext = extension_or_empty(origin);
    lemma_prefix_shape(name);
    lemma_last_dot_place(name);
    lemma_last_dot_place(stem);
    lemma_decimal_value_of_digits(k);
    assert(stem =~= prefix + seq!['_'] + digits(k, 10));
    if ext.len() > 0 {
        assert forall|i: int| 0 <= i < ext.len() implies #[trigger] ext[i] != '.' by {
            assert(ext[i] == name[last_dot(name) + 1 + i]);
        }
        lemma_last_dot(stem.push('.'), ext);
        assert(full.skip(stem.len() as int + 1) =~= ext);
    }
    assert forall|i: int| 1 <= i < stem.len() implies full[i] != '.' by {
        assert(full[i] == stem[i]);
    }
    lemma_prefix(full, stem.len() as int);
    assert(full.take(stem.len() as int) =~= stem);
}

/// The file name of a path that is tried: the prefix of the one that is wanted, a number, and the
/// extension of the one that is wanted, if it has one.
pub proof fn law_candidate_name(origin: Seq<char>, k: nat)
    requires
        file_name(origin) is Some,
        k > 0,
    ensures
        ({
            let stem = file_prefix(origin)->0 + seq!['_'] + digits(k, 10);
            file_name(candidate(origin, k)) == Some(
                match extension(origin) {
                    Some(ext) => if ext.len() > 0 {
                        stem + seq!['.'] + ext
                    } else {
                        stem
                    },
                    None => stem,
                },
            )
        }),
        candidate(origin, 0) == origin,
{
    reveal_strlit("_");
    law_candidates(origin, k);
    let stem = file_prefix(origin)->0 + seq!['_'] + digits(k, 10);
    assert(numbered_stem(origin, k) =~= stem);
    if let Some(ext) = extension(origin) {
        assert(stem.push('.') + ext =~= stem + seq!['.'] + ext);
    }
}

} // verus!
