//! What holds of the rule lists of pages.
use crate::error::GrabError;
use crate::numbers::{
    decimal, digits, is_digit, law_parse_inverts_decimal, lemma_decimal_value_of_digits,
    parse_integer,
};
use crate::pages::{group_ids, list_parts, rules_group, LinkLoad, LoadStep};
use crate::rules::{spec_process_group, TablePageRule};
use crate::text::{join, split, trim, trim_by, trim_end, trim_start, views, Trimmed};
use crate::text_laws::{lacks, law_split_of_join, law_trim_nothing};
use vstd::prelude::*;

verus! {

/// The numbers as texts.
pub open spec fn decimals(ids: Seq<i64>) -> Seq<Seq<char>> {
    ids.map_values(|id: i64| decimal(id as int))
}

/// A list of numbers as a JSON array.
pub open spec fn json_array(ids: Seq<i64>) -> Seq<char> {
    seq!['['] + join(decimals(ids), seq![',', ' ']) + seq![']']
}

/// The numbers other than zero, in order.
pub open spec fn nonzero(ids: Seq<i64>) -> Seq<i64> {
    ids.filter(|id: i64| id != 0)
}

/// The texts, each but the first with a space before it.
spec fn spaced(parts: Seq<Seq<char>>) -> Seq<Seq<char>> {
    Seq::new(
        parts.len(),
        |i: int|
            if i == 0 {
                parts[i]
            } else {
                seq![' '] + parts[i]
            },
    )
}

/// What stands in a number.
proof fn lemma_decimal(n: int)
    ensures
        decimal(n).len() > 0,
        forall|i: int|
            0 <= i < decimal(n).len() ==> is_digit(#[trigger] decimal(n)[i]) || decimal(n)[i] == '-',
        is_digit(decimal(n).last()),
{
    let s = decimal(n);
    if n < 0 {
        lemma_decimal_value_of_digits((-n) as nat);
        let body = digits((-n) as nat, 10);
        assert forall|i: int| 0 <= i < s.len() implies is_digit(#[trigger] s[i]) || s[i] == '-' by {
            if i > 0 {
                assert(s[i] == body[i - 1]);
            }
        }
        assert(s.last() == body[body.len() - 1]);
    } else {
        lemma_decimal_value_of_digits(n as nat);
        assert(s.last() == s[s.len() - 1]);
    }
}

/// A comma and a space between the texts come to a comma before each of the spaced texts.
proof fn lemma_join_spaced(parts: Seq<Seq<char>>)
    ensures
        join(parts, seq![',', ' ']) == join(spaced(parts), seq![',']),
    decreases parts.len(),
{
    if parts.len() > 1 {
        lemma_join_spaced(parts.drop_last());
        assert(spaced(parts).drop_last() =~= spaced(parts.drop_last()));
        let before = join(parts.drop_last(), seq![',', ' ']);
        assert(before + seq![',', ' '] + parts.last() =~= before + seq![','] + (seq![' ']
            + parts.last()));
    }
}

/// Numbers in a row begin and end like numbers.
proof fn lemma_row_ends(ids: Seq<i64>)
    requires
        ids.len() > 0,
    ensures
        ({
            let row = join(decimals(ids), seq![',', ' ']);
            &&& row.len() > 0
            &&& is_digit(row.first()) || row.first() == '-'
            &&& is_digit(row.last())
        }),
    decreases ids.len(),
{
    let parts = decimals(ids);
    lemma_decimal(ids.last() as int);
    let row = join(parts, seq![',', ' ']);
    if ids.len() == 1 {
        assert(row == decimal(ids.last() as int));
    } else {
        lemma_row_ends(ids.drop_last());
        assert(parts.drop_last() =~= decimals(ids.drop_last()));
        let before = join(parts.drop_last(), seq![',', ' ']);
        assert(row.first() == before.first());
        assert(row.last() == parts.last().last());
    }
}

/// The parts of a JSON array of numbers are the numbers.
proof fn lemma_json_parts(ids: Seq<i64>)
    requires
        ids.len() > 0,
    ensures
        list_parts(json_array(ids)) == decimals(ids),
{
    let parts = decimals(ids);
    let row = join(parts, seq![',', ' ']);
    let list = json_array(ids);
    lemma_row_ends(ids);
    law_trim_nothing(list, Trimmed::WhiteSpace);
    let rest = row + seq![']'];
    assert(list.drop_first() =~= rest);
    assert(rest.first() == row.first());
    assert(trim_start(list, Trimmed::Brackets) == trim_start(rest, Trimmed::Brackets));
    assert(trim_start(rest, Trimmed::Brackets) == rest);
    assert(rest.drop_last() =~= row);
    assert(trim_end(rest, Trimmed::Brackets) == trim_end(row, Trimmed::Brackets));
    assert(trim_by(trim(list), Trimmed::Brackets) == row);
    let apart = spaced(parts);
    lemma_join_spaced(parts);
    assert forall|i: int| 0 <= i < apart.len() implies lacks(#[trigger] apart[i], ',') && trim(
        apart[i],
    ) == parts[i] by {
        let part = parts[i];
        lemma_decimal(ids[i] as int);
        assert(part == decimal(ids[i] as int));
        assert forall|k: int| 0 <= k < apart[i].len() implies #[trigger] apart[i][k] != ',' by {
            if i == 0 {
                assert(apart[i][k] == part[k]);
            } else if k > 0 {
                assert(apart[i][k] == part[k - 1]);
            }
        }
        assert(is_digit(part[0]) || part[0] == '-');
        law_trim_nothing(part, Trimmed::WhiteSpace);
        if i > 0 {
            assert(apart[i].drop_first() =~= part);
        }
    }
    law_split_of_join(apart, ',');
    assert(list_parts(list) =~= parts);
}

/// Numbers are the rule groups that they stand for, but for zeros, which stand for none.
proof fn lemma_group_ids(ids: Seq<i64>)
    ensures
        group_ids(decimals(ids)) == Ok::<_, GrabError>(nonzero(ids)),
    decreases ids.len(),
{
    reveal(Seq::filter);
    if ids.len() > 0 {
        assert(decimals(ids).drop_last() =~= decimals(ids.drop_last()));
        lemma_group_ids(ids.drop_last());
        lemma_decimal(ids.last() as int);
        law_parse_inverts_decimal(ids.last());
    } else {
        assert(nonzero(ids) =~= Seq::empty());
    }
}

/// The rule groups of a page are those that its JSON array lists, in that order, without the zeros;
/// an empty array lists none.
pub proof fn law_rules_of_json_array(ids: Seq<i64>)
    ensures
        rules_group(json_array(ids)) == Ok::<_, GrabError>(nonzero(ids)),
        (forall|i: int| 0 <= i < ids.len() ==> #[trigger] ids[i] != 0) ==> rules_group(
            json_array(ids),
        ) == Ok::<_, GrabError>(ids),
{
    lemma_nonzero(ids);
    if ids.len() > 0 {
        lemma_json_parts(ids);
        lemma_group_ids(ids);
    } else {
        let list = json_array(ids);
        assert(list =~= seq!['[', ']']);
        law_trim_nothing(list, Trimmed::WhiteSpace);
        assert(list.drop_first() =~= seq![']']);
        assert(seq![']'].drop_first() =~= Seq::<char>::empty());
        assert(trim_start(seq![']'], Trimmed::Brackets) == trim_start(
            Seq::<char>::empty(),
            Trimmed::Brackets,
        ));
        assert(trim_by(trim(list), Trimmed::Brackets) =~= Seq::<char>::empty());
        let parts = list_parts(list);
        assert(split(Seq::<char>::empty(), ',') =~= seq![Seq::<char>::empty()]);
        assert(parts =~= seq![Seq::<char>::empty()]);
        assert(parts.drop_last() =~= Seq::empty());
        assert(group_ids(parts.drop_last()) == Ok::<_, GrabError>(Seq::<i64>::empty()));
        reveal(Seq::filter);
        assert(nonzero(ids) =~= Seq::empty());
    }
}

/// A list without zeros stays as it is.
proof fn lemma_nonzero(ids: Seq<i64>)
    ensures
        (forall|i: int| 0 <= i < ids.len() ==> #[trigger] ids[i] != 0) ==> nonzero(ids) == ids,
    decreases ids.len(),
{
    reveal(Seq::filter);
    if ids.len() > 0 {
        lemma_nonzero(ids.drop_last());
        if forall|i: int| 0 <= i < ids.len() ==> #[trigger] ids[i] != 0 {
            assert forall|i: int| 0 <= i < ids.drop_last().len() implies #[trigger] ids.drop_last()[i]
                != 0 by {
                assert(ids[i] != 0);
            }
            assert(ids[ids.len() - 1] != 0);
            assert(ids.drop_last().push(ids.last()) =~= ids);
        }
    } else {
        assert(nonzero(ids) =~= ids);
    }
}

/// The rule groups of a page are never zero.
pub proof fn law_no_group_is_zero(parts: Seq<Seq<char>>)
    ensures
        group_ids(parts) matches Ok(ids) ==> forall|i: int|
            0 <= i < ids.len() ==> #[trigger] ids[i] != 0,
    decreases parts.len(),
{
    if parts.len() > 0 {
        law_no_group_is_zero(parts.drop_last());
    }
}

/// The rules of each group.
pub type GroupRules = spec_fn(i64) -> Seq<TablePageRule>;

/// What links lead to.
pub type Behind = spec_fn(Seq<Seq<char>>) -> Seq<Seq<char>>;

/// What the groups, one after another, leave of the contents: the first is applied to these, and each
/// of the others to what the links that the one before it left lead to.
pub open spec fn run_groups(
    groups: Seq<i64>,
    rules: GroupRules,
    behind: Behind,
    contents: Seq<Seq<char>>,
) -> Result<Seq<Seq<char>>, GrabError>
    decreases groups.len(),
{
    if groups.len() == 0 {
        Ok(contents)
    } else {
        match spec_process_group(rules(groups.first()), contents) {
            Ok(links) => if groups.len() == 1 {
                Ok(links)
            } else {
                run_groups(groups.drop_first(), rules, behind, behind(links))
            },
            Err(err) => Err(err),
        }
    }
}

/// The order of the groups is the order in which they are applied: what some groups and then others
/// leave is what the others leave of what the links of the first lead to.
pub proof fn law_groups_in_order(
    first: Seq<i64>,
    then: Seq<i64>,
    rules: GroupRules,
    behind: Behind,
    contents: Seq<Seq<char>>,
)
    requires
        first.len() > 0,
        then.len() > 0,
    ensures
        run_groups(first + then, rules, behind, contents) == match run_groups(
            first,
            rules,
            behind,
            contents,
        ) {
            Ok(links) => run_groups(then, rules, behind, behind(links)),
            Err(err) => Err(err),
        },
    decreases first.len(),
{
    assert((first + then).drop_first() =~= first.drop_first() + then);
    if first.len() == 1 {
        assert((first + then).drop_first() =~= then);
    } else if let Ok(links) = spec_process_group(rules(first.first()), contents) {
        law_groups_in_order(first.drop_first(), then, rules, behind, behind(links));
    }
}

/// What the search for links in a page will come to.
pub open spec fn outcome(load: LinkLoad, rules: GroupRules, behind: Behind) -> Result<
    Seq<Seq<char>>,
    GrabError,
> {
    let contents = views(load.contents@);
    match load.spec_next_step() {
        LoadStep::Done => Ok(contents),
        LoadStep::ApplyGroup(_) => run_groups(
            load.groups@.skip(load.applied as int),
            rules,
            behind,
            contents,
        ),
        LoadStep::FollowLinks => run_groups(
            load.groups@.skip(load.applied as int),
            rules,
            behind,
            behind(contents),
        ),
    }
}

/// The search begins with what the groups of the page, in order, leave of its content.
pub proof fn law_load_starts(load: LinkLoad, rules: GroupRules, behind: Behind)
    requires
        load.applied == 0,
        load.fetched,
    ensures
        outcome(load, rules, behind) == run_groups(
            load.groups@,
            rules,
            behind,
            views(load.contents@),
        ),
{
    assert(load.groups@.skip(0) =~= load.groups@);
}

/// Applying the next group, or failing at it, leads to what the search comes to.
pub proof fn law_load_applies(
    load: LinkLoad,
    group: i64,
    rules: GroupRules,
    behind: Behind,
    res: Result<LinkLoad, GrabError>,
)
    requires
        load.spec_next_step() == LoadStep::ApplyGroup(group),
        load.applied_as(rules(group), res),
    ensures
        match res {
            Ok(next) => outcome(next, rules, behind) == outcome(load, rules, behind),
            Err(err) => outcome(load, rules, behind) == Err::<Seq<Seq<char>>, _>(err),
        },
{
    let rest = load.groups@.skip(load.applied as int);
    assert(rest.first() == group);
    assert(rest.drop_first() =~= load.groups@.skip(load.applied + 1));
}

/// Following the links leads to what the search comes to.
pub proof fn law_load_follows(load: LinkLoad, rules: GroupRules, behind: Behind, next: LinkLoad)
    requires
        load.spec_next_step() is FollowLinks,
        next.groups == load.groups,
        next.applied == load.applied,
        next.fetched,
        views(next.contents@) == behind(views(load.contents@)),
    ensures
        outcome(next, rules, behind) == outcome(load, rules, behind),
{
}

/// A blank part and a zero stand for no group, another number for itself, and anything else makes the
/// list invalid.
pub proof fn law_group_of_part(part: Seq<char>)
    ensures
        group_ids(Seq::empty()) == Ok::<_, GrabError>(Seq::<i64>::empty()),
        group_ids(seq![part]) == (match parse_integer(part) {
            _ if part.len() == 0 => Ok(Seq::empty()),
            None => Err(GrabError::InvalidRuleId),
            Some(0) => Ok(Seq::empty()),
            Some(id) => Ok(seq![id]),
        }),
{
    let parts = seq![part];
    assert(parts.drop_last() =~= Seq::empty());
    assert(group_ids(parts.drop_last()) == Ok::<_, GrabError>(Seq::<i64>::empty()));
    assert(parts.last() == part);
    if let Some(id) = parse_integer(part) {
        assert(Seq::<i64>::empty().push(id) =~= seq![id]);
    }
}

/// The groups of some parts and others are those of the ones and then of the others; a part that is
/// invalid makes all of it invalid.
pub proof fn law_groups_add(a: Seq<Seq<char>>, b: Seq<Seq<char>>)
    ensures
        group_ids(a + b) == (match (group_ids(a), group_ids(b)) {
            (Ok(x), Ok(y)) => Ok(x + y),
            _ => Err(GrabError::InvalidRuleId),
        }),
    decreases b.len(),
{
    lemma_group_error(a);
    lemma_group_error(b);
    if b.len() == 0 {
        assert(a + b =~= a);
        if let Ok(x) = group_ids(a) {
            assert(x + Seq::<i64>::empty() =~= x);
        }
    } else {
        assert((a + b).drop_last() =~= a + b.drop_last());
        assert((a + b).last() == b.last());
        law_groups_add(a, b.drop_last());
        match (group_ids(a), group_ids(b.drop_last()), parse_integer(b.last())) {
            (Ok(x), Ok(y), Some(id)) => {
                assert((x + y).push(id) =~= x + y.push(id));
            },
            _ => {},
        }
    }
}

/// A list is invalid for one reason alone.
proof fn lemma_group_error(parts: Seq<Seq<char>>)
    ensures
        group_ids(parts) matches Err(err) ==> err == GrabError::InvalidRuleId,
    decreases parts.len(),
{
    if parts.len() > 0 {
        lemma_group_error(parts.drop_last());
    }
}

/// The parts of a list are what stands between its commas, once the white space and then the brackets at
/// its ends are taken off, each part without the white space at its ends.
pub proof fn law_list_parts(list: Seq<char>, parts: Seq<Seq<char>>)
    requires
        parts.len() > 0,
        forall|i: int| 0 <= i < parts.len() ==> lacks(#[trigger] parts[i], ','),
        trim_by(trim_by(list, Trimmed::WhiteSpace), Trimmed::Brackets) == join(parts, seq![',']),
    ensures
        list_parts(list).len() == parts.len(),
        forall|i: int|
            0 <= i < parts.len() ==> #[trigger] list_parts(list)[i] == trim_by(
                parts[i],
                Trimmed::WhiteSpace,
            ),
        rules_group(list) == group_ids(list_parts(list)),
{
    law_split_of_join(parts, ',');
}

/// The search for links is done exactly if all groups were applied. Before that the next group is applied
/// to what was fetched, and links are followed first.
pub proof fn law_next_step(load: LinkLoad)
    ensures
        load.spec_next_step() is Done <==> load.applied >= load.groups@.len(),
        load.spec_next_step() is FollowLinks <==> load.applied < load.groups@.len() && !load.fetched,
        load.spec_next_step() matches LoadStep::ApplyGroup(group) ==> load.applied
            < load.groups@.len() && group == load.groups@[load.applied as int],
{
}

/// What applying a group comes to: one group more is applied, what is left are its links, not followed
/// yet, or it fails as the group does.
pub proof fn law_applied(
    load: LinkLoad,
    rules: Seq<TablePageRule>,
    res: Result<LinkLoad, GrabError>,
)
    requires
        load.applied_as(rules, res),
    ensures
        res is Ok <==> spec_process_group(rules, views(load.contents@)) is Ok,
        res matches Ok(next) ==> {
            &&& next.groups@ == load.groups@
            &&& next.applied == load.applied + 1
            &&& !next.fetched
            &&& spec_process_group(rules, views(load.contents@)) == Ok::<_, GrabError>(
                views(next.contents@),
            )
        },
        res matches Err(err) ==> spec_process_group(rules, views(load.contents@)) == Err::<
            Seq<Seq<char>>,
            _,
        >(err),
{
}

/// A single group leaves what its rules make of the contents, and no group leaves them as they are.
pub proof fn law_groups_one(
    group: i64,
    rules: GroupRules,
    behind: Behind,
    contents: Seq<Seq<char>>,
)
    ensures
        run_groups(Seq::empty(), rules, behind, contents) == Ok::<_, GrabError>(contents),
        run_groups(seq![group], rules, behind, contents) == spec_process_group(
            rules(group),
            contents,
        ),
{
    assert(seq![group].first() == group);
}

} // verus!
