//! What holds of the rules.
use crate::error::GrabError;
use crate::rules::{
    all_applicable, all_compile, kept, ordered_spans, pieces, regex_compiles, regex_replaced,
    regex_spans, spec_process_all, spec_process_each, spec_process_group, spliced, text_result,
    texts_result, TablePageRule,
};
use crate::text::{join, nonblank_lines, split, views, Trimmed};
use crate::text_laws::{
    bare_ends, lacks, law_join_add, law_join_flat, law_nonblank_add, law_nonblank_lines,
    law_split_of_join, lemma_filter_pred, lemma_join_chars,
};
use vstd::prelude::*;

verus! {

/// Each match that is kept stands on a line of its own: the lines are the matches that are not empty.
/// This is so unless a match spans several lines, or nothing is kept, which leaves one empty line.
pub proof fn law_kept_lines(found: Seq<Seq<char>>)
    requires
        forall|i: int| 0 <= i < found.len() ==> lacks(#[trigger] found[i], '\n'),
        exists|i: int| 0 <= i < found.len() && (#[trigger] found[i]).len() > 0,
    ensures
        split(kept(found), '\n') == found.filter(|piece: Seq<char>| piece.len() > 0),
{
    let keep = |piece: Seq<char>| piece.len() > 0;
    let lines = found.filter(keep);
    assert forall|i: int| 0 <= i < lines.len() implies lacks(#[trigger] lines[i], '\n') by {
        lemma_filter_pred(found, keep, i);
        let k = choose|k: int| 0 <= k < found.len() && found[k] == lines[i];
        assert(lacks(found[k], '\n'));
    }
    let k = choose|k: int| 0 <= k < found.len() && (#[trigger] found[k]).len() > 0;
    found.lemma_filter_contains(keep, k);
    assert(lines.len() > 0);
    reveal_strlit("\n");
    assert("\n"@ =~= seq!['\n']);
    law_split_of_join(lines, '\n');
}

/// Rules are applied one after another: what some rules and then others make of a content is what
/// the others make of what the first left.
pub proof fn law_rules_in_order(
    first: Seq<TablePageRule>,
    then: Seq<TablePageRule>,
    content: Seq<char>,
)
    ensures
        spec_process_all(first + then, content) == match spec_process_all(first, content) {
            Ok(text) => spec_process_all(then, text),
            Err(err) => Err(err),
        },
    decreases first.len(),
{
    if first.len() == 0 {
        assert(first + then =~= then);
    } else {
        assert((first + then).first() == first.first());
        assert((first + then).drop_first() =~= first.drop_first() + then);
        match first.first().spec_process(content) {
            Ok(text) => law_rules_in_order(first.drop_first(), then, text),
            Err(_) => {},
        }
    }
}

/// Rules fail exactly if the filter of one of them is not a regular expression, whatever the content.
pub proof fn law_rules_fail(rules: Seq<TablePageRule>, content: Seq<char>)
    ensures
        spec_process_all(rules, content) is Ok <==> all_compile(rules),
        spec_process_all(rules, content) matches Err(err) ==> err == GrabError::InvalidFilter,
    decreases rules.len(),
{
    if rules.len() > 0 {
        let rest = rules.drop_first();
        match rules.first().spec_process(content) {
            Ok(text) => {
                law_rules_fail(rest, text);
                if all_compile(rest) {
                    assert forall|i: int| 0 <= i < rules.len() implies regex_compiles(
                        (#[trigger] rules[i]).filter@,
                    ) by {
                        if i > 0 {
                            assert(rules[i] == rest[i - 1]);
                        }
                    }
                }
                if all_compile(rules) {
                    assert forall|i: int| 0 <= i < rest.len() implies regex_compiles(
                        (#[trigger] rest[i]).filter@,
                    ) by {
                        assert(rest[i] == rules[i + 1]);
                    }
                }
            },
            Err(_) => {
                assert(!regex_compiles(rules[0].filter@));
            },
        }
    }
}

/// How many characters the spans take.
pub open spec fn total(spans: Seq<(int, int)>) -> int
    decreases spans.len(),
{
    if spans.len() == 0 {
        0
    } else {
        total(spans.drop_last()) + spans.last().1 - spans.last().0
    }
}

/// A text whose matches were replaced is as long as what was left and what was put in.
pub proof fn law_spliced_length(
    content: Seq<char>,
    spans: Seq<(int, int)>,
    replacement: Seq<char>,
)
    requires
        ordered_spans(spans, content.len()),
    ensures
        spliced(content, spans, replacement).len() == content.len() - total(spans) + spans.len()
            * replacement.len(),
    decreases spans.len(),
{
    if spans.len() > 0 {
        let last = spans.last();
        let front = content.take(last.0);
        assert(last == spans[spans.len() - 1]);
        assert forall|i: int| 0 <= i < spans.drop_last().len() implies 0
            <= (#[trigger] spans.drop_last()[i]).0 <= spans.drop_last()[i].1 <= front.len() by {
            assert(spans.drop_last()[i] == spans[i]);
            assert(spans[i].1 <= spans[spans.len() - 1].0);
        }
        assert forall|i: int, j: int|
            0 <= i < j < spans.drop_last().len() implies (#[trigger] spans.drop_last()[i]).1 <= (
        #[trigger] spans.drop_last()[j]).0 by {
            assert(spans[i].1 <= spans[j].0);
        }
        law_spliced_length(front, spans.drop_last(), replacement);
        let n = spans.drop_last().len() as int;
        let m = replacement.len() as int;
        assert((n + 1) * m == n * m + m) by (nonlinear_arith);
    }
}

/// The links that the rules of a group leave are single lines, trimmed and not blank.
pub proof fn law_links_are_lines(rules: Seq<TablePageRule>, contents: Seq<Seq<char>>)
    ensures
        spec_process_group(rules, contents) matches Ok(links) ==> forall|i: int|
            0 <= i < links.len() ==> {
                let link = #[trigger] links[i];
                link.len() > 0 && bare_ends(link, Trimmed::WhiteSpace) && lacks(link, '\n')
            },
{
    match spec_process_each(rules, contents) {
        Ok(texts) => law_nonblank_lines(join(texts, "\n"@)),
        Err(_) => {},
    }
}

/// A rule fails exactly if its filter is not a regular expression.
pub proof fn law_rule_fails(rule: TablePageRule, content: Seq<char>)
    ensures
        rule.spec_process(content) is Err <==> !regex_compiles(rule.filter@),
        rule.spec_process(content) matches Err(err) ==> err == GrabError::InvalidFilter,
{
}

/// An `include` rule leaves the matches that are not empty, in order, each with a line break behind it
/// but for the last, and nothing else. This is so of every content, on one line or several.
pub proof fn law_include(rule: TablePageRule, content: Seq<char>)
    requires
        regex_compiles(rule.filter@),
        rule.action@ == "include"@,
    ensures
        rule.spec_process(content) matches Ok(text) && ({
            let found = regex_spans(rule.filter@, content).map_values(
                |span: (int, int)| content.subrange(span.0, span.1),
            ).filter(|piece: Seq<char>| piece.len() > 0);
            &&& found.len() == 0 ==> text.len() == 0
            &&& found.len() > 0 ==> text + seq!['\n'] == found.flat_map(
                |piece: Seq<char>| piece + seq!['\n'],
            )
        }),
{
    let found = regex_spans(rule.filter@, content).map_values(
        |span: (int, int)| content.subrange(span.0, span.1),
    ).filter(|piece: Seq<char>| piece.len() > 0);
    reveal_strlit("\n");
    assert("\n"@ =~= seq!['\n']);
    law_join_flat(found, seq!['\n']);
}

/// Whether the place `p` lies in one of the spans.
pub open spec fn in_span(spans: Seq<(int, int)>, p: int) -> bool {
    exists|i: int| 0 <= i < spans.len() && (#[trigger] spans[i]).0 <= p < spans[i].1
}

/// Each character that an `include` rule leaves is a line break or stands in a match; where there is no
/// match, nothing is left.
pub proof fn law_include_only_matches(rule: TablePageRule, content: Seq<char>)
    requires
        regex_compiles(rule.filter@),
        rule.action@ == "include"@,
        ordered_spans(regex_spans(rule.filter@, content), content.len()),
    ensures
        rule.spec_process(content) matches Ok(text) && ({
            let spans = regex_spans(rule.filter@, content);
            &&& spans.len() == 0 ==> text.len() == 0
            &&& forall|j: int|
                0 <= j < text.len() ==> #[trigger] text[j] == '\n' || exists|p: int|
                    0 <= p < content.len() && #[trigger] in_span(spans, p) && content[p] == text[j]
        }),
{
    let spans = regex_spans(rule.filter@, content);
    let keep = |piece: Seq<char>| piece.len() > 0;
    let all = pieces(content, spans);
    let found = all.filter(keep);
    let text = rule.spec_process(content)->Ok_0;
    reveal_strlit("\n");
    if spans.len() == 0 {
        reveal(Seq::filter);
    }
    assert forall|j: int| 0 <= j < text.len() implies #[trigger] text[j] == '\n' || exists|p: int|
        0 <= p < content.len() && #[trigger] in_span(spans, p) && content[p] == text[j] by {
        lemma_join_chars(found, "\n"@, j);
        if text[j] != '\n' {
            let i = choose|i: int| 0 <= i < found.len() && (#[trigger] found[i]).contains(text[j]);
            lemma_filter_pred(all, keep, i);
            let k = choose|k: int| 0 <= k < all.len() && all[k] == found[i];
            let m = choose|m: int| 0 <= m < found[i].len() && found[i][m] == text[j];
            let span = spans[k];
            assert(all[k] == content.subrange(span.0, span.1));
            assert(content[span.0 + m] == text[j]);
            assert(spans[k].0 <= span.0 + m < spans[k].1);
            assert(in_span(spans, span.0 + m));
        }
    }
}

/// What stands before the span at `i`: from the end of the span before it, or from the start.
pub open spec fn gap(content: Seq<char>, spans: Seq<(int, int)>, i: int) -> Seq<char> {
    content.subrange(
        if i == 0 {
            0
        } else {
            spans[i - 1].1
        },
        spans[i].0,
    )
}

/// An `exclude` rule puts the new value, or nothing where there is none, in the place of each match, and
/// leaves what stands between the matches, before them and after them. A new value with `$` in it is put
/// in as the regular expression says; a content without a match stays as it is.
pub proof fn law_exclude(rule: TablePageRule, content: Seq<char>)
    requires
        regex_compiles(rule.filter@),
        rule.action@ == "exclude"@,
        ordered_spans(regex_spans(rule.filter@, content), content.len()),
    ensures
        rule.spec_process(content) matches Ok(text) && ({
            let spans = regex_spans(rule.filter@, content);
            let n = spans.len() as int;
            let new_value = match rule.new_value {
                Some(new_value) => new_value@,
                None => Seq::empty(),
            };
            &&& n == 0 ==> text == content
            &&& n > 0 && new_value.contains('$') ==> text == regex_replaced(
                rule.filter@,
                content,
                new_value,
            )
            &&& n > 0 && !new_value.contains('$') ==> text == Seq::new(
                spans.len(),
                |i: int| gap(content, spans, i) + new_value,
            ).flatten() + content.skip(spans[n - 1].1)
        }),
{
    reveal_strlit("include");
    reveal_strlit("exclude");
    assert("include"@[0] != "exclude"@[0]);
    let spans = regex_spans(rule.filter@, content);
    if spans.len() > 0 {
        lemma_spliced_gaps(content, spans, rule.replacement());
    }
}

/// A text whose spans were replaced: what stands before each span and the replacement, and then the rest.
proof fn lemma_spliced_gaps(content: Seq<char>, spans: Seq<(int, int)>, replacement: Seq<char>)
    requires
        spans.len() > 0,
        ordered_spans(spans, content.len()),
    ensures
        spliced(content, spans, replacement) == Seq::new(
            spans.len(),
            |i: int| gap(content, spans, i) + replacement,
        ).flatten() + content.skip(spans[spans.len() - 1].1),
    decreases spans.len(),
{
    let n = spans.len() as int;
    let last = spans[n - 1];
    let front = spans.drop_last();
    let cut = content.take(last.0);
    let parts = Seq::new(spans.len(), |i: int| gap(content, spans, i) + replacement);
    let before = Seq::new(front.len(), |i: int| gap(cut, front, i) + replacement);
    assert forall|i: int| 0 <= i < front.len() implies 0 <= (#[trigger] front[i]).0 <= front[i].1
        <= cut.len() by {
        assert(front[i] == spans[i]);
        assert(spans[i].1 <= spans[n - 1].0);
    }
    assert forall|i: int, j: int| 0 <= i < j < front.len() implies (#[trigger] front[i]).1 <= (
    #[trigger] front[j]).0 by {
        assert(spans[i].1 <= spans[j].0);
    }
    assert(parts.drop_last() =~= before) by {
        assert forall|i: int| 0 <= i < n - 1 implies #[trigger] parts.drop_last()[i] == before[i] by {
            assert(spans[i].1 <= spans[n - 1].0);
            if i > 0 {
                assert(spans[i - 1].1 <= spans[i].0);
            }
            assert(gap(content, spans, i) =~= gap(cut, front, i));
        }
    }
    before.lemma_flatten_push(parts.last());
    assert(before.push(parts.last()) =~= parts);
    if n > 1 {
        lemma_spliced_gaps(cut, front, replacement);
        assert(spans[n - 2].1 <= spans[n - 1].0);
        assert(cut.skip(front[n - 2].1) =~= gap(content, spans, n - 1));
    } else {
        assert(before =~= Seq::empty());
        assert(spliced(cut, front, replacement) == cut);
        assert(cut =~= gap(content, spans, 0));
    }
    assert(spliced(content, spans, replacement) =~= parts.flatten() + content.skip(last.1));
}

/// A single rule makes of a content what it makes of it for itself; no rule leaves it as it is.
pub proof fn law_rules_one(rule: TablePageRule, content: Seq<char>)
    ensures
        spec_process_all(Seq::empty(), content) == Ok::<_, GrabError>(content),
        spec_process_all(seq![rule], content) == rule.spec_process(content),
{
    let rules = seq![rule];
    assert(rules.drop_first() =~= Seq::empty());
    assert(rules.first() == rule);
    match rule.spec_process(content) {
        Ok(text) => {
            assert(spec_process_all(rules.drop_first(), text) == Ok::<_, GrabError>(text));
        },
        Err(_) => {},
    }
}

/// A group leaves of one content the lines of what its rules make of it, and of none nothing.
pub proof fn law_group_one(rules: Seq<TablePageRule>, content: Seq<char>)
    ensures
        spec_process_group(rules, Seq::empty()) == Ok::<_, GrabError>(Seq::<Seq<char>>::empty()),
        spec_process_group(rules, seq![content]) == (match spec_process_all(rules, content) {
            Ok(text) => Ok(nonblank_lines(text)),
            Err(err) => Err(err),
        }),
{
    crate::text_laws::law_nonblank_one(Seq::empty());
    assert(nonblank_lines(Seq::empty()) =~= Seq::empty());
    let one = seq![content];
    assert(one.drop_last() =~= Seq::empty());
    assert(spec_process_each(rules, one.drop_last()) == Ok::<_, GrabError>(Seq::<Seq<char>>::empty()));
    if let Ok(text) = spec_process_all(rules, content) {
        let texts = Seq::<Seq<char>>::empty().push(text);
        assert(texts[0] == text);
    }
}

/// What the rules make of some contents and others is what they make of each.
proof fn lemma_each_add(rules: Seq<TablePageRule>, a: Seq<Seq<char>>, b: Seq<Seq<char>>)
    ensures
        spec_process_each(rules, a + b) == (match (
            spec_process_each(rules, a),
            spec_process_each(rules, b),
        ) {
            (Ok(x), Ok(y)) => Ok(x + y),
            (Err(err), _) => Err(err),
            (_, Err(err)) => Err(err),
        }),
    decreases b.len(),
{
    if b.len() == 0 {
        assert(a + b =~= a);
        if let Ok(x) = spec_process_each(rules, a) {
            assert(x + Seq::<Seq<char>>::empty() =~= x);
        }
    } else {
        assert((a + b).drop_last() =~= a + b.drop_last());
        assert((a + b).last() == b.last());
        lemma_each_add(rules, a, b.drop_last());
        match (
            spec_process_each(rules, a),
            spec_process_each(rules, b.drop_last()),
            spec_process_all(rules, b.last()),
        ) {
            (Ok(x), Ok(y), Ok(text)) => {
                assert((x + y).push(text) =~= x + y.push(text));
            },
            _ => {},
        }
    }
}

/// As many texts are made as there are contents.
proof fn lemma_each_len(rules: Seq<TablePageRule>, contents: Seq<Seq<char>>)
    ensures
        spec_process_each(rules, contents) matches Ok(texts) ==> texts.len() == contents.len(),
    decreases contents.len(),
{
    if contents.len() > 0 {
        lemma_each_len(rules, contents.drop_last());
    }
}

/// What a group leaves of some contents and others is what it leaves of the ones and then of the others.
pub proof fn law_group_add(rules: Seq<TablePageRule>, a: Seq<Seq<char>>, b: Seq<Seq<char>>)
    ensures
        spec_process_group(rules, a + b) == (match (
            spec_process_group(rules, a),
            spec_process_group(rules, b),
        ) {
            (Ok(x), Ok(y)) => Ok(x + y),
            (Err(err), _) => Err(err),
            (_, Err(err)) => Err(err),
        }),
{
    lemma_each_add(rules, a, b);
    lemma_each_len(rules, a);
    lemma_each_len(rules, b);
    law_group_one(rules, Seq::empty());
    match (spec_process_each(rules, a), spec_process_each(rules, b)) {
        (Ok(x), Ok(y)) => {
            if a.len() == 0 {
                assert(x + y =~= y);
                assert(a =~= Seq::empty());
                assert(nonblank_lines(join(x, "\n"@)).len() == 0);
                assert(nonblank_lines(join(x, "\n"@)) + nonblank_lines(join(y, "\n"@))
                    =~= nonblank_lines(join(y, "\n"@)));
            } else if b.len() == 0 {
                assert(x + y =~= x);
                assert(b =~= Seq::empty());
                assert(nonblank_lines(join(x, "\n"@)) + nonblank_lines(join(y, "\n"@))
                    =~= nonblank_lines(join(x, "\n"@)));
            } else {
                reveal_strlit("\n");
                law_join_add(x, y, "\n"@);
                law_nonblank_add(join(x, "\n"@), join(y, "\n"@));
                assert(join(x + y, "\n"@) =~= join(x, "\n"@).push('\n') + join(y, "\n"@));
            }
        },
        _ => {},
    }
}

/// A group fails exactly if there is a content and the filter of one of its rules is not a regular
/// expression.
pub proof fn law_group_fails(rules: Seq<TablePageRule>, contents: Seq<Seq<char>>)
    ensures
        spec_process_group(rules, contents) is Err <==> contents.len() > 0 && !all_compile(rules),
        spec_process_group(rules, contents) matches Err(err) ==> err == GrabError::InvalidFilter,
        all_compile(rules) <==> forall|i: int|
            0 <= i < rules.len() ==> regex_compiles((#[trigger] rules[i]).filter@),
    decreases contents.len(),
{
    if contents.len() > 0 {
        law_group_fails(rules, contents.drop_last());
        law_rules_fail(rules, contents.last());
        let front = contents.drop_last();
        assert(front + seq![contents.last()] =~= contents);
        law_group_add(rules, front, seq![contents.last()]);
        law_group_one(rules, contents.last());
    }
}

/// Rules can be applied one after another exactly if each that is reached, because the filters before it
/// are regular expressions, includes or excludes, or fails itself.
pub proof fn law_applicable(rules: Seq<TablePageRule>)
    ensures
        all_applicable(rules) <==> forall|i: int|
            0 <= i < rules.len() && all_compile(rules.take(i)) ==> {
                ||| (#[trigger] rules[i]).action@ == "include"@
                ||| rules[i].action@ == "exclude"@
                ||| !regex_compiles(rules[i].filter@)
            },
    decreases rules.len(),
{
    if rules.len() > 0 {
        let rest = rules.drop_first();
        law_applicable(rest);
        assert(rules.take(0) =~= Seq::empty());
        assert(all_compile(rules.take(0)));
        assert forall|i: int| 0 <= i < rest.len() implies (regex_compiles(rules[0].filter@)
            && #[trigger] all_compile(rest.take(i)) <==> all_compile(rules.take(i + 1))) by {
            let longer = rules.take(i + 1);
            if regex_compiles(rules[0].filter@) && all_compile(rest.take(i)) {
                assert forall|k: int| 0 <= k < longer.len() implies regex_compiles(
                    (#[trigger] longer[k]).filter@,
                ) by {
                    if k > 0 {
                        assert(longer[k] == rest.take(i)[k - 1]);
                    }
                }
            }
            if all_compile(longer) {
                assert(longer[0] == rules[0]);
                assert forall|k: int| 0 <= k < rest.take(i).len() implies regex_compiles(
                    (#[trigger] rest.take(i)[k]).filter@,
                ) by {
                    assert(longer[k + 1] == rest.take(i)[k]);
                }
            }
        }
        if all_applicable(rules) {
            assert forall|i: int| 0 <= i < rules.len() && all_compile(rules.take(i)) implies {
                ||| (#[trigger] rules[i]).action@ == "include"@
                ||| rules[i].action@ == "exclude"@
                ||| !regex_compiles(rules[i].filter@)
            } by {
                if i > 0 {
                    assert(rest[i - 1] == rules[i]);
                    assert(all_compile(rest.take(i - 1)));
                }
            }
        } else if rules[0].applicable() {
            let i = choose|i: int|
                0 <= i < rest.len() && all_compile(rest.take(i)) && !{
                    ||| (#[trigger] rest[i]).action@ == "include"@
                    ||| rest[i].action@ == "exclude"@
                    ||| !regex_compiles(rest[i].filter@)
                };
            assert(rules[i + 1] == rest[i]);
            assert(all_compile(rules.take(i + 1)));
        }
    }
}

/// What a step comes to is taken for what it is: the texts themselves, or the failure.
pub proof fn law_results(text: String, list: Vec<String>, err: GrabError)
    ensures
        text_result(Ok(text)) == Ok::<_, GrabError>(text@),
        text_result(Err(err)) == Err::<Seq<char>, _>(err),
        texts_result(Ok(list)) == Ok::<_, GrabError>(views(list@)),
        texts_result(Err(err)) == Err::<Seq<Seq<char>>, _>(err),
{
}

} // verus!
