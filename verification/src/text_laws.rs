//! What holds of trimming, splitting and joining.
use crate::text::{
    contains, is_white_space, join, nonblank_lines, occurs_at, opt_view, split, texts, trim, trim_by,
    trim_end, trim_start, views, Trimmed,
};
use vstd::prelude::*;

verus! {

/// Whether `c` does not stand in `s`.
pub open spec fn lacks(s: Seq<char>, c: char) -> bool {
    forall|i: int| 0 <= i < s.len() ==> #[trigger] s[i] != c
}

/// Whether neither the first nor the last character of `s` is of the kind.
pub open spec fn bare_ends(s: Seq<char>, kind: Trimmed) -> bool {
    s.len() > 0 ==> !kind.has(s.first()) && !kind.has(s.last())
}

/// Whether each character of `s` is of the kind.
pub open spec fn all_of_kind(s: Seq<char>, kind: Trimmed) -> bool {
    forall|i: int| 0 <= i < s.len() ==> kind.has(#[trigger] s[i])
}

/// What is left after trimming the start: a part of the text up to its end.
pub proof fn lemma_trim_start(s: Seq<char>, kind: Trimmed)
    ensures
        exists|i: int|
            0 <= i <= s.len() && trim_start(s, kind) == #[trigger] s.skip(i) && all_of_kind(
                s.take(i),
                kind,
            ),
        trim_start(s, kind).len() > 0 ==> !kind.has(trim_start(s, kind).first()),
    decreases s.len(),
{
    if s.len() > 0 && kind.has(s.first()) {
        lemma_trim_start(s.drop_first(), kind);
        let i = choose|i: int|
            0 <= i <= s.drop_first().len() && trim_start(s.drop_first(), kind)
                == #[trigger] s.drop_first().skip(i) && all_of_kind(s.drop_first().take(i), kind);
        assert(s.drop_first().skip(i) =~= s.skip(i + 1));
        assert forall|k: int| 0 <= k < s.take(i + 1).len() implies kind.has(
            #[trigger] s.take(i + 1)[k],
        ) by {
            if k > 0 {
                assert(s.take(i + 1)[k] == s.drop_first().take(i)[k - 1]);
            }
        }
    } else {
        assert(s.skip(0) =~= s);
    }
}

/// What is left after trimming the end: a part of the text from its start on.
pub proof fn lemma_trim_end(s: Seq<char>, kind: Trimmed)
    ensures
        exists|i: int|
            0 <= i <= s.len() && trim_end(s, kind) == #[trigger] s.take(i) && all_of_kind(
                s.skip(i),
                kind,
            ),
        trim_end(s, kind).len() > 0 ==> !kind.has(trim_end(s, kind).last()),
    decreases s.len(),
{
    if s.len() > 0 && kind.has(s.last()) {
        lemma_trim_end(s.drop_last(), kind);
        let i = choose|i: int|
            0 <= i <= s.drop_last().len() && trim_end(s.drop_last(), kind)
                == #[trigger] s.drop_last().take(i) && all_of_kind(s.drop_last().skip(i), kind);
        assert(s.drop_last().take(i) =~= s.take(i));
        assert forall|k: int| 0 <= k < s.skip(i).len() implies kind.has(#[trigger] s.skip(i)[k]) by {
            if k < s.skip(i).len() - 1 {
                assert(s.skip(i)[k] == s.drop_last().skip(i)[k]);
            }
        }
    } else {
        assert(s.take(s.len() as int) =~= s);
    }
}

/// A trimmed text is a part of the text, what stood before and after it is of the kind that is trimmed
/// off, and nothing of that kind is left at its ends.
pub proof fn law_trim(s: Seq<char>, kind: Trimmed)
    ensures
        exists|i: int, j: int|
            0 <= i <= j <= s.len() && trim_by(s, kind) == #[trigger] s.subrange(i, j)
                && all_of_kind(s.take(i), kind) && all_of_kind(s.skip(j), kind),
        bare_ends(trim_by(s, kind), kind),
{
    lemma_trim_start(s, kind);
    let rest = trim_start(s, kind);
    lemma_trim_end(rest, kind);
    let i = choose|i: int|
        0 <= i <= s.len() && rest == #[trigger] s.skip(i) && all_of_kind(s.take(i), kind);
    let n = choose|n: int|
        0 <= n <= rest.len() && trim_by(s, kind) == #[trigger] rest.take(n) && all_of_kind(
            rest.skip(n),
            kind,
        );
    assert(rest.take(n) =~= s.subrange(i, i + n));
    assert(rest.skip(n) =~= s.skip(i + n));
}

/// Trimming leaves a text alone at whose ends nothing stands that it takes off.
pub proof fn law_trim_nothing(s: Seq<char>, kind: Trimmed)
    requires
        bare_ends(s, kind),
    ensures
        trim_by(s, kind) == s,
{
}

/// Trimming a trimmed text leaves it alone.
pub proof fn law_trim_twice(s: Seq<char>, kind: Trimmed)
    ensures
        trim_by(trim_by(s, kind), kind) == trim_by(s, kind),
{
    law_trim(s, kind);
}

/// A text with a separator and one more part after it has one part more.
proof fn lemma_split_more(s: Seq<char>, part: Seq<char>, sep: char)
    requires
        lacks(part, sep),
    ensures
        split(s.push(sep) + part, sep) == split(s, sep).push(part),
    decreases part.len(),
{
    let whole = s.push(sep) + part;
    if part.len() == 0 {
        assert(whole =~= s.push(sep));
        assert(whole.drop_last() =~= s);
        assert(part =~= Seq::empty());
    } else {
        lemma_split_more(s, part.drop_last(), sep);
        assert(whole.drop_last() =~= s.push(sep) + part.drop_last());
        assert(whole.last() == part.last());
        let before = split(whole.drop_last(), sep);
        assert(before.drop_last() =~= split(s, sep));
        assert(before.last().push(part.last()) =~= part);
    }
}

/// A text without the separator is its only part.
proof fn lemma_split_one(part: Seq<char>, sep: char)
    requires
        lacks(part, sep),
    ensures
        split(part, sep) == seq![part],
    decreases part.len(),
{
    if part.len() > 0 {
        lemma_split_one(part.drop_last(), sep);
        assert(part.drop_last().push(part.last()) =~= part);
        assert(split(part, sep) =~= seq![part]);
    } else {
        assert(part =~= Seq::empty());
    }
}

/// Splitting gives back the parts that were joined.
pub proof fn law_split_of_join(parts: Seq<Seq<char>>, sep: char)
    requires
        parts.len() > 0,
        forall|i: int| 0 <= i < parts.len() ==> lacks(#[trigger] parts[i], sep),
    ensures
        split(join(parts, seq![sep]), sep) == parts,
    decreases parts.len(),
{
    if parts.len() == 1 {
        lemma_split_one(parts[0], sep);
        assert(parts =~= seq![parts[0]]);
    } else {
        let before = join(parts.drop_last(), seq![sep]);
        assert forall|i: int| 0 <= i < parts.drop_last().len() implies lacks(
            #[trigger] parts.drop_last()[i],
            sep,
        ) by {
            assert(lacks(parts[i], sep));
        }
        law_split_of_join(parts.drop_last(), sep);
        lemma_split_more(before, parts.last(), sep);
        assert(before + seq![sep] + parts.last() =~= before.push(sep) + parts.last());
        assert(parts.drop_last().push(parts.last()) =~= parts);
    }
}

/// Joining with one part more.
proof fn lemma_join_push(parts: Seq<Seq<char>>, part: Seq<char>, sep: Seq<char>)
    requires
        parts.len() > 0,
    ensures
        join(parts.push(part), sep) == join(parts, sep) + sep + part,
{
    assert(parts.push(part).drop_last() =~= parts);
}

/// Joining gives back the text that was split.
pub proof fn law_join_of_split(s: Seq<char>, sep: char)
    ensures
        split(s, sep).len() > 0,
        join(split(s, sep), seq![sep]) == s,
        forall|i: int| 0 <= i < split(s, sep).len() ==> lacks(#[trigger] split(s, sep)[i], sep),
    decreases s.len(),
{
    if s.len() > 0 {
        let before = split(s.drop_last(), sep);
        law_join_of_split(s.drop_last(), sep);
        if s.last() == sep {
            lemma_join_push(before, Seq::empty(), seq![sep]);
            assert(s.drop_last() + seq![sep] + Seq::empty() =~= s);
        } else {
            let last = before.last().push(s.last());
            if before.len() == 1 {
                assert(before.drop_last().push(last) =~= seq![last]);
                assert(last =~= s);
            } else {
                lemma_join_push(before.drop_last(), last, seq![sep]);
                assert(before.drop_last().push(before.last()) =~= before);
                lemma_join_push(before.drop_last(), before.last(), seq![sep]);
                let front = join(before.drop_last(), seq![sep]) + seq![sep];
                assert(front + last =~= (front + before.last()).push(s.last()));
                assert(s.drop_last().push(s.last()) =~= s);
            }
        }
    } else {
        assert(s =~= Seq::empty());
    }
}

/// The lines that are left of a text are trimmed, not blank, and single lines.
pub proof fn law_nonblank_lines(s: Seq<char>)
    ensures
        forall|i: int|
            0 <= i < nonblank_lines(s).len() ==> {
                let line = #[trigger] nonblank_lines(s)[i];
                line.len() > 0 && bare_ends(line, Trimmed::WhiteSpace) && lacks(line, '\n')
            },
{
    let trimmed = split(s, '\n').map_values(|line: Seq<char>| trim(line));
    let keep = |line: Seq<char>| line.len() > 0;
    law_join_of_split(s, '\n');
    assert forall|i: int| 0 <= i < nonblank_lines(s).len() implies {
        let line = #[trigger] nonblank_lines(s)[i];
        line.len() > 0 && bare_ends(line, Trimmed::WhiteSpace) && lacks(line, '\n')
    } by {
        let line = nonblank_lines(s)[i];
        lemma_filter_pred(trimmed, keep, i);
        let k = choose|k: int| 0 <= k < trimmed.len() && trimmed[k] == line;
        let whole = split(s, '\n')[k];
        assert(lacks(whole, '\n'));
        law_trim(whole, Trimmed::WhiteSpace);
        let (a, b) = choose|a: int, b: int|
            0 <= a <= b <= whole.len() && trim(whole) == #[trigger] whole.subrange(a, b);
        assert forall|j: int| 0 <= j < line.len() implies #[trigger] line[j] != '\n' by {
            assert(line[j] == whole[a + j]);
        }
    }
}

/// What passes a filter passes its test, and stood there before.
pub proof fn lemma_filter_pred(s: Seq<Seq<char>>, keep: spec_fn(Seq<char>) -> bool, i: int)
    requires
        0 <= i < s.filter(keep).len(),
    ensures
        keep(s.filter(keep)[i]),
        s.contains(s.filter(keep)[i]),
    decreases s.len(),
{
    reveal(Seq::filter);
    if s.len() > 0 {
        let before = s.drop_last().filter(keep);
        if i < before.len() {
            lemma_filter_pred(s.drop_last(), keep, i);
            let k = choose|k: int|
                0 <= k < s.drop_last().len() && s.drop_last()[k] == before[i];
            assert(s[k] == s.filter(keep)[i]);
        } else {
            assert(s[s.len() - 1] == s.filter(keep)[i]);
        }
    }
}

/// The three kinds of characters that are trimmed off: white space, square brackets, and all but the
/// digits and letters of ASCII.
pub proof fn law_kinds(c: char)
    ensures
        Trimmed::WhiteSpace.has(c) <==> is_white_space(c),
        c == ' ' || c == '\t' || c == '\n' || c == '\r' ==> Trimmed::WhiteSpace.has(c),
        33 <= c as u32 <= 126 ==> !Trimmed::WhiteSpace.has(c),
        Trimmed::Brackets.has(c) <==> c == '[' || c == ']',
        Trimmed::NotAlphanumeric.has(c) <==> !('0' <= c <= '9' || 'A' <= c <= 'Z' || 'a' <= c
            <= 'z'),
{
}

/// Joined texts are the texts one after another, each with the separator behind it, without the last
/// separator.
pub proof fn law_join_flat(parts: Seq<Seq<char>>, sep: Seq<char>)
    ensures
        parts.len() == 0 ==> join(parts, sep).len() == 0,
        parts.len() > 0 ==> join(parts, sep) + sep == parts.flat_map(|part: Seq<char>| part + sep),
    decreases parts.len(),
{
    let behind = |part: Seq<char>| part + sep;
    if parts.len() > 0 {
        let front = parts.drop_last();
        law_join_flat(front, sep);
        front.lemma_flat_map_push(behind, parts.last());
        assert(front.push(parts.last()) =~= parts);
        if front.len() == 0 {
            assert(front =~= Seq::empty());
            assert(front.map_values(behind) =~= Seq::empty());
            assert(parts[0] == parts.last());
            assert(join(parts, sep) + sep =~= front.flat_map(behind) + behind(parts.last()));
        } else {
            assert(join(parts, sep) + sep =~= (join(front, sep) + sep) + (parts.last() + sep));
        }
    }
}

/// Each character of joined texts stands in one of the texts or in the separator.
pub proof fn lemma_join_chars(parts: Seq<Seq<char>>, sep: Seq<char>, j: int)
    requires
        0 <= j < join(parts, sep).len(),
    ensures
        sep.contains(join(parts, sep)[j]) || exists|i: int|
            0 <= i < parts.len() && (#[trigger] parts[i]).contains(join(parts, sep)[j]),
    decreases parts.len(),
{
    let whole = join(parts, sep);
    if parts.len() == 1 {
        assert(parts[0].contains(whole[j]));
    } else if parts.len() > 1 {
        let front = join(parts.drop_last(), sep);
        if j < front.len() {
            lemma_join_chars(parts.drop_last(), sep, j);
            assert(whole[j] == front[j]);
            if !sep.contains(whole[j]) {
                let i = choose|i: int|
                    0 <= i < parts.drop_last().len() && (#[trigger] parts.drop_last()[i]).contains(
                        front[j],
                    );
                assert(parts[i].contains(whole[j]));
            }
        } else if j < front.len() + sep.len() {
            assert(whole[j] == sep[j - front.len()]);
        } else {
            assert(whole[j] == parts.last()[j - front.len() - sep.len()]);
            assert(parts[parts.len() - 1].contains(whole[j]));
        }
    }
}

/// What is joined of some texts and others is what is joined of each, with the separator between.
pub proof fn law_join_add(a: Seq<Seq<char>>, b: Seq<Seq<char>>, sep: Seq<char>)
    requires
        a.len() > 0,
        b.len() > 0,
    ensures
        join(a + b, sep) == join(a, sep) + sep + join(b, sep),
    decreases b.len(),
{
    assert((a + b).drop_last() =~= a + b.drop_last());
    if b.len() == 1 {
        assert(a + b.drop_last() =~= a);
        assert((a + b).last() == b[0]);
    } else {
        law_join_add(a, b.drop_last(), sep);
        assert((a + b).last() == b.last());
    }
    assert(join(a + b, sep) =~= join(a, sep) + sep + join(b, sep));
}

/// The parts of two texts with a separator between them are those of the one and then of the other.
pub proof fn law_split_add(a: Seq<char>, b: Seq<char>, sep: char)
    ensures
        split(a.push(sep) + b, sep) == split(a, sep) + split(b, sep),
    decreases b.len(),
{
    let whole = a.push(sep) + b;
    law_join_of_split(a, sep);
    law_join_of_split(b, sep);
    if b.len() == 0 {
        assert(whole =~= a.push(sep));
        assert(whole.drop_last() =~= a);
    } else {
        assert(whole.drop_last() =~= a.push(sep) + b.drop_last());
        law_split_add(a, b.drop_last(), sep);
        law_join_of_split(b.drop_last(), sep);
        let before = split(a, sep) + split(b.drop_last(), sep);
        assert(before.drop_last() =~= split(a, sep) + split(b.drop_last(), sep).drop_last());
    }
    assert(split(whole, sep) =~= split(a, sep) + split(b, sep));
}

/// The lines that are left of two texts on lines of their own are those of the one and then of the
/// other.
pub proof fn law_nonblank_add(a: Seq<char>, b: Seq<char>)
    ensures
        nonblank_lines(a.push('\n') + b) == nonblank_lines(a) + nonblank_lines(b),
{
    let cut = |line: Seq<char>| trim(line);
    let keep = |line: Seq<char>| line.len() > 0;
    law_split_add(a, b, '\n');
    let first = split(a, '\n').map_values(cut);
    let second = split(b, '\n').map_values(cut);
    assert((split(a, '\n') + split(b, '\n')).map_values(cut) =~= first + second);
    Seq::filter_distributes_over_add(first, second, keep);
}

/// Of a single line that is not blank, that line is left, trimmed; of a blank one nothing.
pub proof fn law_nonblank_one(line: Seq<char>)
    requires
        lacks(line, '\n'),
    ensures
        nonblank_lines(line) == (if all_of_kind(line, Trimmed::WhiteSpace) {
            Seq::empty()
        } else {
            seq![trim(line)]
        }),
{
    let cut = |line: Seq<char>| trim(line);
    lemma_split_one(line, '\n');
    law_trim(line, Trimmed::WhiteSpace);
    let (i, j) = choose|i: int, j: int|
        0 <= i <= j <= line.len() && trim(line) == #[trigger] line.subrange(i, j) && all_of_kind(
            line.take(i),
            Trimmed::WhiteSpace,
        ) && all_of_kind(line.skip(j), Trimmed::WhiteSpace);
    if all_of_kind(line, Trimmed::WhiteSpace) {
        if i < j {
            assert(trim(line).first() == line[i]);
        }
    } else if i == j {
        assert forall|k: int| 0 <= k < line.len() implies Trimmed::WhiteSpace.has(
            #[trigger] line[k],
        ) by {
            if k < i {
                assert(line.take(i)[k] == line[k]);
            } else {
                assert(line.skip(j)[k - j] == line[k]);
            }
        }
    }
    reveal_with_fuel(Seq::filter, 2);
    assert(seq![line].map_values(cut) =~= seq![trim(line)]);
    assert(seq![trim(line)].drop_last() =~= Seq::empty());
    assert(nonblank_lines(line) =~= (if trim(line).len() == 0 {
        Seq::empty()
    } else {
        seq![trim(line)]
    }));
}

/// A text stands in another exactly if that is some text, the one that is looked for, and some text.
pub proof fn law_contains(s: Seq<char>, pat: Seq<char>)
    ensures
        contains(s, pat) <==> exists|a: Seq<char>, b: Seq<char>| s == #[trigger] (a + pat + b),
{
    if contains(s, pat) {
        let i = choose|i: int| occurs_at(s, pat, i);
        assert(s =~= s.take(i) + pat + s.skip(i + pat.len()));
    }
    if exists|a: Seq<char>, b: Seq<char>| s == #[trigger] (a + pat + b) {
        let (a, b) = choose|a: Seq<char>, b: Seq<char>| s == #[trigger] (a + pat + b);
        assert(s.subrange(a.len() as int, (a.len() + pat.len()) as int) =~= pat);
        assert(occurs_at(s, pat, a.len() as int));
    }
}

/// Texts are taken for their characters, none left out and in order.
pub proof fn law_views(strings: Seq<String>, parts: Seq<Vec<char>>, text: Option<String>)
    ensures
        views(strings).len() == strings.len(),
        forall|i: int| 0 <= i < strings.len() ==> #[trigger] views(strings)[i] == strings[i]@,
        texts(parts).len() == parts.len(),
        forall|i: int| 0 <= i < parts.len() ==> #[trigger] texts(parts)[i] == parts[i]@,
        opt_view(text) is Some <==> text is Some,
        text matches Some(text) ==> opt_view(Some(text)) == Some(text@),
{
}

} // verus!
