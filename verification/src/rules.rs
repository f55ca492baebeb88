//! The rules that cut the links out of a page.
use crate::error::GrabError;
use crate::statement::{Bound, Statement};
use crate::text::{join, join_texts, nonblank_lines, nonblank_lines_of, same_text, views};
use regex::Regex;
use vstd::prelude::*;

verus! {

/// Whether a text is a regular expression that is not too large for a target whose addresses have so
/// many bits.
pub uninterp spec fn regex_builds(pattern: Seq<char>, bits: u32) -> bool;

/// Whether a text is a regular expression that is not too large for the target of this program.
pub open spec fn regex_compiles(pattern: Seq<char>) -> bool {
    regex_builds(pattern, usize::BITS)
}

/// Where, in characters, the successive matches of a regular expression begin and end.
pub uninterp spec fn regex_spans(pattern: Seq<char>, content: Seq<char>) -> Seq<(int, int)>;

/// A text with each match of a regular expression replaced by what a text with `$` in it, which
/// stands for captured groups, comes to for that match.
pub uninterp spec fn regex_replaced(
    pattern: Seq<char>,
    content: Seq<char>,
    replacement: Seq<char>,
) -> Seq<char>;

/// A compiled regular expression.
#[verifier::external_type_specification]
#[verifier::external_body]
pub struct ExRegex(regex::Regex);

/// Why a text is not a regular expression.
#[verifier::external_type_specification]
#[verifier::external_body]
pub struct ExRegexError(regex::Error);

/// `Regex::new`: compiles a regular expression. Whether that succeeds is a function of the text and of
/// the width of an address, which the size of a compiled expression, and so the limit on it, depends
/// on.
pub assume_specification[ regex::Regex::new ](re: &str) -> (res: Result<Regex, regex::Error>)
    ensures
        res is Ok <==> regex_builds(re@, usize::BITS),
;

/// Whether the spans lie in a text of length `len`, one after another without overlap.
pub open spec fn ordered_spans(spans: Seq<(int, int)>, len: nat) -> bool {
    &&& forall|i: int|
        0 <= i < spans.len() ==> 0 <= (#[trigger] spans[i]).0 <= spans[i].1 <= len
    &&& forall|i: int, j: int|
        0 <= i < j < spans.len() ==> (#[trigger] spans[i]).1 <= (#[trigger] spans[j]).0
}

/// The pieces of `content` at the spans.
pub open spec fn pieces(content: Seq<char>, spans: Seq<(int, int)>) -> Seq<Seq<char>> {
    spans.map_values(|span: (int, int)| content.subrange(span.0, span.1))
}

/// Whether `found` are the pieces of `content` at the spans, which follow one another.
pub open spec fn are_matches(
    found: Seq<Seq<char>>,
    content: Seq<char>,
    spans: Seq<(int, int)>,
) -> bool {
    found == pieces(content, spans) && ordered_spans(spans, content.len())
}

/// `content` with `replacement` in the place of each of the spans.
pub open spec fn spliced(
    content: Seq<char>,
    spans: Seq<(int, int)>,
    replacement: Seq<char>,
) -> Seq<char>
    decreases spans.len(),
{
    if spans.len() == 0 {
        content
    } else {
        spliced(content.take(spans.last().0), spans.drop_last(), replacement) + replacement
            + content.skip(spans.last().1)
    }
}

/// Whether `text` is `content` with the spans, which follow one another, replaced.
pub open spec fn is_spliced(
    text: Seq<char>,
    content: Seq<char>,
    spans: Seq<(int, int)>,
    replacement: Seq<char>,
) -> bool {
    text == spliced(content, spans, replacement) && ordered_spans(spans, content.len())
}

/// `Regex::find_iter`: the texts of the successive matches, which do not overlap.
#[verifier::external_body]
pub(crate) fn find_iter(pattern: &str, content: &str) -> (res: Vec<String>)
    requires
        regex_compiles(pattern@),
    ensures
        are_matches(views(res@), content@, regex_spans(pattern@, content@)),
{
    let regex = Regex::new(pattern).expect("the pattern compiles");
    regex.find_iter(content).map(|found| found.as_str().to_string()).collect()
}

/// `Regex::replace_all`: replaces each match. A replacement without `$` is put in as it stands; a
/// text without a match stays as it is.
#[verifier::external_body]
pub(crate) fn replace_all(pattern: &str, content: &str, replacement: &str) -> (res: String)
    requires
        regex_compiles(pattern@),
    ensures
        replacement@.contains('$') ==> res@ == regex_replaced(pattern@, content@, replacement@),
        regex_spans(pattern@, content@).len() == 0 ==> res@ == content@,
        !replacement@.contains('$') ==> is_spliced(
            res@,
            content@,
            regex_spans(pattern@, content@),
            replacement@,
        ),
{
    let regex = Regex::new(pattern).expect("the pattern compiles");
    regex.replace_all(content, replacement).to_string()
}

/// The text of the statement that reads the rules of a group.
pub const RULES_OF_GROUP: &'static str =
    "SELECT * FROM rules WHERE group_id = $1 ORDER BY priority ASC";

/// A row of the table `rules`.
#[derive(Debug, PartialEq, Eq)]
pub struct TablePageRule {
    /// The identifier of the rule.
    pub id: i64,
    /// The group that the rule belongs to.
    pub group_id: i32,
    /// The place of the rule in its group.
    pub priority: i32,
    /// The regular expression that the rule looks for.
    pub filter: String,
    /// What takes the place of a match; nothing, where it is missing.
    pub new_value: Option<String>,
    /// What is done with the matches: `include` or `exclude`.
    pub action: String,
    /// What the rule is for.
    pub description: Option<String>,
}

/// The texts that are not empty, one per line.
pub open spec fn kept(found: Seq<Seq<char>>) -> Seq<char> {
    join(found.filter(|piece: Seq<char>| piece.len() > 0), "\n"@)
}

/// `content` with each match of `pattern` replaced.
pub open spec fn replaced(
    pattern: Seq<char>,
    content: Seq<char>,
    replacement: Seq<char>,
) -> Seq<char> {
    let spans = regex_spans(pattern, content);
    if spans.len() == 0 {
        content
    } else if replacement.contains('$') {
        regex_replaced(pattern, content, replacement)
    } else {
        spliced(content, spans, replacement)
    }
}

/// The texts that are not empty, one per line.
pub fn keep_matches(found: &[String]) -> (res: String)
    ensures
        res@ == kept(views(found@)),
{
    let mut nonempty: Vec<String> = Vec::new();
    let mut i: usize = 0;
    let ghost keep = |piece: Seq<char>| piece.len() > 0;
    let ghost all = views(found@);
    proof {
        reveal(Seq::filter);
        assert(views(nonempty@) =~= all.take(0).filter(keep));
    }
    while i < found.len()
        invariant
            i <= found.len(),
            all == views(found@),
            keep == (|piece: Seq<char>| piece.len() > 0),
            views(nonempty@) == all.take(i as int).filter(keep),
        decreases found.len() - i,
    {
        let ghost before = nonempty@;
        proof {
            reveal(Seq::filter);
            assert(all.take(i + 1).drop_last() =~= all.take(i as int));
            assert(all.take(i + 1).last() == found@[i as int]@);
        }
        if !found[i].as_str().is_empty() {
            nonempty.push(found[i].clone());
            assert(views(nonempty@) =~= views(before).push(found@[i as int]@));
        }
        i += 1;
    }
    assert(all.take(all.len() as int) =~= all);
    join_texts(nonempty.as_slice(), "\n")
}

/// The outcome of a step that makes a text.
pub open spec fn text_result(res: Result<String, GrabError>) -> Result<Seq<char>, GrabError> {
    match res {
        Ok(text) => Ok(text@),
        Err(err) => Err(err),
    }
}

/// The outcome of a step that makes texts.
pub open spec fn texts_result(res: Result<Vec<String>, GrabError>) -> Result<
    Seq<Seq<char>>,
    GrabError,
> {
    match res {
        Ok(list) => Ok(views(list@)),
        Err(err) => Err(err),
    }
}

impl TablePageRule {
    /// The statement that reads the rules of a group, in the order in which they are applied.
    pub fn get_by_group(group_id: i64) -> (res: Statement)
        ensures
            res.says(RULES_OF_GROUP@, seq![Bound::Int(group_id)]),
    {
        Statement::new(RULES_OF_GROUP).bind_int(group_id)
    }

    /// Whether the action of the rule is a known one.
    pub open spec fn known_action(&self) -> bool {
        self.action@ == "include"@ || self.action@ == "exclude"@
    }

    /// Whether the rule can be applied, be it to fail: its action is known, or its filter is not a
    /// regular expression.
    pub open spec fn applicable(&self) -> bool {
        self.known_action() || !regex_compiles(self.filter@)
    }

    /// What takes the place of a match.
    pub open spec fn replacement(&self) -> Seq<char> {
        match self.new_value {
            Some(new_value) => new_value@,
            None => Seq::empty(),
        }
    }

    /// What the rule makes of a content.
    pub open spec fn spec_process(&self, content: Seq<char>) -> Result<Seq<char>, GrabError> {
        if !regex_compiles(self.filter@) {
            Err(GrabError::InvalidFilter)
        } else if self.action@ == "include"@ {
            Ok(kept(pieces(content, regex_spans(self.filter@, content))))
        } else {
            Ok(replaced(self.filter@, content, self.replacement()))
        }
    }

    /// Applies the rule to a content: `include` leaves the matches that are not empty, each on a
    /// line of its own, `exclude` puts the new value in the place of each match.
    pub fn process(&self, content: String) -> (res: Result<String, GrabError>)
        requires
            self.applicable(),
        ensures
            text_result(res) == self.spec_process(content@),
            self.action@ == "include"@ && regex_compiles(self.filter@) ==> (res matches Ok(text)
                && text@ == join(
                regex_spans(self.filter@, content@).map_values(
                    |span: (int, int)| content@.subrange(span.0, span.1),
                ).filter(|piece: Seq<char>| piece.len() > 0),
                "\n"@,
            )),
            res is Ok && !(self.action@ != "include"@ && self.replacement().contains('$'))
                ==> ordered_spans(regex_spans(self.filter@, content@), content@.len()),
    {
        match Regex::new(self.filter.as_str()) {
            Ok(_) => {},
            Err(_) => return Err(GrabError::InvalidFilter),
        }
        if same_text(self.action.as_str(), "include") {
            let found = find_iter(self.filter.as_str(), content.as_str());
            Ok(keep_matches(found.as_slice()))
        } else {
            let new_value = match &self.new_value {
                Some(new_value) => new_value.as_str(),
                None => "",
            };
            proof {
                reveal_strlit("");
                assert(new_value@ =~= self.replacement());
            }
            Ok(replace_all(self.filter.as_str(), content.as_str(), new_value))
        }
    }

    /// Whether the filter of the rule is a regular expression.
    pub fn compiles(&self) -> (res: bool)
        ensures
            res == regex_compiles(self.filter@),
    {
        Regex::new(self.filter.as_str()).is_ok()
    }

    /// Whether the rule can be applied.
    pub fn is_applicable(&self) -> (res: bool)
        ensures
            res == self.applicable(),
    {
        same_text(self.action.as_str(), "include") || same_text(self.action.as_str(), "exclude")
            || !self.compiles()
    }
}

/// Whether the rules can be applied one after another: before one that cannot be applied, there is
/// one that fails.
pub open spec fn all_applicable(rules: Seq<TablePageRule>) -> bool
    decreases rules.len(),
{
    rules.len() == 0 || (rules.first().applicable() && (regex_compiles(rules.first().filter@)
        ==> all_applicable(rules.drop_first())))
}

/// Whether the filter of each rule is a regular expression.
pub open spec fn all_compile(rules: Seq<TablePageRule>) -> bool {
    forall|i: int| 0 <= i < rules.len() ==> regex_compiles((#[trigger] rules[i]).filter@)
}

/// What the rules, one after another, make of a content.
pub open spec fn spec_process_all(rules: Seq<TablePageRule>, content: Seq<char>) -> Result<
    Seq<char>,
    GrabError,
>
    decreases rules.len(),
{
    if rules.len() == 0 {
        Ok(content)
    } else {
        match rules.first().spec_process(content) {
            Ok(text) => spec_process_all(rules.drop_first(), text),
            Err(err) => Err(err),
        }
    }
}

/// What the rules make of each of the contents.
pub open spec fn spec_process_each(
    rules: Seq<TablePageRule>,
    contents: Seq<Seq<char>>,
) -> Result<Seq<Seq<char>>, GrabError>
    decreases contents.len(),
{
    if contents.len() == 0 {
        Ok(Seq::empty())
    } else {
        match spec_process_each(rules, contents.drop_last()) {
            Ok(texts) => match spec_process_all(rules, contents.last()) {
                Ok(text) => Ok(texts.push(text)),
                Err(err) => Err(err),
            },
            Err(err) => Err(err),
        }
    }
}

/// The lines, trimmed and not blank, of what the rules make of the contents.
pub open spec fn spec_process_group(
    rules: Seq<TablePageRule>,
    contents: Seq<Seq<char>>,
) -> Result<Seq<Seq<char>>, GrabError> {
    match spec_process_each(rules, contents) {
        Ok(texts) => Ok(nonblank_lines(join(texts, "\n"@))),
        Err(err) => Err(err),
    }
}

/// Applies the rules, one after another, to a content.
fn process_all(rules: &[TablePageRule], content: String) -> (res: Result<String, GrabError>)
    requires
        all_applicable(rules@),
    ensures
        text_result(res) == spec_process_all(rules@, content@),
{
    let mut text = content;
    let mut i: usize = 0;
    assert(rules@.skip(0) =~= rules@);
    while i < rules.len()
        invariant
            i <= rules.len(),
            all_applicable(rules@.skip(i as int)),
            spec_process_all(rules@, content@) == spec_process_all(rules@.skip(i as int), text@),
        decreases rules.len() - i,
    {
        assert(rules@.skip(i as int).drop_first() =~= rules@.skip(i + 1));
        assert(rules@.skip(i as int).first() == rules@[i as int]);
        text = match rules[i].process(text) {
            Ok(text) => text,
            Err(err) => return Err(err),
        };
        i += 1;
    }
    Ok(text)
}

/// Applies the rules of a group to the contents, and gives the lines that are left.
pub fn process_group(rules: &[TablePageRule], contents: Vec<String>) -> (res: Result<
    Vec<String>,
    GrabError,
>)
    requires
        contents@.len() > 0 ==> all_applicable(rules@),
    ensures
        texts_result(res) == spec_process_group(rules@, views(contents@)),
{
    let mut made: Vec<String> = Vec::new();
    let ghost all = views(contents@);
    let mut i: usize = 0;
    assert(views(made@) =~= Seq::empty());
    while i < contents.len()
        invariant
            i <= contents.len(),
            all == views(contents@),
            contents@.len() > 0 ==> all_applicable(rules@),
            spec_process_each(rules@, all.take(i as int)) == Ok::<_, GrabError>(views(made@)),
        decreases contents.len() - i,
    {
        let ghost before = made@;
        assert(all.take(i + 1).drop_last() =~= all.take(i as int));
        assert(all.take(i + 1).last() == contents@[i as int]@);
        match process_all(rules, contents[i].clone()) {
            Ok(text) => {
                made.push(text);
                assert(views(made@) =~= views(before).push(text@));
            },
            Err(err) => {
                proof {
                    lemma_each_fails(rules@, all, i as int, err);
                }
                return Err(err);
            },
        }
        i += 1;
    }
    assert(all.take(all.len() as int) =~= all);
    let text = join_texts(made.as_slice(), "\n");
    Ok(nonblank_lines_of(text.as_str()))
}

/// A failure on one content is the outcome for all of them.
proof fn lemma_each_fails(
    rules: Seq<TablePageRule>,
    contents: Seq<Seq<char>>,
    i: int,
    err: GrabError,
)
    requires
        0 <= i < contents.len(),
        spec_process_each(rules, contents.take(i)) is Ok,
        spec_process_all(rules, contents[i]) == Err::<Seq<char>, _>(err),
    ensures
        spec_process_each(rules, contents) == Err::<Seq<Seq<char>>, _>(err),
    decreases contents.len(),
{
    if i == contents.len() - 1 {
        assert(contents.drop_last() =~= contents.take(i));
    } else {
        assert(contents.drop_last().take(i) =~= contents.take(i));
        lemma_each_fails(rules, contents.drop_last(), i, err);
    }
}

} // verus!
