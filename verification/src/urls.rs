//! URLs as text.
use crate::text::opt_view;
use reqwest::Url;
use vstd::prelude::*;

verus! {

/// The normal form of the URL that a text stands for, if it stands for one.
pub uninterp spec fn url_parsed(text: Seq<char>) -> Option<Seq<char>>;

/// The normal form of the URL that a link stands for on the page at `base`, if it stands for one.
pub uninterp spec fn url_joined(base: Seq<char>, link: Seq<char>) -> Option<Seq<char>>;

/// The normal form, without its query, of the URL that a text stands for, if it stands for one.
pub uninterp spec fn url_bare(text: Seq<char>) -> Option<Seq<char>>;

/// `Url::parse`: reads an absolute URL. What it reads is a function of the text.
#[verifier::external_body]
pub(crate) fn parse_url(text: &str) -> (res: Option<String>)
    ensures
        opt_view(res) == url_parsed(text@),
{
    Url::parse(text).ok().map(|url| url.to_string())
}

/// `Url::join`: reads a link on the page at `base`. What it reads is a function of the two texts.
#[verifier::external_body]
pub(crate) fn join_url(base: &str, link: &str) -> (res: Option<String>)
    requires
        url_parsed(base@) is Some,
    ensures
        opt_view(res) == url_joined(base@, link@),
{
    let base = Url::parse(base).expect("the base is a URL");
    base.join(link).ok().map(|url| url.to_string())
}

/// `Url::set_query`, with no query: takes the query off a URL. The text stands for a URL exactly if
/// there is a result, which is a function of the text.
#[verifier::external_body]
pub(crate) fn without_query(text: &str) -> (res: Option<String>)
    ensures
        opt_view(res) == url_bare(text@),
        res is Some <==> url_parsed(text@) is Some,
{
    let mut url = Url::parse(text).ok()?;
    url.set_query(None);
    Some(url.to_string())
}

} // verus!
