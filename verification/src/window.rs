//! The address the main window's harness webview opens.

use vstd::prelude::*;
use url::{ParseError, Url};

verus! {

#[verifier::external_type_specification]
#[verifier::external_body]
pub struct ExUrl(Url);

#[verifier::external_type_specification]
#[verifier::external_body]
pub struct ExParseError(ParseError);

/// What `url::Url::parse` gives for `text`: a function of the text alone.
pub uninterp spec fn url_parsed(text: Seq<char>) -> Result<Url, ParseError>;

/// `url::Url::parse`. The contract claims only that its result is the one
/// named `url_parsed` for the text; what a parsed URL holds is left unsaid.
#[verifier::external_body]
fn parse_url(text: &str) -> (r: Result<Url, ParseError>)
    ensures
        r == url_parsed(text@),
{
    Url::parse(text)
}

/// The URL the backend announced, parsed for the harness webview; an
/// unparseable announcement is an error.
pub fn window_target(announced: &str) -> (r: Result<Url, ParseError>)
    ensures
        r == url_parsed(announced@),
{
    parse_url(announced)
}

} // verus!
