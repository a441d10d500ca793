//! The check that a configured server address is an absolute URL, made by the
//! `url` crate.
use vstd::prelude::*;

verus! {

#[verifier::external_type_specification]
#[verifier::external_body]
pub struct ExParseError(url::ParseError);

/// What `url::Url::parse` answers for a text: `Ok` where the text is an absolute
/// URL by the WHATWG URL standard, and otherwise the error it reports.
pub uninterp spec fn url_parse_outcome(input: Seq<char>) -> Result<(), url::ParseError>;

/// Calls `url::Url::parse` on `input` and keeps only whether it succeeded and,
/// if not, its error. The contract claims that the outcome is a function of the
/// text alone (the parser reads no other state) and gives it a name; it says
/// nothing of which texts parse.
#[verifier::external_body]
pub(crate) fn check_url(input: &str) -> (r: Result<(), url::ParseError>)
    ensures
        r == url_parse_outcome(input@),
{
    match url::Url::parse(input) {
        Ok(_) => Ok(()),
        Err(e) => Err(e),
    }
}

} // verus!
