//! Which targets may be shortened: absolute URLs that name a host.

use crate::error::{Error, ErrorView};
use vstd::prelude::*;
use vstd::string::StringExecFns;

verus! {

/// What the URL parser makes of a text: `Ok(has_host)` where the text is an
/// absolute URL, with `has_host` telling whether it names a host, and
/// `Err(reason)` where it is none, with the parser's reason in words.
///
/// The parser's rules fill a standard; nothing is said of them here but that
/// the same text always gets the same answer.
pub uninterp spec fn url_parse_outcome(text: Seq<char>) -> Result<bool, Seq<char>>;

/// A parse outcome with its reason taken as a sequence of characters.
pub open spec fn outcome_view(outcome: Result<bool, String>) -> Result<bool, Seq<char>> {
    match outcome {
        Ok(has_host) => Ok(has_host),
        Err(reason) => Err(reason@),
    }
}

/// A validation result with its error taken by view.
pub open spec fn verdict_view(verdict: Result<(), Error>) -> Result<(), ErrorView> {
    match verdict {
        Ok(()) => Ok(()),
        Err(e) => Err(e@),
    }
}

/// The reason given for a URL that parses but names no host.
pub open spec fn missing_host() -> Seq<char> {
    "missing host"@
}

/// The rule: a target is accepted where it parses and names a host. A text
/// that does not parse is refused with the parser's reason, one without a
/// host with [`missing_host`].
pub open spec fn verdict(outcome: Result<bool, Seq<char>>) -> Result<(), ErrorView> {
    match outcome {
        Ok(has_host) => if has_host {
            Ok(())
        } else {
            Err(ErrorView::InvalidInput(missing_host()))
        },
        Err(reason) => Err(ErrorView::InvalidInput(reason)),
    }
}

/// `text` is a target that the service accepts.
pub open spec fn is_valid_target(text: Seq<char>) -> bool {
    url_parse_outcome(text) == Ok::<bool, Seq<char>>(true)
}

/// Parses `text` as an absolute URL.
///
/// Trusted: the body calls `url::Url::parse`, then `Url::has_host` on a URL
/// and `to_string` on a `url::ParseError`, whose `Display` writes one fixed
/// sentence per variant. The contract claims only that the answer is the one
/// named [`url_parse_outcome`]: parsing reads nothing but its argument.
#[verifier::external_body]
fn parse_url(text: &str) -> (outcome: Result<bool, String>)
    ensures
        outcome_view(outcome) == url_parse_outcome(text@),
{
    match url::Url::parse(text) {
        Ok(parsed) => Ok(parsed.has_host()),
        Err(e) => Err(e.to_string()),
    }
}

/// Applies the rule of [`verdict`] to a parse outcome.
pub fn judge(outcome: Result<bool, String>) -> (result: Result<(), Error>)
    ensures
        verdict_view(result) == verdict(outcome_view(outcome)),
{
    match outcome {
        Ok(has_host) => {
            if has_host {
                Ok(())
            } else {
                Err(Error::InvalidInput(String::from_str("missing host")))
            }
        },
        Err(reason) => Err(Error::InvalidInput(reason)),
    }
}

/// Checks a submitted target: `Ok` exactly for a valid target, else
/// `InvalidInput` with the reason.
pub fn validate_url(text: &str) -> (result: Result<(), Error>)
    ensures
        verdict_view(result) == verdict(url_parse_outcome(text@)),
        result is Ok <==> is_valid_target(text@),
{
    judge(parse_url(text))
}

} // verus!
