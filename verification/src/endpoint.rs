//! URLs of services.

use vstd::prelude::*;

verus! {

/// What `url::Url::parse` makes of a text: the URL it denotes, in its normal
/// form, or the message of the error.
pub uninterp spec fn url_of(text: Seq<char>) -> Result<Seq<char>, Seq<char>>;

/// `url::Url::parse`: the URL that a text denotes, as text, or what the error
/// says.
#[verifier::external_body]
pub(crate) fn parse_url(text: &str) -> (r: Result<String, String>)
    ensures
        match r {
            Ok(url) => url_of(text@) == Ok::<_, Seq<char>>(url@),
            Err(message) => url_of(text@) == Err::<Seq<char>, _>(message@),
        },
{
    url::Url::parse(text).map(String::from).map_err(|e| e.to_string())
}

/// A text as Rust writes a string literal of it: what `{:?}` gives.
pub uninterp spec fn debug_form(text: Seq<char>) -> Seq<char>;

/// `{:?}` of a string.
#[verifier::external_body]
pub(crate) fn debug_text(text: &str) -> (r: String)
    ensures
        r@ == debug_form(text@),
{
    format!("{:?}", text)
}

} // verus!
