//! Absolute URLs, validated by the `url` crate.

use vstd::prelude::*;

verus! {

#[verifier::external_type_specification]
#[verifier::external_body]
pub struct ExParseError(url::ParseError);

/// What `url::Url::parse` makes of `input`: the serialization of the parsed
/// URL, or `None` where the input is not an absolute URL.
pub uninterp spec fn url_parse(input: Seq<char>) -> Option<Seq<char>>;

/// Calls `url::Url::parse` and hands back the serialization that the parsed
/// URL holds (what `Url::as_str` shows), or the crate's error.
///
/// Trusted: that the call succeeds exactly where [`url_parse`] is `Some`, and
/// that the text is then the one it names. Nothing is claimed about which
/// inputs parse.
#[verifier::external_body]
fn parse_url(input: &str) -> (parsed: Result<String, url::ParseError>)
    ensures
        parsed is Ok <==> url_parse(input@) is Some,
        parsed matches Ok(text) ==> url_parse(input@) == Some(text@),
{
    url::Url::parse(input).map(String::from)
}

/// An absolute URL that has passed validation. It can only be made by
/// [`HttpUrl::parse`], so every value holds the text of a parsed URL.
#[derive(Debug, PartialEq, Eq)]
pub struct HttpUrl {
    text: String,
}

impl View for HttpUrl {
    type V = Seq<char>;

    closed spec fn view(&self) -> Seq<char> {
        self.text@
    }
}

impl HttpUrl {
    /// Whether `text` is the serialization that parsing some input gave.
    pub open spec fn is_validated(text: Seq<char>) -> bool {
        exists|input: Seq<char>| #[trigger] url_parse(input) == Some(text)
    }

    #[verifier::type_invariant]
    spec fn validated(&self) -> bool {
        HttpUrl::is_validated(self.text@)
    }

    /// Parses `input` as an absolute URL. `None` where it is not one.
    pub fn parse(input: &str) -> (url: Option<HttpUrl>)
        ensures
            url is Some <==> url_parse(input@) is Some,
            url matches Some(u) ==> url_parse(input@) == Some(u@),
    {
        match parse_url(input) {
            Ok(text) => {
                assert(url_parse(input@) == Some(text@));
                Some(HttpUrl { text })
            },
            Err(_) => None,
        }
    }

    /// The URL's text, as a request is to be made to.
    pub fn as_str(&self) -> (text: &str)
        ensures
            text@ == self@,
            HttpUrl::is_validated(self@),
    {
        proof {
            use_type_invariant(self);
        }
        self.text.as_str()
    }
}

} // verus!
