//! Request targets.

use http::Error as HttpError;
use vstd::prelude::*;

use crate::error::Error;
use crate::text::optional_text;

verus! {

/// A URI as text, with its authority where it has one.
#[verifier::ext_equal]
pub struct UriView {
    pub text: Seq<char>,
    pub authority: Option<Seq<char>>,
}

/// The URI that the `http` crate reads in `text`, written back, and the
/// authority that it finds there; or the error that it reports.
pub uninterp spec fn parsed_uri(
    text: Seq<char>,
) -> Result<(Seq<char>, Option<Seq<char>>), HttpError>;

/// Reads `text` as an `http::Uri`, writes that back and takes its authority.
/// Trusted: the outcome is a function of the text alone. The grammar of URIs is
/// not stated.
#[verifier::external_body]
fn read_uri(text: &str) -> (uri: Result<(String, Option<String>), HttpError>)
    ensures
        parsed_uri(text@) == (match uri {
            Ok((written, authority)) => Ok((written@, optional_text(authority))),
            Err(error) => Err(error),
        }),
{
    let uri: http::Uri = text.parse().map_err(HttpError::from)?;
    let authority = uri.authority().map(|authority| authority.as_str().to_string());
    Ok((uri.to_string(), authority))
}

/// The target of a request.
#[derive(Debug)]
pub struct Uri {
    text: String,
    authority: Option<String>,
}

impl Uri {
    /// The URI as text.
    pub closed spec fn view(&self) -> UriView {
        UriView { text: self.text@, authority: optional_text(self.authority) }
    }

    /// Reads a URI.
    pub fn parse(text: &str) -> (uri: Result<Self, Error>)
        ensures
            match parsed_uri(text@) {
                Ok((written, authority)) => {
                    &&& uri matches Ok(read)
                    &&& read@ == (UriView { text: written, authority })
                },
                Err(error) => uri == Err::<Uri, Error>(Error::Http(error)),
            },
    {
        match read_uri(text) {
            Ok((text, authority)) => Ok(Uri { text, authority }),
            Err(error) => Err(Error::Http(error)),
        }
    }

    /// The URI as text.
    pub fn as_str(&self) -> (text: &str)
        ensures
            text@ == self@.text,
    {
        self.text.as_str()
    }

    /// The authority, if the URI has one.
    pub fn authority(&self) -> (authority: Option<&str>)
        ensures
            authority is Some <==> self@.authority is Some,
            authority matches Some(text) ==> self@.authority == Some(text@),
    {
        match &self.authority {
            Some(authority) => Some(authority.as_str()),
            None => None,
        }
    }
}

impl Clone for Uri {
    /// The same URI again.
    fn clone(&self) -> (copy: Self)
        ensures
            copy@ == self@,
    {
        let authority = match &self.authority {
            Some(authority) => Some(authority.clone()),
            None => None,
        };
        Uri { text: self.text.clone(), authority }
    }
}

} // verus!
