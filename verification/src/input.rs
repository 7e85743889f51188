use vstd::prelude::*;
use crate::error::{ErrorModel, InspectError};
use crate::text::{contains_scheme_separator, has_scheme_separator, text_equals};

verus! {

/// What `reqwest::Url::parse` makes of a text: its serialization, its scheme
/// and its host, where the text parses as a URL.
pub uninterp spec fn parsed_url(input: Seq<char>) -> Option<
    (Seq<char>, Seq<char>, Option<Seq<char>>),
>;

/// The texts of an optional string.
pub open spec fn optional_text(s: Option<String>) -> Option<Seq<char>> {
    match s {
        Some(t) => Some(t@),
        None => None,
    }
}

/// A parsed URL, by the parts that the library reads.
#[derive(Debug)]
pub struct RemoteUrl {
    href: String,
    scheme: String,
    host: Option<String>,
}

impl View for RemoteUrl {
    /// Serialization, scheme and host.
    type V = (Seq<char>, Seq<char>, Option<Seq<char>>);

    closed spec fn view(&self) -> (Seq<char>, Seq<char>, Option<Seq<char>>) {
        (self.href@, self.scheme@, optional_text(self.host))
    }
}

impl RemoteUrl {
    /// A URL with the given serialization, scheme and host.
    pub fn new(href: String, scheme: String, host: Option<String>) -> (url: RemoteUrl)
        ensures
            url@ == (href@, scheme@, optional_text(host)),
    {
        RemoteUrl { href, scheme, host }
    }

    /// The URL as text.
    pub fn as_str(&self) -> (s: &str)
        ensures
            s@ == self@.0,
    {
        self.href.as_str()
    }

    /// The scheme, such as `https`.
    pub fn scheme(&self) -> (s: &str)
        ensures
            s@ == self@.1,
    {
        self.scheme.as_str()
    }

    /// The host, where the URL has one.
    pub fn host_str(&self) -> (h: Option<&str>)
        ensures
            match h {
                Some(t) => self@.2 == Some(t@),
                None => self@.2 is None,
            },
    {
        match &self.host {
            Some(host) => Some(host.as_str()),
            None => None,
        }
    }
}

/// Parses `input` as a URL (`reqwest::Url::parse`), keeping its
/// serialization, scheme and host.
#[verifier::external_body]
pub(crate) fn parse_url(input: &str) -> (res: Option<RemoteUrl>)
    ensures
        match parsed_url(input@) {
            None => res is None,
            Some(parts) => res matches Some(url) && url@ == parts,
        },
{
    match reqwest::Url::parse(input) {
        Ok(url) => Some(
            RemoteUrl {
                href: url.as_str().to_owned(),
                scheme: url.scheme().to_owned(),
                host: match url.host_str() {
                    Some(host) => Some(host.to_owned()),
                    None => None,
                },
            },
        ),
        Err(_) => None,
    }
}

/// Where a file is read from.
#[derive(Debug)]
pub enum Input {
    LocalPath(String),
    HttpUrl(RemoteUrl),
}

/// The model of an [`Input`].
pub enum InputModel {
    LocalPath(Seq<char>),
    HttpUrl((Seq<char>, Seq<char>, Option<Seq<char>>)),
}

impl View for Input {
    type V = InputModel;

    open spec fn view(&self) -> InputModel {
        match self {
            Input::LocalPath(path) => InputModel::LocalPath(path@),
            Input::HttpUrl(url) => InputModel::HttpUrl(url@),
        }
    }
}

/// The outcome `res` is the expected one: the same value by its model, or an
/// error with the same model.
pub open spec fn outcome_is<T: View>(
    res: Result<T, InspectError>,
    expected: Result<T::V, ErrorModel>,
) -> bool {
    match expected {
        Ok(v) => res matches Ok(r) && r@ == v,
        Err(e) => res matches Err(err) && err@ == e,
    }
}

/// What a text that holds `://` is, given what it parses to as a URL: an HTTP
/// or HTTPS URL, or an error for another scheme or a text that is no URL.
pub open spec fn url_outcome(
    input: Seq<char>,
    parsed: Option<(Seq<char>, Seq<char>, Option<Seq<char>>)>,
) -> Result<InputModel, ErrorModel> {
    match parsed {
        None => Err(ErrorModel::InvalidRemoteResponse { url: input, reason: "malformed URL"@ }),
        Some(url) => if url.1 == "http"@ || url.1 == "https"@ {
            Ok(InputModel::HttpUrl(url))
        } else {
            Err(ErrorModel::UnsupportedUrlScheme(url.1))
        },
    }
}

/// What an input names: a local path where it holds no `://`, else a URL.
pub open spec fn input_outcome(input: Seq<char>) -> Result<InputModel, ErrorModel> {
    if !has_scheme_separator(input) {
        Ok(InputModel::LocalPath(input))
    } else {
        url_outcome(input, parsed_url(input))
    }
}

/// Decides what a text with `://` names, given what it parsed to as a URL.
pub fn classify_url(input: &str, parsed: Option<RemoteUrl>) -> (res: Result<Input, InspectError>)
    ensures
        outcome_is(
            res,
            url_outcome(
                input@,
                match parsed {
                    Some(u) => Some(u@),
                    None => None,
                },
            ),
        ),
{
    match parsed {
        Some(url) => {
            let http = text_equals(url.scheme(), "http");
            let https = text_equals(url.scheme(), "https");
            if http || https {
                Ok(Input::HttpUrl(url))
            } else {
                Err(InspectError::UnsupportedUrlScheme(url.scheme().to_owned()))
            }
        },
        None => Err(
            InspectError::InvalidRemoteResponse {
                url: input.to_owned(),
                reason: "malformed URL".to_owned(),
            },
        ),
    }
}

/// Decides whether `input` names a local file or an HTTP(S) URL. A text
/// without `://` is a path, whatever else it holds.
pub fn classify_input(input: &str) -> (res: Result<Input, InspectError>)
    ensures
        outcome_is(res, input_outcome(input@)),
{
    if !contains_scheme_separator(input) {
        return Ok(Input::LocalPath(input.to_owned()));
    }
    let parsed = parse_url(input);
    classify_url(input, parsed)
}

/// The host names that are Hugging Face.
pub open spec fn is_hugging_face_host(host: Option<Seq<char>>) -> bool {
    host == Some("huggingface.co"@) || host == Some("www.huggingface.co"@)
}

/// Whether a URL points at Hugging Face.
pub fn is_hugging_face_url(url: &RemoteUrl) -> (hf: bool)
    ensures
        hf == is_hugging_face_host(url@.2),
{
    match url.host_str() {
        Some(host) => text_equals(host, "huggingface.co") || text_equals(
            host,
            "www.huggingface.co",
        ),
        None => false,
    }
}

/// The `Authorization` value to send with a request for `url`: a bearer
/// token for Hugging Face URLs where a non-empty token is given, else none.
pub open spec fn authorization_for(
    url: (Seq<char>, Seq<char>, Option<Seq<char>>),
    token: Option<Seq<char>>,
) -> Option<Seq<char>> {
    match token {
        Some(t) => if is_hugging_face_host(url.2) && t.len() > 0 {
            Some("Bearer "@ + t)
        } else {
            None
        },
        None => None,
    }
}

/// Chooses the `Authorization` header of a request for `url` from the
/// `HF_TOKEN` value, where one is set.
pub fn bearer_authorization(url: &RemoteUrl, token: Option<String>) -> (value: Option<String>)
    ensures
        optional_text(value) == authorization_for(url@, optional_text(token)),
{
    if !is_hugging_face_url(url) {
        return None;
    }
    match token {
        Some(t) => {
            if t.as_str().unicode_len() == 0 {
                None
            } else {
                let mut value = String::new();
                value.append("Bearer ");
                value.append(t.as_str());
                Some(value)
            }
        },
        None => None,
    }
}

} // verus!
