//! How the channel to the detection service is set up: from the service's
//! URL to a plan that says where to connect, and whether under TLS and for
//! which server name.

use vstd::prelude::*;
use vstd::string::StringExecFns;

verus! {

/// What a URL is made of, as far as the channel needs it.
#[derive(Debug, PartialEq, Eq)]
pub struct UrlParts {
    /// The URL as the parser writes it out again.
    pub text: String,
    pub scheme: String,
    pub host: Option<String>,
}

pub struct UrlPartsView {
    pub text: Seq<char>,
    pub scheme: Seq<char>,
    pub host: Option<Seq<char>>,
}

impl View for UrlParts {
    type V = UrlPartsView;

    open spec fn view(&self) -> UrlPartsView {
        UrlPartsView {
            text: self.text@,
            scheme: self.scheme@,
            host: match self.host {
                Some(h) => Some(h@),
                None => None,
            },
        }
    }
}

/// What `url::Url::parse` makes of `text`: the parts of the URL, or the
/// text of the parser's error.
pub uninterp spec fn url_parsing(text: Seq<char>) -> Result<UrlPartsView, Seq<char>>;

pub open spec fn parsing_of(r: Result<UrlParts, String>) -> Result<UrlPartsView, Seq<char>> {
    match r {
        Ok(parts) => Ok(parts@),
        Err(e) => Err(e@),
    }
}

/// Calls `url::Url::parse`, and on the URL `to_string`, `scheme` and
/// `host_str`; an error is handed on as its text. Parsing reads nothing but
/// `text`, so the result is named after it; nothing else is claimed.
#[verifier::external_body]
fn parse_url(text: &str) -> (r: Result<UrlParts, String>)
    ensures
        parsing_of(r) == url_parsing(text@),
{
    match url::Url::parse(text) {
        Ok(url) => Ok(
            UrlParts {
                text: url.to_string(),
                scheme: url.scheme().to_string(),
                host: url.host_str().map(|h| h.to_string()),
            },
        ),
        Err(e) => Err(e.to_string()),
    }
}

/// Where and how to connect.
#[derive(Debug, PartialEq, Eq)]
pub struct ChannelPlan {
    /// The address of the service.
    pub uri: String,
    /// Under TLS, the name that the server's certificate is checked against
    /// and that is sent as the server name; it is the host of the URL, also
    /// where that is an IP address. `None` for a connection without TLS.
    pub tls_domain: Option<String>,
}

pub struct ChannelPlanView {
    pub uri: Seq<char>,
    pub tls_domain: Option<Seq<char>>,
}

impl View for ChannelPlan {
    type V = ChannelPlanView;

    open spec fn view(&self) -> ChannelPlanView {
        ChannelPlanView {
            uri: self.uri@,
            tls_domain: match self.tls_domain {
                Some(d) => Some(d@),
                None => None,
            },
        }
    }
}

/// Why no channel can be planned.
#[derive(Debug, PartialEq, Eq)]
pub enum ConnectError {
    /// The URL does not parse; the text is the parser's.
    InvalidUrl(String),
    /// The URL asks for TLS and names no host.
    MissingHost,
}

pub enum ConnectErrorView {
    InvalidUrl(Seq<char>),
    MissingHost,
}

impl View for ConnectError {
    type V = ConnectErrorView;

    open spec fn view(&self) -> ConnectErrorView {
        match self {
            ConnectError::InvalidUrl(e) => ConnectErrorView::InvalidUrl(e@),
            ConnectError::MissingHost => ConnectErrorView::MissingHost,
        }
    }
}

impl ConnectError {
    pub open spec fn message_text(&self) -> Seq<char> {
        match self {
            ConnectError::InvalidUrl(e) => e@,
            ConnectError::MissingHost => "Missing host in URL"@,
        }
    }

    /// The error in words.
    pub fn message(&self) -> (r: String)
        ensures
            r@ == self.message_text(),
    {
        match self {
            ConnectError::InvalidUrl(e) => e.clone(),
            ConnectError::MissingHost => String::from_str("Missing host in URL"),
        }
    }
}

/// The plan for a URL, given what the parser makes of it: TLS exactly for
/// the scheme `https`, with the URL's host as the server's name.
pub open spec fn planned(parsing: Result<UrlPartsView, Seq<char>>) -> Result<
    ChannelPlanView,
    ConnectErrorView,
> {
    match parsing {
        Err(e) => Err(ConnectErrorView::InvalidUrl(e)),
        Ok(parts) => if parts.scheme == "https"@ {
            match parts.host {
                Some(host) => Ok(ChannelPlanView { uri: parts.text, tls_domain: Some(host) }),
                None => Err(ConnectErrorView::MissingHost),
            }
        } else {
            Ok(ChannelPlanView { uri: parts.text, tls_domain: None })
        },
    }
}

pub open spec fn plan_of(r: Result<ChannelPlan, ConnectError>) -> Result<
    ChannelPlanView,
    ConnectErrorView,
> {
    match r {
        Ok(p) => Ok(p@),
        Err(e) => Err(e@),
    }
}

/// Plans the channel for a URL that the parser has read.
pub fn plan_channel(parsing: Result<UrlParts, String>) -> (r: Result<ChannelPlan, ConnectError>)
    ensures
        plan_of(r) == planned(parsing_of(parsing)),
{
    match parsing {
        Err(e) => Err(ConnectError::InvalidUrl(e)),
        Ok(parts) => {
            let https = String::from_str("https");
            if parts.scheme == https {
                match parts.host {
                    Some(host) => Ok(ChannelPlan { uri: parts.text, tls_domain: Some(host) }),
                    None => Err(ConnectError::MissingHost),
                }
            } else {
                Ok(ChannelPlan { uri: parts.text, tls_domain: None })
            }
        },
    }
}

/// Plans the channel to the service at `grpc_url`.
pub fn create_grpc_client(grpc_url: &str) -> (r: Result<ChannelPlan, ConnectError>)
    ensures
        plan_of(r) == planned(url_parsing(grpc_url@)),
{
    plan_channel(parse_url(grpc_url))
}

} // verus!
