//! URLs, taken apart by the `url` crate.
use crate::net::{Ipv4Addr, Ipv6Addr};
use vstd::prelude::*;

verus! {

/// The host of a URL.
#[derive(Debug)]
pub enum UrlHost {
    Domain(String),
    V4(Ipv4Addr),
    V6(Ipv6Addr),
}

/// A URL and its parts.
#[derive(Debug)]
pub struct PeerUrl {
    /// The whole URL, as the parser writes it.
    pub text: String,
    pub scheme: String,
    pub host: Option<UrlHost>,
    /// The port, where one is written that is not the scheme's own.
    pub port: Option<u16>,
}

/// The host of a URL, over sequences.
#[verifier::ext_equal]
pub ghost enum HostView {
    Domain(Seq<char>),
    V4(Ipv4Addr),
    V6(Ipv6Addr),
}

/// A URL and its parts, over sequences.
#[verifier::ext_equal]
pub ghost struct UrlView {
    pub text: Seq<char>,
    pub scheme: Seq<char>,
    pub host: Option<HostView>,
    pub port: Option<u16>,
}

impl View for UrlHost {
    type V = HostView;

    open spec fn view(&self) -> HostView {
        match *self {
            UrlHost::Domain(name) => HostView::Domain(name@),
            UrlHost::V4(ip) => HostView::V4(ip),
            UrlHost::V6(ip) => HostView::V6(ip),
        }
    }
}

impl View for PeerUrl {
    type V = UrlView;

    open spec fn view(&self) -> UrlView {
        UrlView {
            text: self.text@,
            scheme: self.scheme@,
            host: match self.host {
                Some(host) => Some(host@),
                None => None,
            },
            port: self.port,
        }
    }
}

/// The parts of an optional URL.
pub open spec fn url_view(url: Option<PeerUrl>) -> Option<UrlView> {
    match url {
        Some(url) => Some(url@),
        None => None,
    }
}

/// What `url::Url::parse` makes of a text: the URL and its parts, or nothing where it is no URL.
pub uninterp spec fn url_parsed(text: Seq<char>) -> Option<UrlView>;

/// `url::Url::parse`, and `as_str`, `scheme`, `host` and `port` of its result. Claimed: the result
/// depends on the text alone.
#[verifier::external_body]
fn url_parse(text: &str) -> (res: Option<PeerUrl>)
    ensures
        url_view(res) == url_parsed(text@),
{
    let url = url::Url::parse(text).ok()?;
    let host = url.host().map(|host| match host {
        url::Host::Domain(name) => UrlHost::Domain(name.to_owned()),
        url::Host::Ipv4(ip) => UrlHost::V4(Ipv4Addr { bits: u32::from(ip) }),
        url::Host::Ipv6(ip) => UrlHost::V6(Ipv6Addr { bits: u128::from(ip) }),
    });
    Some(PeerUrl {
        text: url.as_str().to_owned(),
        scheme: url.scheme().to_owned(),
        host,
        port: url.port(),
    })
}

impl PeerUrl {
    /// Takes a URL apart; none where the text is no URL.
    pub fn parse(text: &str) -> (res: Option<PeerUrl>)
        ensures
            url_view(res) == url_parsed(text@),
    {
        url_parse(text)
    }
}

/// The parts of a URL are shown as they are.
pub proof fn parts_of_a_url(url: PeerUrl, name: String, v4: Ipv4Addr, v6: Ipv6Addr)
    ensures
        url@.text == url.text@,
        url@.scheme == url.scheme@,
        url@.port == url.port,
        url@.host is None <==> url.host is None,
        url.host matches Some(host) ==> url@.host == Some(host@),
        UrlHost::Domain(name)@ == HostView::Domain(name@),
        UrlHost::V4(v4)@ == HostView::V4(v4),
        UrlHost::V6(v6)@ == HostView::V6(v6),
        url_view(Some(url)) == Some(url@),
        url_view(None) is None,
{
}

} // verus!
