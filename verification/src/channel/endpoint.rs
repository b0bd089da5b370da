//! IRC server URLs, and the binding of a room to a channel.

use vstd::prelude::*;
use vstd::string::*;

use crate::collections::{copy_option, held};
use crate::error::{outcome, Error};
use crate::text::{
    begins_with, decimal, decimal_text, same_text, starts_with, starts_with_char, trim, trimmed,
};

verus! {

pub const IRC_DEFAULT_PORT: u16 = 6667;

pub const IRCS_DEFAULT_PORT: u16 = 6697;

/// The host of a URL.
pub enum UrlHost {
    Domain(String),
    Ipv4(String),
    Ipv6(String),
    Missing,
}

/// The parts of a URL that say where and how to connect.
pub struct UrlParts {
    pub scheme: String,
    pub host: UrlHost,
    pub port: Option<u16>,
}

/// What a `UrlHost` holds.
pub enum HostView {
    Domain(Seq<char>),
    Ipv4(Seq<char>),
    Ipv6(Seq<char>),
    Missing,
}

/// What a `UrlParts` holds.
pub struct UrlView {
    pub scheme: Seq<char>,
    pub host: HostView,
    pub port: Option<u16>,
}

impl View for UrlHost {
    type V = HostView;

    open spec fn view(&self) -> HostView {
        match self {
            UrlHost::Domain(name) => HostView::Domain(name@),
            UrlHost::Ipv4(address) => HostView::Ipv4(address@),
            UrlHost::Ipv6(address) => HostView::Ipv6(address@),
            UrlHost::Missing => HostView::Missing,
        }
    }
}

impl View for UrlParts {
    type V = UrlView;

    open spec fn view(&self) -> UrlView {
        UrlView { scheme: self.scheme@, host: self.host@, port: self.port }
    }
}

/// What `url::Url::parse` makes of a text: its parts, or the error's message.
pub uninterp spec fn url_parts(text: Seq<char>) -> Result<UrlView, Seq<char>>;

/// A parse by what it shows.
pub open spec fn parsed(r: Result<UrlParts, String>) -> Result<UrlView, Seq<char>> {
    match r {
        Ok(parts) => Ok(parts@),
        Err(error) => Err(error@),
    }
}

/// `url::Url::parse`, with the parsed URL read off by `scheme`, `host` and
/// `port`: what it gives depends on the text alone, and the scheme of a URL is
/// the one that the text begins with.
#[verifier::external_body]
fn parse_url(text: &str) -> (r: Result<UrlParts, String>)
    ensures
        parsed(r) == url_parts(text@),
        r is Ok && "irc://"@.is_prefix_of(text@) ==> r->Ok_0.scheme@ == "irc"@,
        r is Ok && "ircs://"@.is_prefix_of(text@) ==> r->Ok_0.scheme@ == "ircs"@,
{
    let url = url::Url::parse(text).map_err(|error| error.to_string())?;
    let host = match url.host() {
        Some(url::Host::Domain(name)) => UrlHost::Domain(name.to_string()),
        Some(url::Host::Ipv4(address)) => UrlHost::Ipv4(address.to_string()),
        Some(url::Host::Ipv6(address)) => UrlHost::Ipv6(address.to_string()),
        None => UrlHost::Missing,
    };
    Ok(UrlParts { scheme: url.scheme().to_string(), host, port: url.port() })
}

/// Where to connect, under which name, and whether over TLS.
#[derive(Debug)]
pub struct ServerEndpoint {
    pub connect: String,
    pub sni: String,
    pub tls: bool,
}

/// What a `ServerEndpoint` holds.
#[verifier::ext_equal]
pub struct EndpointView {
    pub connect: Seq<char>,
    pub sni: Seq<char>,
    pub tls: bool,
}

impl View for ServerEndpoint {
    type V = EndpointView;

    open spec fn view(&self) -> EndpointView {
        EndpointView { connect: self.connect@, sni: self.sni@, tls: self.tls }
    }
}

/// The port of a URL, or the default one of its scheme.
pub open spec fn port_or_default(parts: UrlView) -> u16 {
    match parts.port {
        Some(port) => port,
        None => if parts.scheme == "ircs"@ {
            IRCS_DEFAULT_PORT
        } else {
            IRC_DEFAULT_PORT
        },
    }
}

/// The connection target of the server URL `server` whose parts are `parts`,
/// or why there is none.
pub open spec fn endpoint_of(server: Seq<char>, parts: Result<UrlView, Seq<char>>) -> Result<
    EndpointView,
    Seq<char>,
> {
    if trim(server).len() == 0 {
        Err("set the IRC server with :irc-server <irc://host[:port]> or <ircs://host[:port]>"@)
    } else if !("irc://"@.is_prefix_of(server) || "ircs://"@.is_prefix_of(server)) {
        Err(
            "IRC server must be a full URL: irc://host[:port] or ircs://host[:port] (got '"@
                + server + "')"@,
        )
    } else {
        match parts {
            Err(error) => Err("invalid IRC server URL '"@ + server + "': "@ + error),
            Ok(parts) => {
                let tls = parts.scheme == "ircs"@;
                let port = decimal(port_or_default(parts) as nat);
                match parts.host {
                    HostView::Missing => Err(
                        "IRC server URL '"@ + server + "' is missing a host"@,
                    ),
                    HostView::Domain(name) => Ok(
                        EndpointView { connect: name + ":"@ + port, sni: name, tls },
                    ),
                    HostView::Ipv4(address) => Ok(
                        EndpointView { connect: address + ":"@ + port, sni: address, tls },
                    ),
                    HostView::Ipv6(address) => Ok(
                        EndpointView {
                            connect: "["@ + address + "]:"@ + port,
                            sni: address,
                            tls,
                        },
                    ),
                }
            },
        }
    }
}

/// The connection target of a server URL that was taken apart already.
pub fn endpoint_from_parts(server: &str, parts: Result<UrlParts, String>) -> (r: Result<
    ServerEndpoint,
    Error,
>)
    ensures
        outcome(r) == endpoint_of(server@, parsed(parts)),
{
    if trimmed(server).is_empty() {
        return Err(
            Error::of(
                "set the IRC server with :irc-server <irc://host[:port]> or <ircs://host[:port]>",
            ),
        );
    }
    if !(starts_with(server, "irc://") || starts_with(server, "ircs://")) {
        return Err(
            Error::new(
                "IRC server must be a full URL: irc://host[:port] or ircs://host[:port] (got '".to_owned().concat(
                server).concat("')"),
            ),
        );
    }
    match parts {
        Err(error) => Err(
            Error::new(
                "invalid IRC server URL '".to_owned().concat(server).concat("': ").concat(
                    error.as_str(),
                ),
            ),
        ),
        Ok(parts) => {
            let tls = same_text(parts.scheme.as_str(), "ircs");
            let port: u16 = match parts.port {
                Some(port) => port,
                None => if tls {
                    IRCS_DEFAULT_PORT
                } else {
                    IRC_DEFAULT_PORT
                },
            };
            let port = decimal_text(port as u64);
            match parts.host {
                UrlHost::Missing => Err(
                    Error::new(
                        "IRC server URL '".to_owned().concat(server).concat("' is missing a host"),
                    ),
                ),
                UrlHost::Domain(name) => {
                    let connect = name.clone().concat(":").concat(port.as_str());
                    Ok(ServerEndpoint { connect, sni: name, tls })
                },
                UrlHost::Ipv4(address) => {
                    let connect = address.clone().concat(":").concat(port.as_str());
                    Ok(ServerEndpoint { connect, sni: address, tls })
                },
                UrlHost::Ipv6(address) => {
                    let connect = "[".to_owned().concat(address.as_str()).concat("]:").concat(
                        port.as_str(),
                    );
                    Ok(ServerEndpoint { connect, sni: address, tls })
                },
            }
        },
    }
}

/// The connection target of a server URL, or why there is none.
pub open spec fn endpoint_at(server: Seq<char>) -> Result<EndpointView, Seq<char>> {
    endpoint_of(server, url_parts(server))
}

/// Parse an IRC server URL into its connection target. `irc://` is plaintext
/// TCP (default port 6667); `ircs://` is TLS (default port 6697).
pub fn server_endpoint(server: &str) -> (r: Result<ServerEndpoint, Error>)
    ensures
        outcome(r) == endpoint_at(server@),
        r is Ok ==> r->Ok_0.tls == "ircs://"@.is_prefix_of(server@),
{
    let parts = parse_url(server);
    proof {
        reveal_strlit("irc");
        reveal_strlit("ircs");
        reveal_strlit("irc://");
        reveal_strlit("ircs://");
        assert("irc"@.len() != "ircs"@.len());
    }
    endpoint_from_parts(server, parts)
}

/// Why a server URL is not accepted, if it is not.
pub open spec fn server_refusal(server: Seq<char>) -> Option<Seq<char>> {
    match endpoint_at(server) {
        Ok(_) => None,
        Err(error) => Some(error),
    }
}

/// Validate that `server` is a supported IRC URL. Used by `:irc-server` for
/// early feedback before any connection attempt.
pub fn validate_irc_server_url(server: &str) -> (r: Result<(), Error>)
    ensures
        match r {
            Ok(_) => server_refusal(server@) is None,
            Err(error) => server_refusal(server@) == Some(error@),
        },
{
    match server_endpoint(server) {
        Ok(_) => Ok(()),
        Err(error) => Err(error),
    }
}

/// The IRC channel that a room is bound to.
#[derive(Debug)]
pub struct IrcBinding {
    pub server: String,
    pub channel: String,
    /// The nick of occupants that present none of their own.
    pub nick: String,
    pub net: Option<String>,
    pub pass: Option<String>,
}

/// What an `IrcBinding` holds.
#[verifier::ext_equal]
pub struct BindingView {
    pub server: Seq<char>,
    pub channel: Seq<char>,
    pub nick: Seq<char>,
    pub net: Option<Seq<char>>,
    pub pass: Option<Seq<char>>,
}

impl View for IrcBinding {
    type V = BindingView;

    open spec fn view(&self) -> BindingView {
        BindingView {
            server: self.server@,
            channel: self.channel@,
            nick: self.nick@,
            net: held(self.net),
            pass: held(self.pass),
        }
    }
}

impl Clone for IrcBinding {
    fn clone(&self) -> (r: IrcBinding)
        ensures
            r@ == self@,
    {
        IrcBinding {
            server: self.server.clone(),
            channel: self.channel.clone(),
            nick: self.nick.clone(),
            net: copy_option(&self.net),
            pass: copy_option(&self.pass),
        }
    }
}

/// A binding with nothing configured.
pub open spec fn unbound() -> BindingView {
    BindingView {
        server: Seq::empty(),
        channel: Seq::empty(),
        nick: Seq::empty(),
        net: None,
        pass: None,
    }
}

impl Default for IrcBinding {
    fn default() -> (r: IrcBinding)
        ensures
            r@ == unbound(),
    {
        IrcBinding {
            server: String::new(),
            channel: String::new(),
            nick: String::new(),
            net: None,
            pass: None,
        }
    }
}

/// Whether `channel` is `#` followed by a name.
pub open spec fn valid_channel(channel: Seq<char>) -> bool {
    begins_with(channel, '#') && channel.len() != 1
}

pub fn is_valid_channel(channel: &str) -> (r: bool)
    ensures
        r == valid_channel(channel@),
{
    starts_with_char(channel, '#') && channel.unicode_len() != 1
}

/// Why the channel cannot be joined under this binding, if it cannot.
pub open spec fn join_refusal(binding: BindingView) -> Option<Seq<char>> {
    match endpoint_at(binding.server) {
        Err(error) => Some(error),
        Ok(_) => if valid_channel(binding.channel) {
            None
        } else {
            Some("set the IRC channel with :irc-channel #<name>"@)
        },
    }
}

impl IrcBinding {
    pub fn validate_for_join(&self) -> (r: Result<(), Error>)
        ensures
            match r {
                Ok(_) => join_refusal(self@) is None,
                Err(error) => join_refusal(self@) == Some(error@),
            },
    {
        match server_endpoint(self.server.as_str()) {
            Err(error) => Err(error),
            Ok(_) => if is_valid_channel(self.channel.as_str()) {
                Ok(())
            } else {
                Err(Error::of("set the IRC channel with :irc-channel #<name>"))
            },
        }
    }
}

} // verus!
