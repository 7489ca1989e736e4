//! The client side of an SSH connection: deciding whether to trust the key
//! a server presents, from what `~/.ssh/known_hosts` says of it.
use vstd::prelude::*;

use crate::text::{decimal, decimal_string};

verus! {

/// What was found out about the key a server presented.
#[derive(Debug, Clone, PartialEq, Eq)]
pub enum HostKeyCheck {
    /// The server presented a certificate rather than a plain key.
    Certificate,
    /// `known_hosts` lists this key for the host.
    Known,
    /// `known_hosts` says nothing of the host.
    Unknown,
    /// `known_hosts` lists another key for the host, on this line.
    Changed { line: usize },
    /// `known_hosts` could not be read; the error's text.
    Unreadable(String),
}

pub enum HostKeyCheckView {
    Certificate,
    Known,
    Unknown,
    Changed(usize),
    Unreadable(Seq<char>),
}

impl View for HostKeyCheck {
    type V = HostKeyCheckView;

    open spec fn view(&self) -> HostKeyCheckView {
        match self {
            HostKeyCheck::Certificate => HostKeyCheckView::Certificate,
            HostKeyCheck::Known => HostKeyCheckView::Known,
            HostKeyCheck::Unknown => HostKeyCheckView::Unknown,
            HostKeyCheck::Changed { line } => HostKeyCheckView::Changed(*line),
            HostKeyCheck::Unreadable(m) => HostKeyCheckView::Unreadable(m@),
        }
    }
}

/// The answer to a presented key: trusted, or refused with a message.
pub open spec fn host_key_verdict(host: Seq<char>, port: u16, check: HostKeyCheckView) -> Result<bool, Seq<char>> {
    match check {
        HostKeyCheckView::Certificate => Err(
            "the host key for "@ + host + " is a certificate, which TermConnect does not yet support"@,
        ),
        HostKeyCheckView::Known => Ok(true),
        HostKeyCheckView::Unknown => Err(
            "host key for "@ + host + ":"@ + decimal(port as nat)
                + " is not in ~/.ssh/known_hosts \u{2014} connect once with the system `ssh` client to trust it, or add it manually"@,
        ),
        HostKeyCheckView::Changed(line) => Err(
            "REMOTE HOST IDENTIFICATION HAS CHANGED for "@ + host + ":"@ + decimal(port as nat)
                + " (see ~/.ssh/known_hosts line "@ + decimal(line as nat) + ") \u{2014} refusing to connect"@,
        ),
        HostKeyCheckView::Unreadable(m) => Err(m),
    }
}

/// The connection handler: it knows which host and port it connects to,
/// and decides on the key the server presents.
pub struct TermConnectHandler {
    host: String,
    port: u16,
}

impl TermConnectHandler {
    pub closed spec fn host_spec(&self) -> Seq<char> {
        self.host@
    }

    pub closed spec fn port_spec(&self) -> u16 {
        self.port
    }

    pub fn new(host: &str, port: u16) -> (r: TermConnectHandler)
        ensures
            r.host_spec() == host@,
            r.port_spec() == port,
    {
        TermConnectHandler { host: host.to_owned(), port }
    }

    pub fn host(&self) -> (r: &str)
        ensures
            r@ == self.host_spec(),
    {
        self.host.as_str()
    }

    pub fn port(&self) -> (r: u16)
        ensures
            r == self.port_spec(),
    {
        self.port
    }

    /// Trusts the key only where `known_hosts` lists it for this host; a
    /// certificate, an unknown host or a changed key is refused with a
    /// message that says which.
    pub fn check_server_key(&self, check: &HostKeyCheck) -> (r: Result<bool, String>)
        ensures
            match r {
                Ok(b) => host_key_verdict(self.host_spec(), self.port_spec(), check@) == Ok::<bool, Seq<char>>(b),
                Err(m) => host_key_verdict(self.host_spec(), self.port_spec(), check@) == Err::<bool, Seq<char>>(m@),
            },
    {
        match check {
            HostKeyCheck::Certificate => {
                let mut m: String = "the host key for ".to_owned();
                m.append(self.host.as_str());
                m.append(" is a certificate, which TermConnect does not yet support");
                Err(m)
            },
            HostKeyCheck::Known => Ok(true),
            HostKeyCheck::Unknown => {
                let mut m: String = "host key for ".to_owned();
                m.append(self.host.as_str());
                m.append(":");
                let port: String = decimal_string(self.port as u64);
                m.append(port.as_str());
                m.append(
                    " is not in ~/.ssh/known_hosts \u{2014} connect once with the system `ssh` client to trust it, or add it manually",
                );
                Err(m)
            },
            HostKeyCheck::Changed { line } => {
                let mut m: String = "REMOTE HOST IDENTIFICATION HAS CHANGED for ".to_owned();
                m.append(self.host.as_str());
                m.append(":");
                let port: String = decimal_string(self.port as u64);
                m.append(port.as_str());
                m.append(" (see ~/.ssh/known_hosts line ");
                let number: String = decimal_string(*line as u64);
                m.append(number.as_str());
                m.append(") \u{2014} refusing to connect");
                Err(m)
            },
            HostKeyCheck::Unreadable(text) => Err(text.clone()),
        }
    }
}

} // verus!
