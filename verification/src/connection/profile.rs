//! Saved connection profiles, and the connection entries the connections
//! screen lists (saved profiles and `~/.ssh/config` hosts).
use vstd::prelude::*;

verus! {

pub open spec fn opt_view(o: Option<String>) -> Option<Seq<char>> {
    match o {
        Some(s) => Some(s@),
        None => None,
    }
}

/// A connection saved in `connections.toml`; `name` is the table key.
#[derive(Clone, PartialEq, Eq)]
pub struct ConnectionProfile {
    pub name: String,
    pub host: String,
    pub port: u16,
    pub username: String,
    pub identity_file: Option<String>,
    pub remote_path: Option<String>,
    pub password: Option<String>,
}

#[derive(Debug, Clone, Copy, PartialEq, Eq, Structural)]
pub enum ConnectionSource {
    Profile,
    SshConfig,
}

/// A connection that can be dialled, whichever file it came from.
#[derive(Clone, PartialEq, Eq)]
pub struct ConnectionEntry {
    pub name: String,
    pub host: String,
    pub port: u16,
    pub username: String,
    pub identity_file: Option<String>,
    pub remote_path: Option<String>,
    pub password: Option<String>,
    pub source: ConnectionSource,
}

pub struct ConnectionView {
    pub name: Seq<char>,
    pub host: Seq<char>,
    pub port: u16,
    pub username: Seq<char>,
    pub identity_file: Option<Seq<char>>,
    pub remote_path: Option<Seq<char>>,
    pub password: Option<Seq<char>>,
    pub source: ConnectionSource,
}

impl View for ConnectionEntry {
    type V = ConnectionView;

    open spec fn view(&self) -> ConnectionView {
        ConnectionView {
            name: self.name@,
            host: self.host@,
            port: self.port,
            username: self.username@,
            identity_file: opt_view(self.identity_file),
            remote_path: opt_view(self.remote_path),
            password: opt_view(self.password),
            source: self.source,
        }
    }
}

impl View for ConnectionProfile {
    type V = ConnectionView;

    /// A profile seen as the entry it becomes.
    open spec fn view(&self) -> ConnectionView {
        ConnectionView {
            name: self.name@,
            host: self.host@,
            port: self.port,
            username: self.username@,
            identity_file: opt_view(self.identity_file),
            remote_path: opt_view(self.remote_path),
            password: opt_view(self.password),
            source: ConnectionSource::Profile,
        }
    }
}

pub fn clone_opt_string(o: &Option<String>) -> (r: Option<String>)
    ensures
        r == *o,
{
    match o {
        Some(s) => Some(s.clone()),
        None => None,
    }
}

impl ConnectionEntry {
    /// A copy of this entry.
    pub fn duplicate(&self) -> (r: ConnectionEntry)
        ensures
            r == *self,
    {
        ConnectionEntry {
            name: self.name.clone(),
            host: self.host.clone(),
            port: self.port,
            username: self.username.clone(),
            identity_file: clone_opt_string(&self.identity_file),
            remote_path: clone_opt_string(&self.remote_path),
            password: clone_opt_string(&self.password),
            source: self.source,
        }
    }
}

impl From<ConnectionProfile> for ConnectionEntry {
    fn from(profile: ConnectionProfile) -> (r: Self) {
        ConnectionEntry {
            name: profile.name,
            host: profile.host,
            port: profile.port,
            username: profile.username,
            identity_file: profile.identity_file,
            remote_path: profile.remote_path,
            password: profile.password,
            source: ConnectionSource::Profile,
        }
    }
}

impl vstd::std_specs::convert::FromSpecImpl<ConnectionProfile> for ConnectionEntry {
    open spec fn obeys_from_spec() -> bool {
        true
    }

    open spec fn from_spec(profile: ConnectionProfile) -> Self {
        ConnectionEntry {
            name: profile.name,
            host: profile.host,
            port: profile.port,
            username: profile.username,
            identity_file: profile.identity_file,
            remote_path: profile.remote_path,
            password: profile.password,
            source: ConnectionSource::Profile,
        }
    }
}

/// What debug output shows for a password: a placeholder when there is
/// one, never the password itself.
pub open spec fn shown_password(p: Option<Seq<char>>) -> Option<Seq<char>> {
    match p {
        Some(_) => Some("<redacted>"@),
        None => None,
    }
}

impl ConnectionProfile {
    /// The password as debug output shows it.
    pub fn redacted_password(&self) -> (r: Option<&'static str>)
        ensures
            match r {
                Some(s) => shown_password(opt_view(self.password)) == Some(s@),
                None => shown_password(opt_view(self.password)) is None,
            },
    {
        match &self.password {
            Some(_) => Some("<redacted>"),
            None => None,
        }
    }
}

impl ConnectionEntry {
    /// The password as debug output shows it.
    pub fn redacted_password(&self) -> (r: Option<&'static str>)
        ensures
            match r {
                Some(s) => shown_password(opt_view(self.password)) == Some(s@),
                None => shown_password(opt_view(self.password)) is None,
            },
    {
        match &self.password {
            Some(_) => Some("<redacted>"),
            None => None,
        }
    }
}

/// Two passwords that are both set show the same.
pub proof fn lemma_password_never_shown(a: Seq<char>, b: Seq<char>)
    ensures
        shown_password(Some(a)) == shown_password(Some(b)),
{
}

/// The port a saved profile gets when its file names none.
pub fn default_port() -> (p: u16)
    ensures
        p == 22,
{
    22
}

} // verus!
