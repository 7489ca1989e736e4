//! The steps of opening a connection: connect, try the keys and agent,
//! ask for a password if they are refused, check it, then start SFTP.
//! The network work happens elsewhere; this decides what comes next from
//! what it reported.
use vstd::prelude::*;

use super::profile::ConnectionEntry;
use crate::errors::{user_message, user_message_text};

verus! {

/// Where a connection attempt stands.
#[derive(Debug, Clone, Copy, PartialEq, Eq, Structural)]
pub enum ConnectStage {
    Connecting,
    Authenticating,
    AwaitingPassword,
    CheckingPassword,
    OpeningSftp,
    Finished,
}

/// What the last piece of network work reported. Errors carry their
/// text.
#[derive(Debug, Clone, PartialEq, Eq)]
pub enum ConnectReport {
    Connected,
    ConnectFailed(String),
    /// Whether the keys or the agent were accepted.
    AuthAccepted(bool),
    AuthError(String),
    PasswordGiven(String),
    /// The password prompt was dismissed.
    PasswordWithdrawn,
    /// Whether the password was accepted.
    PasswordChecked(bool),
    PasswordError(String),
    SftpOpened,
    SftpFailed(String),
}

/// What to do next.
#[derive(Debug, Clone, PartialEq, Eq)]
pub enum ConnectCommand {
    AuthenticateWithoutPassword,
    AskPassword { name: String, username: String },
    AuthenticateWithPassword(String),
    OpenSftp,
    /// The session is ready.
    Done,
    /// The attempt failed; the message says why.
    Fail(String),
    /// The report does not belong to this stage.
    Ignore,
}

pub enum ReportView {
    Connected,
    ConnectFailed(Seq<char>),
    AuthAccepted(bool),
    AuthError(Seq<char>),
    PasswordGiven(Seq<char>),
    PasswordWithdrawn,
    PasswordChecked(bool),
    PasswordError(Seq<char>),
    SftpOpened,
    SftpFailed(Seq<char>),
}

pub enum CommandView {
    AuthenticateWithoutPassword,
    AskPassword(Seq<char>, Seq<char>),
    AuthenticateWithPassword(Seq<char>),
    OpenSftp,
    Done,
    Fail(Seq<char>),
    Ignore,
}

impl View for ConnectReport {
    type V = ReportView;

    open spec fn view(&self) -> ReportView {
        match self {
            ConnectReport::Connected => ReportView::Connected,
            ConnectReport::ConnectFailed(e) => ReportView::ConnectFailed(e@),
            ConnectReport::AuthAccepted(b) => ReportView::AuthAccepted(*b),
            ConnectReport::AuthError(e) => ReportView::AuthError(e@),
            ConnectReport::PasswordGiven(p) => ReportView::PasswordGiven(p@),
            ConnectReport::PasswordWithdrawn => ReportView::PasswordWithdrawn,
            ConnectReport::PasswordChecked(b) => ReportView::PasswordChecked(*b),
            ConnectReport::PasswordError(e) => ReportView::PasswordError(e@),
            ConnectReport::SftpOpened => ReportView::SftpOpened,
            ConnectReport::SftpFailed(e) => ReportView::SftpFailed(e@),
        }
    }
}

impl View for ConnectCommand {
    type V = CommandView;

    open spec fn view(&self) -> CommandView {
        match self {
            ConnectCommand::AuthenticateWithoutPassword => CommandView::AuthenticateWithoutPassword,
            ConnectCommand::AskPassword { name, username } => CommandView::AskPassword(name@, username@),
            ConnectCommand::AuthenticateWithPassword(p) => CommandView::AuthenticateWithPassword(p@),
            ConnectCommand::OpenSftp => CommandView::OpenSftp,
            ConnectCommand::Done => CommandView::Done,
            ConnectCommand::Fail(m) => CommandView::Fail(m@),
            ConnectCommand::Ignore => CommandView::Ignore,
        }
    }
}

/// The next stage and command for a report: each stage expects its own
/// reports, and any failure ends the attempt with a message naming the
/// connection.
pub open spec fn connect_next(stage: ConnectStage, name: Seq<char>, username: Seq<char>, report: ReportView) -> (
    ConnectStage,
    CommandView,
) {
    match (stage, report) {
        (ConnectStage::Connecting, ReportView::Connected) => (
            ConnectStage::Authenticating,
            CommandView::AuthenticateWithoutPassword,
        ),
        (ConnectStage::Connecting, ReportView::ConnectFailed(e)) => (
            ConnectStage::Finished,
            CommandView::Fail(user_message_text("Unable to connect to "@ + name, e)),
        ),
        (ConnectStage::Authenticating, ReportView::AuthAccepted(ok)) => if ok {
            (ConnectStage::OpeningSftp, CommandView::OpenSftp)
        } else {
            (ConnectStage::AwaitingPassword, CommandView::AskPassword(name, username))
        },
        (ConnectStage::Authenticating, ReportView::AuthError(e)) => (
            ConnectStage::Finished,
            CommandView::Fail(user_message_text("Authentication error for "@ + name, e)),
        ),
        (ConnectStage::AwaitingPassword, ReportView::PasswordGiven(p)) => (
            ConnectStage::CheckingPassword,
            CommandView::AuthenticateWithPassword(p),
        ),
        (ConnectStage::AwaitingPassword, ReportView::PasswordWithdrawn) => (
            ConnectStage::Finished,
            CommandView::Fail("Connection cancelled"@),
        ),
        (ConnectStage::CheckingPassword, ReportView::PasswordChecked(ok)) => if ok {
            (ConnectStage::OpeningSftp, CommandView::OpenSftp)
        } else {
            (ConnectStage::Finished, CommandView::Fail("Authentication failed for "@ + name))
        },
        (ConnectStage::CheckingPassword, ReportView::PasswordError(e)) => (
            ConnectStage::Finished,
            CommandView::Fail(user_message_text("Authentication error for "@ + name, e)),
        ),
        (ConnectStage::OpeningSftp, ReportView::SftpOpened) => (ConnectStage::Finished, CommandView::Done),
        (ConnectStage::OpeningSftp, ReportView::SftpFailed(e)) => (
            ConnectStage::Finished,
            CommandView::Fail(user_message_text("Connected to "@ + name + " but failed to start SFTP"@, e)),
        ),
        _ => (stage, CommandView::Ignore),
    }
}

fn prefixed(prefix: &str, name: &str) -> (r: String)
    ensures
        r@ == prefix@ + name@,
{
    let mut r: String = prefix.to_owned();
    r.append(name);
    r
}

/// Decides the next step of a connection attempt on `entry`.
pub fn connect_step(stage: ConnectStage, entry: &ConnectionEntry, report: ConnectReport) -> (r: (ConnectStage, ConnectCommand))
    ensures
        (r.0, r.1@) == connect_next(stage, entry.name@, entry.username@, report@),
{
    match (stage, report) {
        (ConnectStage::Connecting, ConnectReport::Connected) => (
            ConnectStage::Authenticating,
            ConnectCommand::AuthenticateWithoutPassword,
        ),
        (ConnectStage::Connecting, ConnectReport::ConnectFailed(e)) => {
            let context: String = prefixed("Unable to connect to ", entry.name.as_str());
            (ConnectStage::Finished, ConnectCommand::Fail(user_message(context.as_str(), e.as_str())))
        },
        (ConnectStage::Authenticating, ConnectReport::AuthAccepted(ok)) => {
            if ok {
                (ConnectStage::OpeningSftp, ConnectCommand::OpenSftp)
            } else {
                (
                    ConnectStage::AwaitingPassword,
                    ConnectCommand::AskPassword { name: entry.name.clone(), username: entry.username.clone() },
                )
            }
        },
        (ConnectStage::Authenticating, ConnectReport::AuthError(e)) => {
            let context: String = prefixed("Authentication error for ", entry.name.as_str());
            (ConnectStage::Finished, ConnectCommand::Fail(user_message(context.as_str(), e.as_str())))
        },
        (ConnectStage::AwaitingPassword, ConnectReport::PasswordGiven(p)) => (
            ConnectStage::CheckingPassword,
            ConnectCommand::AuthenticateWithPassword(p),
        ),
        (ConnectStage::AwaitingPassword, ConnectReport::PasswordWithdrawn) => (
            ConnectStage::Finished,
            ConnectCommand::Fail("Connection cancelled".to_owned()),
        ),
        (ConnectStage::CheckingPassword, ConnectReport::PasswordChecked(ok)) => {
            if ok {
                (ConnectStage::OpeningSftp, ConnectCommand::OpenSftp)
            } else {
                (
                    ConnectStage::Finished,
                    ConnectCommand::Fail(prefixed("Authentication failed for ", entry.name.as_str())),
                )
            }
        },
        (ConnectStage::CheckingPassword, ConnectReport::PasswordError(e)) => {
            let context: String = prefixed("Authentication error for ", entry.name.as_str());
            (ConnectStage::Finished, ConnectCommand::Fail(user_message(context.as_str(), e.as_str())))
        },
        (ConnectStage::OpeningSftp, ConnectReport::SftpOpened) => (ConnectStage::Finished, ConnectCommand::Done),
        (ConnectStage::OpeningSftp, ConnectReport::SftpFailed(e)) => {
            let mut context: String = prefixed("Connected to ", entry.name.as_str());
            context.append(" but failed to start SFTP");
            (ConnectStage::Finished, ConnectCommand::Fail(user_message(context.as_str(), e.as_str())))
        },
        (stage, _) => (stage, ConnectCommand::Ignore),
    }
}

/// A finished attempt stays finished whatever is reported.
pub proof fn lemma_finished_is_final(name: Seq<char>, username: Seq<char>, report: ReportView)
    ensures
        connect_next(ConnectStage::Finished, name, username, report) == (ConnectStage::Finished, CommandView::Ignore),
{
}

/// Every attempt that ends, ends by being ready or with a message.
pub proof fn lemma_ends_with_done_or_fail(stage: ConnectStage, name: Seq<char>, username: Seq<char>, report: ReportView)
    ensures
        ({
            let (next, command) = connect_next(stage, name, username, report);
            stage != ConnectStage::Finished && next == ConnectStage::Finished ==> (command is Done || command is Fail)
        }),
{
}

} // verus!
