//! The title bar's connection status and the status line's copy progress.
use vstd::prelude::*;

use crate::text::{decimal, decimal_string};
use crate::transfer::job::Direction;

verus! {

/// Where the latest connection attempt stands, as the title bar tells it.
#[derive(Debug, Clone, PartialEq, Eq)]
pub enum ConnectionStatus {
    Idle,
    Connecting(String),
    Failed(String),
}

/// The title bar's status: a connection under way; a failure, while no
/// session is open; otherwise the active session, or that there is none.
pub open spec fn title_status_text(status: ConnectionStatus, active_name: Option<Seq<char>>, no_sessions: bool) -> Seq<char> {
    match status {
        ConnectionStatus::Connecting(name) => "Connecting to "@ + name@ + seq!['\u{2026}'],
        ConnectionStatus::Failed(message) if no_sessions => "Connection failed: "@ + message@,
        _ => match active_name {
            Some(name) => name + " \u{2014} SSH: Connected"@,
            None => "Not connected"@,
        },
    }
}

pub fn title_status(status: &ConnectionStatus, active_name: Option<&str>, no_sessions: bool) -> (r: String)
    ensures
        r@ == title_status_text(*status, crate::config::str_opt(active_name), no_sessions),
{
    match status {
        ConnectionStatus::Connecting(name) => {
            let mut r: String = "Connecting to ".to_owned();
            r.append(name.as_str());
            crate::text::push_char(&mut r, '\u{2026}');
            r
        },
        ConnectionStatus::Failed(message) if no_sessions => {
            let mut r: String = "Connection failed: ".to_owned();
            r.append(message.as_str());
            r
        },
        _ => match active_name {
            Some(name) => {
                let mut r: String = name.to_owned();
                r.append(" \u{2014} SSH: Connected");
                r
            },
            None => "Not connected".to_owned(),
        },
    }
}

/// The status line while a copy runs: which way, what, how far, and how
/// many more wait.
pub open spec fn transfer_status_text(direction: Direction, name: Seq<char>, percent: u8, queued: usize) -> Seq<char> {
    (match direction {
        Direction::Upload => "Uploading "@,
        Direction::Download => "Downloading "@,
    }) + name + ": "@ + decimal(percent as nat) + seq!['%'] + if queued > 0 {
        " ("@ + decimal(queued as nat) + " queued)"@
    } else {
        Seq::empty()
    }
}

pub fn transfer_status(direction: Direction, display_name: &str, percent: u8, queued: usize) -> (r: String)
    ensures
        r@ == transfer_status_text(direction, display_name@, percent, queued),
{
    let mut r: String = match direction {
        Direction::Upload => "Uploading ".to_owned(),
        Direction::Download => "Downloading ".to_owned(),
    };
    r.append(display_name);
    r.append(": ");
    let p: String = decimal_string(percent as u64);
    r.append(p.as_str());
    crate::text::push_char(&mut r, '%');
    let ghost before = r@;
    if queued > 0 {
        r.append(" (");
        let q: String = decimal_string(queued as u64);
        r.append(q.as_str());
        r.append(" queued)");
    } else {
        proof {
            assert(before + Seq::<char>::empty() =~= before);
        }
    }
    r
}

} // verus!
