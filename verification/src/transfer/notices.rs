//! What the user is told about copies.
use vstd::prelude::*;

use crate::filesystem::Entry;
use crate::text::{decimal, decimal_string};

verus! {

/// A job whose session went away before it could start.
pub open spec fn disconnected_text(display_name: Seq<char>) -> Seq<char> {
    "Transfer failed: "@ + display_name + " \u{2014} session disconnected"@
}

pub fn disconnected_notice(display_name: &str) -> (r: String)
    ensures
        r@ == disconnected_text(display_name@),
{
    let mut r: String = "Transfer failed: ".to_owned();
    r.append(display_name);
    r.append(" \u{2014} session disconnected");
    r
}

/// How many symlinks a directory copy skipped, when it skipped any.
pub open spec fn skipped_symlinks_text(n: usize) -> Option<Seq<char>> {
    if n == 0 {
        None
    } else {
        Some("Skipped "@ + decimal(n as nat) + " symlink"@ + if n == 1 {
            Seq::empty()
        } else {
            seq!['s']
        })
    }
}

pub fn skipped_symlinks_notice(n: usize) -> (r: Option<String>)
    ensures
        match r {
            Some(m) => skipped_symlinks_text(n) == Some(m@),
            None => skipped_symlinks_text(n) is None,
        },
{
    if n == 0 {
        return None;
    }
    let mut r: String = "Skipped ".to_owned();
    let count: String = decimal_string(n as u64);
    r.append(count.as_str());
    r.append(" symlink");
    if n != 1 {
        crate::text::push_char(&mut r, 's');
    }
    proof {
        if n == 1 {
            assert(r@ =~= "Skipped "@ + decimal(n as nat) + " symlink"@ + Seq::<char>::empty());
        }
    }
    Some(r)
}

/// How many transfers a disconnect cancelled, when it cancelled any.
pub open spec fn cancelled_by_disconnect_text(n: usize) -> Option<Seq<char>> {
    if n == 0 {
        None
    } else {
        Some(decimal(n as nat) + " transfer"@ + (if n == 1 {
            Seq::empty()
        } else {
            seq!['s']
        }) + " cancelled \u{2014} session disconnected"@)
    }
}

pub fn cancelled_by_disconnect_notice(n: usize) -> (r: Option<String>)
    ensures
        match r {
            Some(m) => cancelled_by_disconnect_text(n) == Some(m@),
            None => cancelled_by_disconnect_text(n) is None,
        },
{
    if n == 0 {
        return None;
    }
    let mut r: String = decimal_string(n as u64);
    r.append(" transfer");
    if n != 1 {
        crate::text::push_char(&mut r, 's');
    }
    let ghost counted = r@;
    r.append(" cancelled \u{2014} session disconnected");
    proof {
        if n == 1 {
            assert(counted =~= decimal(n as nat) + " transfer"@ + Seq::<char>::empty());
        }
    }
    Some(r)
}

/// The name a directory copy shows while it is planned: the one entry's
/// name, or how many items.
pub open spec fn copy_label(names: Seq<Seq<char>>) -> Seq<char> {
    if names.len() == 1 {
        names[0]
    } else {
        decimal(names.len()) + " items"@
    }
}

pub fn copy_display_name(entries: &Vec<Entry>) -> (r: String)
    ensures
        r@ == copy_label(entries@.map_values(|e: Entry| e.name@)),
{
    if entries.len() == 1 {
        entries[0].name.clone()
    } else {
        let mut r: String = decimal_string(entries.len() as u64);
        r.append(" items");
        r
    }
}

} // verus!
