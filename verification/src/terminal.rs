//! The `ssh` command that opens a terminal session on a connection.
use vstd::prelude::*;

use crate::connection::profile::{ConnectionEntry, ConnectionView};
use crate::text::{decimal, decimal_string, push_char};

verus! {

/// A program to run, its arguments, and variables to add to its
/// environment.
pub struct SshCommand {
    pub program: String,
    pub args: Vec<String>,
    pub env: Vec<(String, String)>,
}

/// The arguments after the program: with a password and `sshpass` at
/// hand, `sshpass -e ssh` (the password passed in `SSHPASS`); then the
/// port, the identity file if any, and `user@host`.
pub open spec fn ssh_args(e: ConnectionView, use_sshpass: bool) -> Seq<Seq<char>> {
    (if use_sshpass {
        seq!["-e"@, "ssh"@]
    } else {
        Seq::empty()
    }) + seq!["-p"@, decimal(e.port as nat)] + (match e.identity_file {
        Some(f) => seq!["-i"@, f],
        None => Seq::empty(),
    }) + seq![e.username + seq!['@'] + e.host]
}

pub open spec fn strings(s: Seq<String>) -> Seq<Seq<char>> {
    s.map_values(|x: String| x@)
}

fn push_arg(args: &mut Vec<String>, a: String)
    ensures
        strings(final(args)@) == strings(old(args)@).push(a@),
{
    let ghost prev = args@;
    let ghost av = a@;
    args.push(a);
    proof {
        assert(strings(args@) =~= strings(prev).push(av));
    }
}

/// The command for a terminal session on `entry`; `sshpass` is where the
/// `sshpass` program was found, if it was.
pub fn command_for_with(entry: &ConnectionEntry, sshpass: Option<String>) -> (c: SshCommand)
    ensures
        ({
            let use_sshpass = entry.password is Some && sshpass is Some;
            &&& c.program@ == if use_sshpass {
                sshpass->0@
            } else {
                "ssh"@
            }
            &&& strings(c.args@) == ssh_args(entry@, use_sshpass)
            &&& c.env@.map_values(|v: (String, String)| (v.0@, v.1@)) == if use_sshpass {
                seq![("SSHPASS"@, entry.password->0@)]
            } else {
                Seq::empty()
            }
        }),
{
    let mut args: Vec<String> = Vec::new();
    let mut env: Vec<(String, String)> = Vec::new();
    let use_sshpass: bool = entry.password.is_some() && sshpass.is_some();
    let ghost start = strings(args@);
    let program: String = match (&entry.password, sshpass) {
        (Some(password), Some(sshpass_path)) => {
            push_arg(&mut args, "-e".to_owned());
            env.push(("SSHPASS".to_owned(), password.clone()));
            push_arg(&mut args, "ssh".to_owned());
            sshpass_path
        },
        _ => "ssh".to_owned(),
    };
    let ghost lead = strings(args@);
    push_arg(&mut args, "-p".to_owned());
    push_arg(&mut args, decimal_string(entry.port as u64));
    let ghost mid = strings(args@);
    match &entry.identity_file {
        Some(identity_file) => {
            push_arg(&mut args, "-i".to_owned());
            push_arg(&mut args, identity_file.clone());
        },
        None => {},
    }
    let ghost tail = strings(args@);
    let mut target: String = entry.username.clone();
    push_char(&mut target, '@');
    target.append(entry.host.as_str());
    let ghost tv = target@;
    push_arg(&mut args, target);
    proof {
        assert(start =~= Seq::<Seq<char>>::empty());
        if use_sshpass {
            assert(lead =~= seq!["-e"@, "ssh"@]);
        } else {
            assert(lead =~= Seq::<Seq<char>>::empty());
        }
        assert(mid =~= lead + seq!["-p"@, decimal(entry.port as nat)]);
        if entry.identity_file is Some {
            assert(tail =~= mid + seq!["-i"@, entry.identity_file->0@]);
        } else {
            assert(tail =~= mid + Seq::<Seq<char>>::empty());
        }
        assert(tv == entry@.username + seq!['@'] + entry@.host);
        assert(strings(args@) =~= tail + seq![tv]);
        let idf: Seq<Seq<char>> = match entry@.identity_file {
            Some(f) => seq!["-i"@, f],
            None => Seq::empty(),
        };
        assert(tail =~= lead + seq!["-p"@, decimal(entry.port as nat)] + idf);
        assert(strings(args@) =~= ssh_args(entry@, use_sshpass));
        if use_sshpass {
            assert(env@.map_values(|v: (String, String)| (v.0@, v.1@)) =~= seq![("SSHPASS"@, entry.password->0@)]);
        } else {
            assert(env@.map_values(|v: (String, String)| (v.0@, v.1@)) =~= Seq::<(Seq<char>, Seq<char>)>::empty());
        }
    }
    SshCommand { program, args, env }
}

} // verus!
