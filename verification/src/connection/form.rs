//! The add/edit connection form: its fields, and the profile its values
//! make.
use vstd::prelude::*;

use super::profile::{clone_opt_string, opt_view, ConnectionEntry, ConnectionProfile, ConnectionSource, ConnectionView};
use crate::text::{
    chars_of, decimal, decimal_string, parse_u16, parse_u16_spec, push_char, slice_chars, string_of, trim, trim_chars,
};
use crate::tui::keys::{KeyCode, KeyEvent};

verus! {

/// One field of a form: its label, its value, and whether the value is
/// hidden while typed.
pub struct FormField {
    pub label: String,
    pub value: String,
    pub masked: bool,
}

/// A form: a title, its fields in order, the field being typed into, and
/// the problem found with the last submission, if any.
pub struct FormDialog {
    pub title: String,
    pub fields: Vec<FormField>,
    pub focus: usize,
    pub error: Option<String>,
}

/// What a key does to a form.
pub enum FormOutcome {
    Pending,
    /// Enter: the values of the fields, in order.
    Submitted(Vec<String>),
    Cancelled,
}

impl FormField {
    pub fn new(label: &str, value: String) -> (f: FormField)
        ensures
            f.label@ == label@,
            f.value@ == value@,
            !f.masked,
    {
        FormField { label: label.to_owned(), value, masked: false }
    }

    pub fn new_masked(label: &str, value: String) -> (f: FormField)
        ensures
            f.label@ == label@,
            f.value@ == value@,
            f.masked,
    {
        FormField { label: label.to_owned(), value, masked: true }
    }
}

/// The values the form starts with: those of the connection being edited
/// (its password, or nothing), or empty fields and port 22.
pub open spec fn form_values(existing: Option<ConnectionView>) -> Seq<Seq<char>> {
    match existing {
        Some(e) => seq![e.name, e.host, decimal(e.port as nat), e.username, match e.password {
            Some(p) => p,
            None => Seq::empty(),
        }],
        None => seq![Seq::empty(), Seq::empty(), "22"@, Seq::empty(), Seq::empty()],
    }
}

pub open spec fn form_labels() -> Seq<Seq<char>> {
    seq!["Name"@, "Host"@, "Port"@, "Username"@, "Password"@]
}

/// The form for adding a connection, or editing `existing`: name, host,
/// port, username, and the password masked.
pub fn build_connection_form(title: &str, existing: Option<&ConnectionEntry>) -> (d: FormDialog)
    ensures
        d.title@ == title@,
        d.fields@.len() == 5,
        d.focus == 0,
        d.error is None,
        forall|i: int|
            0 <= i < 5 ==> (#[trigger] d.fields@[i]).label@ == form_labels()[i] && d.fields@[i].value@ == form_values(
                match existing {
                    Some(e) => Some(e@),
                    None => None,
                },
            )[i] && d.fields@[i].masked == (i == 4),
{
    let (name, host, port, username, password) = match existing {
        Some(entry) => (
            entry.name.clone(),
            entry.host.clone(),
            decimal_string(entry.port as u64),
            entry.username.clone(),
            match &entry.password {
                Some(p) => p.clone(),
                None => String::new(),
            },
        ),
        None => (String::new(), String::new(), "22".to_owned(), String::new(), String::new()),
    };
    let mut fields: Vec<FormField> = Vec::new();
    fields.push(FormField::new("Name", name));
    fields.push(FormField::new("Host", host));
    fields.push(FormField::new("Port", port));
    fields.push(FormField::new("Username", username));
    fields.push(FormField::new_masked("Password", password));
    FormDialog { title: title.to_owned(), fields, focus: 0, error: None }
}

pub open spec fn port_message() -> Seq<char> {
    "Port must be a number from 1-65535"@
}

/// The profile the form's values describe: name, host and username
/// trimmed and required, the port a number from 1 to 65535, an empty
/// password none; the identity file and remote path kept from the
/// connection being edited. Otherwise the message for the first problem.
pub open spec fn form_profile(values: Seq<Seq<char>>, preserve: Option<ConnectionView>) -> Result<ConnectionView, Seq<char>> {
    if values.len() != 5 {
        Err("Unexpected number of fields"@)
    } else if trim(values[0]).len() == 0 {
        Err("Name can't be empty"@)
    } else if trim(values[1]).len() == 0 {
        Err("Host can't be empty"@)
    } else if trim(values[3]).len() == 0 {
        Err("Username can't be empty"@)
    } else {
        match parse_u16_spec(trim(values[2])) {
            None => Err(port_message()),
            Some(port) => if port == 0 {
                Err(port_message())
            } else {
                Ok(
                    ConnectionView {
                        name: trim(values[0]),
                        host: trim(values[1]),
                        port,
                        username: trim(values[3]),
                        identity_file: match preserve {
                            Some(e) => e.identity_file,
                            None => None,
                        },
                        remote_path: match preserve {
                            Some(e) => e.remote_path,
                            None => None,
                        },
                        password: if values[4].len() == 0 {
                            None
                        } else {
                            Some(values[4])
                        },
                        source: ConnectionSource::Profile,
                    },
                )
            },
        }
    }
}

pub fn build_connection_profile(values: &[String], preserve_from: Option<&ConnectionEntry>) -> (r: Result<ConnectionProfile, String>)
    ensures
        match r {
            Ok(p) => form_profile(values@.map_values(|v: String| v@), match preserve_from {
                Some(e) => Some(e@),
                None => None,
            }) == Ok::<ConnectionView, Seq<char>>(p@),
            Err(m) => form_profile(values@.map_values(|v: String| v@), match preserve_from {
                Some(e) => Some(e@),
                None => None,
            }) == Err::<ConnectionView, Seq<char>>(m@),
        },
{
    let ghost vs = values@.map_values(|v: String| v@);
    if values.len() != 5 {
        return Err("Unexpected number of fields".to_owned());
    }
    proof {
        assert(vs[0] == values@[0]@ && vs[1] == values@[1]@ && vs[2] == values@[2]@);
        assert(vs[3] == values@[3]@ && vs[4] == values@[4]@);
    }
    let name: Vec<char> = trim_chars(&chars_of(values[0].as_str()));
    let host: Vec<char> = trim_chars(&chars_of(values[1].as_str()));
    let username: Vec<char> = trim_chars(&chars_of(values[3].as_str()));
    if name.len() == 0 {
        return Err("Name can't be empty".to_owned());
    }
    if host.len() == 0 {
        return Err("Host can't be empty".to_owned());
    }
    if username.len() == 0 {
        return Err("Username can't be empty".to_owned());
    }
    let port_text: Vec<char> = trim_chars(&chars_of(values[2].as_str()));
    let port: u16 = match parse_u16(&port_text) {
        Some(p) => p,
        None => {
            return Err("Port must be a number from 1-65535".to_owned());
        },
    };
    if port == 0 {
        return Err("Port must be a number from 1-65535".to_owned());
    }
    let password: Option<String> = if values[4].unicode_len() == 0 {
        None
    } else {
        Some(values[4].clone())
    };
    let (identity_file, remote_path) = match preserve_from {
        Some(entry) => (clone_opt_string(&entry.identity_file), clone_opt_string(&entry.remote_path)),
        None => (None, None),
    };
    Ok(
        ConnectionProfile {
            name: string_of(&name),
            host: string_of(&host),
            port,
            username: string_of(&username),
            identity_file,
            remote_path,
            password,
        },
    )
}

pub open spec fn field_values(fields: Seq<FormField>) -> Seq<Seq<char>> {
    fields.map_values(|f: FormField| f.value@)
}

/// The field a key moves the focus to: Tab and Down the next one, BackTab
/// and Up the one before, wrapping around.
pub open spec fn next_focus(focus: int, n: int, code: KeyCode) -> int {
    match code {
        KeyCode::Tab | KeyCode::Down => if focus + 1 < n {
            focus + 1
        } else {
            0
        },
        KeyCode::BackTab | KeyCode::Up => if focus > 0 {
            focus - 1
        } else {
            n - 1
        },
        _ => focus,
    }
}

/// The focused field's value after a key: a character is added at its end,
/// Backspace takes the last one away.
pub open spec fn edited_value(value: Seq<char>, code: KeyCode) -> Seq<char> {
    match code {
        KeyCode::Char(c) => value.push(c),
        KeyCode::Backspace => if value.len() > 0 {
            value.drop_last()
        } else {
            value
        },
        _ => value,
    }
}

impl FormDialog {
    /// The form's values, in field order.
    pub fn values(&self) -> (r: Vec<String>)
        ensures
            r@.map_values(|v: String| v@) == field_values(self.fields@),
    {
        let mut r: Vec<String> = Vec::new();
        let mut i: usize = 0;
        while i < self.fields.len()
            invariant
                i <= self.fields.len(),
                r@.map_values(|v: String| v@) == field_values(self.fields@.take(i as int)),
            decreases self.fields.len() - i,
        {
            let ghost prev = r@;
            r.push(self.fields[i].value.clone());
            proof {
                assert(self.fields@.take(i + 1) == self.fields@.take(i as int).push(self.fields@[i as int]));
                assert(r@.map_values(|v: String| v@) =~= prev.map_values(|v: String| v@).push(self.fields@[i as int].value@));
                assert(field_values(self.fields@.take(i + 1)) =~= field_values(self.fields@.take(i as int)).push(
                    self.fields@[i as int].value@,
                ));
            }
            i = i + 1;
        }
        proof {
            assert(self.fields@.take(self.fields@.len() as int) == self.fields@);
        }
        r
    }

    /// Hands a key to the form: Enter submits the values, Esc cancels, the
    /// arrows and Tab move between fields, and other keys edit the focused
    /// field.
    pub fn handle_key(&mut self, key: KeyEvent) -> (r: FormOutcome)
        requires
            old(self).focus < old(self).fields@.len(),
        ensures
            final(self).title == old(self).title,
            final(self).error == old(self).error,
            final(self).fields@.len() == old(self).fields@.len(),
            final(self).focus == next_focus(old(self).focus as int, old(self).fields@.len() as int, key.code),
            final(self).focus < final(self).fields@.len(),
            forall|i: int|
                0 <= i < old(self).fields@.len() ==> (#[trigger] final(self).fields@[i]).label == old(self).fields@[i].label
                    && final(self).fields@[i].masked == old(self).fields@[i].masked && final(self).fields@[i].value@ == if i
                    == old(self).focus {
                    edited_value(old(self).fields@[i].value@, key.code)
                } else {
                    old(self).fields@[i].value@
                },
            match r {
                FormOutcome::Submitted(v) => key.code == KeyCode::Enter && v@.map_values(|x: String| x@) == field_values(
                    old(self).fields@,
                ),
                FormOutcome::Cancelled => key.code == KeyCode::Esc,
                FormOutcome::Pending => key.code != KeyCode::Enter && key.code != KeyCode::Esc,
            },
    {
        let n: usize = self.fields.len();
        match key.code {
            KeyCode::Enter => FormOutcome::Submitted(self.values()),
            KeyCode::Esc => FormOutcome::Cancelled,
            KeyCode::Tab | KeyCode::Down => {
                self.focus = if self.focus + 1 < n {
                    self.focus + 1
                } else {
                    0
                };
                FormOutcome::Pending
            },
            KeyCode::BackTab | KeyCode::Up => {
                self.focus = if self.focus > 0 {
                    self.focus - 1
                } else {
                    n - 1
                };
                FormOutcome::Pending
            },
            KeyCode::Char(c) => {
                let i: usize = self.focus;
                let mut value: String = self.fields[i].value.clone();
                push_char(&mut value, c);
                let field = FormField { label: self.fields[i].label.clone(), value, masked: self.fields[i].masked };
                self.fields.set(i, field);
                FormOutcome::Pending
            },
            KeyCode::Backspace => {
                let i: usize = self.focus;
                let chars: Vec<char> = chars_of(self.fields[i].value.as_str());
                if chars.len() > 0 {
                    let kept: Vec<char> = slice_chars(&chars, 0, chars.len() - 1);
                    let value: String = string_of(&kept);
                    proof {
                        assert(kept@ =~= self.fields@[i as int].value@.drop_last());
                    }
                    let field = FormField { label: self.fields[i].label.clone(), value, masked: self.fields[i].masked };
                    self.fields.set(i, field);
                }
                FormOutcome::Pending
            },
            _ => FormOutcome::Pending,
        }
    }
}

} // verus!
