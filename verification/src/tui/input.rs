//! Actions, key specifications (`ctrl+r`, `f5`) and the bindings from keys
//! to actions, with user overrides.
use vstd::prelude::*;

use super::keys::{no_modifiers, KeyCode, KeyEvent, KeyModifiers};
use crate::text::{
    char_to_uppercase, chars_eq_str, chars_of, decimal, decimal_string, has_prefix_at, lowercase, parse_u16, parse_u16_spec,
    left_aligned, push_char, push_left_aligned, slice_chars, str_eq, string_of, to_lowercase, uppercase_of,
};

verus! {

#[derive(Debug, Clone, Copy, PartialEq, Eq, Hash, Structural)]
pub enum Action {
    Quit,
    SwitchPanel,
    Up,
    Down,
    Open,
    ToggleSelect,
    Rename,
    Mkdir,
    Delete,
    Refresh,
    Copy,
    CancelTransfer,
    OpenConnections,
    AddConnection,
    DeleteConnection,
    OpenTerminal,
    ToggleHidden,
    CycleSort,
    BookmarkHere,
    OpenBookmarks,
    OpenSearch,
    CycleSession,
    Help,
    Back,
    Noop,
}

/// The name of an action in the configuration file.
pub open spec fn action_name(a: Action) -> Seq<char> {
    match a {
        Action::Quit => "quit"@,
        Action::SwitchPanel => "switch_panel"@,
        Action::Up => "up"@,
        Action::Down => "down"@,
        Action::Open => "open"@,
        Action::ToggleSelect => "toggle_select"@,
        Action::Rename => "rename"@,
        Action::Mkdir => "mkdir"@,
        Action::Delete => "delete"@,
        Action::Refresh => "refresh"@,
        Action::Copy => "copy"@,
        Action::CancelTransfer => "cancel_transfer"@,
        Action::OpenConnections => "open_connections"@,
        Action::AddConnection => "add_connection"@,
        Action::DeleteConnection => "delete_connection"@,
        Action::OpenTerminal => "open_terminal"@,
        Action::ToggleHidden => "toggle_hidden"@,
        Action::CycleSort => "cycle_sort"@,
        Action::BookmarkHere => "bookmark_here"@,
        Action::OpenBookmarks => "open_bookmarks"@,
        Action::OpenSearch => "open_search"@,
        Action::CycleSession => "cycle_session"@,
        Action::Help => "help"@,
        Action::Back => "back"@,
        Action::Noop => "noop"@,
    }
}

/// The action a configuration name stands for; `noop` names none.
pub open spec fn action_named(s: Seq<char>) -> Option<Action> {
    if s == "quit"@ {
        Some(Action::Quit)
    } else if s == "switch_panel"@ {
        Some(Action::SwitchPanel)
    } else if s == "up"@ {
        Some(Action::Up)
    } else if s == "down"@ {
        Some(Action::Down)
    } else if s == "open"@ {
        Some(Action::Open)
    } else if s == "toggle_select"@ {
        Some(Action::ToggleSelect)
    } else if s == "rename"@ {
        Some(Action::Rename)
    } else if s == "mkdir"@ {
        Some(Action::Mkdir)
    } else if s == "delete"@ {
        Some(Action::Delete)
    } else if s == "refresh"@ {
        Some(Action::Refresh)
    } else if s == "copy"@ {
        Some(Action::Copy)
    } else if s == "cancel_transfer"@ {
        Some(Action::CancelTransfer)
    } else if s == "open_connections"@ {
        Some(Action::OpenConnections)
    } else if s == "add_connection"@ {
        Some(Action::AddConnection)
    } else if s == "delete_connection"@ {
        Some(Action::DeleteConnection)
    } else if s == "open_terminal"@ {
        Some(Action::OpenTerminal)
    } else if s == "toggle_hidden"@ {
        Some(Action::ToggleHidden)
    } else if s == "cycle_sort"@ {
        Some(Action::CycleSort)
    } else if s == "bookmark_here"@ {
        Some(Action::BookmarkHere)
    } else if s == "open_bookmarks"@ {
        Some(Action::OpenBookmarks)
    } else if s == "open_search"@ {
        Some(Action::OpenSearch)
    } else if s == "cycle_session"@ {
        Some(Action::CycleSession)
    } else if s == "help"@ {
        Some(Action::Help)
    } else if s == "back"@ {
        Some(Action::Back)
    } else {
        None
    }
}

impl Action {
    pub fn name(&self) -> (r: &'static str)
        ensures
            r@ == action_name(*self),
    {
        match self {
            Action::Quit => "quit",
            Action::SwitchPanel => "switch_panel",
            Action::Up => "up",
            Action::Down => "down",
            Action::Open => "open",
            Action::ToggleSelect => "toggle_select",
            Action::Rename => "rename",
            Action::Mkdir => "mkdir",
            Action::Delete => "delete",
            Action::Refresh => "refresh",
            Action::Copy => "copy",
            Action::CancelTransfer => "cancel_transfer",
            Action::OpenConnections => "open_connections",
            Action::AddConnection => "add_connection",
            Action::DeleteConnection => "delete_connection",
            Action::OpenTerminal => "open_terminal",
            Action::ToggleHidden => "toggle_hidden",
            Action::CycleSort => "cycle_sort",
            Action::BookmarkHere => "bookmark_here",
            Action::OpenBookmarks => "open_bookmarks",
            Action::OpenSearch => "open_search",
            Action::CycleSession => "cycle_session",
            Action::Help => "help",
            Action::Back => "back",
            Action::Noop => "noop",
        }
    }

    pub fn from_name(name: &str) -> (r: Option<Action>)
        ensures
            r == action_named(name@),
    {
        if str_eq(name, "quit") {
            Some(Action::Quit)
        } else if str_eq(name, "switch_panel") {
            Some(Action::SwitchPanel)
        } else if str_eq(name, "up") {
            Some(Action::Up)
        } else if str_eq(name, "down") {
            Some(Action::Down)
        } else if str_eq(name, "open") {
            Some(Action::Open)
        } else if str_eq(name, "toggle_select") {
            Some(Action::ToggleSelect)
        } else if str_eq(name, "rename") {
            Some(Action::Rename)
        } else if str_eq(name, "mkdir") {
            Some(Action::Mkdir)
        } else if str_eq(name, "delete") {
            Some(Action::Delete)
        } else if str_eq(name, "refresh") {
            Some(Action::Refresh)
        } else if str_eq(name, "copy") {
            Some(Action::Copy)
        } else if str_eq(name, "cancel_transfer") {
            Some(Action::CancelTransfer)
        } else if str_eq(name, "open_connections") {
            Some(Action::OpenConnections)
        } else if str_eq(name, "add_connection") {
            Some(Action::AddConnection)
        } else if str_eq(name, "delete_connection") {
            Some(Action::DeleteConnection)
        } else if str_eq(name, "open_terminal") {
            Some(Action::OpenTerminal)
        } else if str_eq(name, "toggle_hidden") {
            Some(Action::ToggleHidden)
        } else if str_eq(name, "cycle_sort") {
            Some(Action::CycleSort)
        } else if str_eq(name, "bookmark_here") {
            Some(Action::BookmarkHere)
        } else if str_eq(name, "open_bookmarks") {
            Some(Action::OpenBookmarks)
        } else if str_eq(name, "open_search") {
            Some(Action::OpenSearch)
        } else if str_eq(name, "cycle_session") {
            Some(Action::CycleSession)
        } else if str_eq(name, "help") {
            Some(Action::Help)
        } else if str_eq(name, "back") {
            Some(Action::Back)
        } else {
            None
        }
    }
}

/// Every action but `Noop` is found again by its name, and `noop` names
/// no action.
pub proof fn lemma_action_name_roundtrip(a: Action)
    ensures
        a != Action::Noop ==> action_named(action_name(a)) == Some(a),
        a == Action::Noop ==> action_named(action_name(a)) is None,
{
    reveal_strlit("quit");
    reveal_strlit("switch_panel");
    reveal_strlit("up");
    reveal_strlit("down");
    reveal_strlit("open");
    reveal_strlit("toggle_select");
    reveal_strlit("rename");
    reveal_strlit("mkdir");
    reveal_strlit("delete");
    reveal_strlit("refresh");
    reveal_strlit("copy");
    reveal_strlit("cancel_transfer");
    reveal_strlit("open_connections");
    reveal_strlit("add_connection");
    reveal_strlit("delete_connection");
    reveal_strlit("open_terminal");
    reveal_strlit("toggle_hidden");
    reveal_strlit("cycle_sort");
    reveal_strlit("bookmark_here");
    reveal_strlit("open_bookmarks");
    reveal_strlit("open_search");
    reveal_strlit("cycle_session");
    reveal_strlit("help");
    reveal_strlit("back");
    reveal_strlit("noop");
    assert("quit"@.len() == 4 && "quit"@[0] == 'q');
    assert("switch_panel"@.len() == 12 && "switch_panel"@[0] == 's');
    assert("up"@.len() == 2 && "up"@[0] == 'u');
    assert("down"@.len() == 4 && "down"@[0] == 'd');
    assert("open"@.len() == 4 && "open"@[0] == 'o');
    assert("toggle_select"@.len() == 13 && "toggle_select"@[0] == 't');
    assert("rename"@.len() == 6 && "rename"@[0] == 'r');
    assert("mkdir"@.len() == 5 && "mkdir"@[0] == 'm');
    assert("delete"@.len() == 6 && "delete"@[0] == 'd');
    assert("refresh"@.len() == 7 && "refresh"@[0] == 'r');
    assert("copy"@.len() == 4 && "copy"@[0] == 'c');
    assert("cancel_transfer"@.len() == 15 && "cancel_transfer"@[0] == 'c');
    assert("open_connections"@.len() == 16 && "open_connections"@[0] == 'o');
    assert("add_connection"@.len() == 14 && "add_connection"@[0] == 'a');
    assert("delete_connection"@.len() == 17 && "delete_connection"@[0] == 'd');
    assert("open_terminal"@.len() == 13 && "open_terminal"@[0] == 'o');
    assert("toggle_hidden"@.len() == 13 && "toggle_hidden"@[0] == 't');
    assert("cycle_sort"@.len() == 10 && "cycle_sort"@[0] == 'c');
    assert("bookmark_here"@.len() == 13 && "bookmark_here"@[0] == 'b');
    assert("open_bookmarks"@.len() == 14 && "open_bookmarks"@[0] == 'o');
    assert("open_search"@.len() == 11 && "open_search"@[0] == 'o');
    assert("cycle_session"@.len() == 13 && "cycle_session"@[0] == 'c');
    assert("help"@.len() == 4 && "help"@[0] == 'h');
    assert("back"@.len() == 4 && "back"@[0] == 'b');
    assert("noop"@.len() == 4 && "noop"@[0] == 'n');
    assert("toggle_select"@[7] == 's');
    assert("toggle_hidden"@[7] == 'h');
}

/// A name found by `action_named` is the name of the action found.
pub proof fn lemma_action_named_inverse(s: Seq<char>)
    ensures
        action_named(s) matches Some(a) ==> action_name(a) == s,
{
}

/// A key with the modifiers that must be held with it.
#[derive(Debug, Clone, Copy, PartialEq, Eq, Structural)]
pub struct KeySpec {
    pub code: KeyCode,
    pub modifiers: KeyModifiers,
}

/// Why a key specification could not be read.
#[derive(Debug, Clone, PartialEq, Eq)]
pub struct ParseKeyError(pub String);

/// Strips leading `ctrl+`, `alt+` and `shift+` (in any order, repeated),
/// adding each to `m`.
pub open spec fn strip_modifiers(s: Seq<char>, m: KeyModifiers) -> (KeyModifiers, Seq<char>)
    decreases s.len(),
{
    if s.len() >= 5 && s.take(5) == seq!['c', 't', 'r', 'l', '+'] {
        strip_modifiers(s.skip(5), KeyModifiers { control: true, ..m })
    } else if s.len() >= 4 && s.take(4) == seq!['a', 'l', 't', '+'] {
        strip_modifiers(s.skip(4), KeyModifiers { alt: true, ..m })
    } else if s.len() >= 6 && s.take(6) == seq!['s', 'h', 'i', 'f', 't', '+'] {
        strip_modifiers(s.skip(6), KeyModifiers { shift: true, ..m })
    } else {
        (m, s)
    }
}

/// The key a lowercase key name stands for: `f1` to `f12` (the number
/// read as `u8::from_str` reads it), the named keys, or any single
/// character; otherwise the message for an unrecognized key.
pub open spec fn key_code_of(s: Seq<char>) -> Result<KeyCode, Seq<char>> {
    if s.len() >= 1 && s[0] == 'f' && parse_u16_spec(s.skip(1)) is Some && 1 <= parse_u16_spec(s.skip(1))->0 <= 12 {
        Ok(KeyCode::F(parse_u16_spec(s.skip(1))->0 as u8))
    } else if s == "tab"@ {
        Ok(KeyCode::Tab)
    } else if s == "enter"@ {
        Ok(KeyCode::Enter)
    } else if s == "esc"@ || s == "escape"@ {
        Ok(KeyCode::Esc)
    } else if s == "space"@ {
        Ok(KeyCode::Char(' '))
    } else if s == "up"@ {
        Ok(KeyCode::Up)
    } else if s == "down"@ {
        Ok(KeyCode::Down)
    } else if s == "left"@ {
        Ok(KeyCode::Left)
    } else if s == "right"@ {
        Ok(KeyCode::Right)
    } else if s == "home"@ {
        Ok(KeyCode::Home)
    } else if s == "end"@ {
        Ok(KeyCode::End)
    } else if s == "backspace"@ {
        Ok(KeyCode::Backspace)
    } else if s == "delete"@ || s == "del"@ {
        Ok(KeyCode::Delete)
    } else if s.len() == 1 {
        Ok(KeyCode::Char(s[0]))
    } else {
        Err("unrecognized key \""@ + s + "\""@)
    }
}

/// What a key specification such as `Ctrl+R` reads as: lowercased, its
/// modifier prefixes stripped, the rest a key name.
pub open spec fn key_spec_of(s: Seq<char>) -> Result<KeySpec, Seq<char>> {
    let (m, rest) = strip_modifiers(lowercase(s), no_modifiers());
    match key_code_of(rest) {
        Ok(code) => Ok(KeySpec { code, modifiers: m }),
        Err(e) => Err(e),
    }
}

fn parse_key_code(v: &Vec<char>) -> (r: Result<KeyCode, ParseKeyError>)
    ensures
        match r {
            Ok(code) => key_code_of(v@) == Ok::<KeyCode, Seq<char>>(code),
            Err(e) => key_code_of(v@) == Err::<KeyCode, Seq<char>>(e.0@),
        },
{
    if v.len() >= 1 && v[0] == 'f' {
        let digits: Vec<char> = slice_chars(v, 1, v.len());
        assert(digits@ == v@.skip(1));
        match parse_u16(&digits) {
            Some(num) => {
                if 1 <= num && num <= 12 {
                    return Ok(KeyCode::F(num as u8));
                }
            },
            None => {},
        }
    }
    if chars_eq_str(v, "tab") {
        Ok(KeyCode::Tab)
    } else if chars_eq_str(v, "enter") {
        Ok(KeyCode::Enter)
    } else if chars_eq_str(v, "esc") || chars_eq_str(v, "escape") {
        Ok(KeyCode::Esc)
    } else if chars_eq_str(v, "space") {
        Ok(KeyCode::Char(' '))
    } else if chars_eq_str(v, "up") {
        Ok(KeyCode::Up)
    } else if chars_eq_str(v, "down") {
        Ok(KeyCode::Down)
    } else if chars_eq_str(v, "left") {
        Ok(KeyCode::Left)
    } else if chars_eq_str(v, "right") {
        Ok(KeyCode::Right)
    } else if chars_eq_str(v, "home") {
        Ok(KeyCode::Home)
    } else if chars_eq_str(v, "end") {
        Ok(KeyCode::End)
    } else if chars_eq_str(v, "backspace") {
        Ok(KeyCode::Backspace)
    } else if chars_eq_str(v, "delete") || chars_eq_str(v, "del") {
        Ok(KeyCode::Delete)
    } else if v.len() == 1 {
        Ok(KeyCode::Char(v[0]))
    } else {
        let mut message: String = "unrecognized key \"".to_owned();
        let name: String = string_of(v);
        message.append(name.as_str());
        message.append("\"");
        Err(ParseKeyError(message))
    }
}

/// Reads a key specification such as `ctrl+r`, `F5` or `shift+tab`.
pub fn parse_key_spec(s: &str) -> (r: Result<KeySpec, ParseKeyError>)
    ensures
        match r {
            Ok(k) => key_spec_of(s@) == Ok::<KeySpec, Seq<char>>(k),
            Err(e) => key_spec_of(s@) == Err::<KeySpec, Seq<char>>(e.0@),
        },
{
    let lower: String = to_lowercase(s);
    let v: Vec<char> = chars_of(lower.as_str());
    let mut modifiers: KeyModifiers = KeyModifiers::none();
    let mut i: usize = 0;
    proof {
        reveal_strlit("ctrl+");
        reveal_strlit("alt+");
        reveal_strlit("shift+");
        assert("ctrl+"@ =~= seq!['c', 't', 'r', 'l', '+']);
        assert("alt+"@ =~= seq!['a', 'l', 't', '+']);
        assert("shift+"@ =~= seq!['s', 'h', 'i', 'f', 't', '+']);
        assert(v@.skip(0) == v@);
    }
    loop
        invariant
            i <= v.len(),
            v@ == lowercase(s@),
            "ctrl+"@ == seq!['c', 't', 'r', 'l', '+'],
            "alt+"@ == seq!['a', 'l', 't', '+'],
            "shift+"@ == seq!['s', 'h', 'i', 'f', 't', '+'],
            strip_modifiers(lowercase(s@), no_modifiers()) == strip_modifiers(v@.skip(i as int), modifiers),
        ensures
            i <= v.len(),
            strip_modifiers(lowercase(s@), no_modifiers()) == (modifiers, v@.skip(i as int)),
        decreases v.len() - i,
    {
        let ghost rest = v@.skip(i as int);
        if has_prefix_at(&v, i, "ctrl+") {
            proof {
                assert(rest.take(5) == v@.subrange(i as int, i + 5));
                assert(rest.skip(5) == v@.skip(i + 5));
            }
            modifiers.control = true;
            i = i + 5;
        } else if has_prefix_at(&v, i, "alt+") {
            proof {
                assert(rest.take(4) == v@.subrange(i as int, i + 4));
                assert(rest.skip(4) == v@.skip(i + 4));
                assert(!(rest.len() >= 5 && rest.take(5) == seq!['c', 't', 'r', 'l', '+'])) by {
                    if rest.len() >= 5 {
                        assert(rest.take(5) == v@.subrange(i as int, i + 5));
                    }
                }
            }
            modifiers.alt = true;
            i = i + 4;
        } else if has_prefix_at(&v, i, "shift+") {
            proof {
                assert(rest.take(6) == v@.subrange(i as int, i + 6));
                assert(rest.skip(6) == v@.skip(i + 6));
                assert(!(rest.len() >= 5 && rest.take(5) == seq!['c', 't', 'r', 'l', '+'])) by {
                    if rest.len() >= 5 {
                        assert(rest.take(5) == v@.subrange(i as int, i + 5));
                    }
                }
                assert(!(rest.len() >= 4 && rest.take(4) == seq!['a', 'l', 't', '+'])) by {
                    if rest.len() >= 4 {
                        assert(rest.take(4) == v@.subrange(i as int, i + 4));
                    }
                }
            }
            modifiers.shift = true;
            i = i + 6;
        } else {
            proof {
                if rest.len() >= 5 {
                    assert(rest.take(5) == v@.subrange(i as int, i + 5));
                }
                if rest.len() >= 4 {
                    assert(rest.take(4) == v@.subrange(i as int, i + 4));
                }
                if rest.len() >= 6 {
                    assert(rest.take(6) == v@.subrange(i as int, i + 6));
                }
                assert(strip_modifiers(rest, modifiers) == (modifiers, rest));
            }
            break;
        }
    }
    let rest: Vec<char> = slice_chars(&v, i, v.len());
    assert(rest@ == v@.skip(i as int));
    match parse_key_code(&rest) {
        Ok(code) => Ok(KeySpec { code, modifiers }),
        Err(e) => Err(e),
    }
}

/// How a key is written: `F5`, the named keys, `Space`, or the character
/// uppercased.
pub open spec fn key_name(code: KeyCode) -> Seq<char> {
    match code {
        KeyCode::F(n) => seq!['F'] + decimal(n as nat),
        KeyCode::Tab => "Tab"@,
        KeyCode::Enter => "Enter"@,
        KeyCode::Esc => "Esc"@,
        KeyCode::Up => "Up"@,
        KeyCode::Down => "Down"@,
        KeyCode::Left => "Left"@,
        KeyCode::Right => "Right"@,
        KeyCode::Home => "Home"@,
        KeyCode::End => "End"@,
        KeyCode::Backspace => "Backspace"@,
        KeyCode::Delete => "Delete"@,
        KeyCode::Char(c) => if c == ' ' {
            "Space"@
        } else {
            uppercase_of(c)
        },
        KeyCode::PageUp => "PageUp"@,
        KeyCode::PageDown => "PageDown"@,
        KeyCode::BackTab => "BackTab"@,
        KeyCode::Insert => "Insert"@,
        KeyCode::Null => "Null"@,
        KeyCode::CapsLock => "CapsLock"@,
        KeyCode::ScrollLock => "ScrollLock"@,
        KeyCode::NumLock => "NumLock"@,
        KeyCode::PrintScreen => "PrintScreen"@,
        KeyCode::Pause => "Pause"@,
        KeyCode::Menu => "Menu"@,
        KeyCode::KeypadBegin => "KeypadBegin"@,
        KeyCode::Media => "Media"@,
        KeyCode::Modifier => "Modifier"@,
    }
}

/// A key specification as shown to the user: `Ctrl+`, `Alt+`, `Shift+`
/// for the modifiers held, then the key's name.
pub open spec fn key_spec_text(k: KeySpec) -> Seq<char> {
    (if k.modifiers.control {
        "Ctrl+"@
    } else {
        Seq::empty()
    }) + (if k.modifiers.alt {
        "Alt+"@
    } else {
        Seq::empty()
    }) + (if k.modifiers.shift {
        "Shift+"@
    } else {
        Seq::empty()
    }) + key_name(k.code)
}

fn key_name_string(code: KeyCode) -> (r: String)
    ensures
        r@ == key_name(code),
{
    match code {
        KeyCode::F(n) => {
            let mut r: String = String::new();
            push_char(&mut r, 'F');
            let digits: String = decimal_string(n as u64);
            r.append(digits.as_str());
            r
        },
        KeyCode::Tab => "Tab".to_owned(),
        KeyCode::Enter => "Enter".to_owned(),
        KeyCode::Esc => "Esc".to_owned(),
        KeyCode::Up => "Up".to_owned(),
        KeyCode::Down => "Down".to_owned(),
        KeyCode::Left => "Left".to_owned(),
        KeyCode::Right => "Right".to_owned(),
        KeyCode::Home => "Home".to_owned(),
        KeyCode::End => "End".to_owned(),
        KeyCode::Backspace => "Backspace".to_owned(),
        KeyCode::Delete => "Delete".to_owned(),
        KeyCode::Char(c) => if c == ' ' {
            "Space".to_owned()
        } else {
            char_to_uppercase(c)
        },
        KeyCode::PageUp => "PageUp".to_owned(),
        KeyCode::PageDown => "PageDown".to_owned(),
        KeyCode::BackTab => "BackTab".to_owned(),
        KeyCode::Insert => "Insert".to_owned(),
        KeyCode::Null => "Null".to_owned(),
        KeyCode::CapsLock => "CapsLock".to_owned(),
        KeyCode::ScrollLock => "ScrollLock".to_owned(),
        KeyCode::NumLock => "NumLock".to_owned(),
        KeyCode::PrintScreen => "PrintScreen".to_owned(),
        KeyCode::Pause => "Pause".to_owned(),
        KeyCode::Menu => "Menu".to_owned(),
        KeyCode::KeypadBegin => "KeypadBegin".to_owned(),
        KeyCode::Media => "Media".to_owned(),
        KeyCode::Modifier => "Modifier".to_owned(),
    }
}

/// Writes a key specification for display, such as `Ctrl+R` or `F10`.
pub fn format_key_spec(spec: KeySpec) -> (r: String)
    ensures
        r@ == key_spec_text(spec),
{
    let mut r: String = String::new();
    if spec.modifiers.control {
        r.append("Ctrl+");
    }
    if spec.modifiers.alt {
        r.append("Alt+");
    }
    if spec.modifiers.shift {
        r.append("Shift+");
    }
    let name: String = key_name_string(spec.code);
    r.append(name.as_str());
    proof {
        assert(Seq::<char>::empty() + Seq::<char>::empty() =~= Seq::<char>::empty());
    }
    r
}

/// The actions that have a key, in declaration order.
pub open spec fn bound_action(i: int) -> Action {
    if i == 0 {
        Action::Quit
    } else if i == 1 {
        Action::SwitchPanel
    } else if i == 2 {
        Action::Up
    } else if i == 3 {
        Action::Down
    } else if i == 4 {
        Action::Open
    } else if i == 5 {
        Action::ToggleSelect
    } else if i == 6 {
        Action::Rename
    } else if i == 7 {
        Action::Mkdir
    } else if i == 8 {
        Action::Delete
    } else if i == 9 {
        Action::Refresh
    } else if i == 10 {
        Action::Copy
    } else if i == 11 {
        Action::CancelTransfer
    } else if i == 12 {
        Action::OpenConnections
    } else if i == 13 {
        Action::AddConnection
    } else if i == 14 {
        Action::DeleteConnection
    } else if i == 15 {
        Action::OpenTerminal
    } else if i == 16 {
        Action::ToggleHidden
    } else if i == 17 {
        Action::CycleSort
    } else if i == 18 {
        Action::BookmarkHere
    } else if i == 19 {
        Action::OpenBookmarks
    } else if i == 20 {
        Action::OpenSearch
    } else if i == 21 {
        Action::CycleSession
    } else if i == 22 {
        Action::Help
    } else {
        Action::Back
    }
}

pub open spec fn action_index(a: Action) -> int {
    match a {
        Action::Quit => 0,
        Action::SwitchPanel => 1,
        Action::Up => 2,
        Action::Down => 3,
        Action::Open => 4,
        Action::ToggleSelect => 5,
        Action::Rename => 6,
        Action::Mkdir => 7,
        Action::Delete => 8,
        Action::Refresh => 9,
        Action::Copy => 10,
        Action::CancelTransfer => 11,
        Action::OpenConnections => 12,
        Action::AddConnection => 13,
        Action::DeleteConnection => 14,
        Action::OpenTerminal => 15,
        Action::ToggleHidden => 16,
        Action::CycleSort => 17,
        Action::BookmarkHere => 18,
        Action::OpenBookmarks => 19,
        Action::OpenSearch => 20,
        Action::CycleSession => 21,
        Action::Help => 22,
        Action::Back => 23,
        Action::Noop => 24,
    }
}

pub open spec fn plain_key(code: KeyCode) -> KeySpec {
    KeySpec { code, modifiers: no_modifiers() }
}

pub open spec fn ctrl_key(c: char) -> KeySpec {
    KeySpec { code: KeyCode::Char(c), modifiers: KeyModifiers { control: true, ..no_modifiers() } }
}

/// The key each action has by default.
pub open spec fn default_key(a: Action) -> KeySpec {
    match a {
        Action::Quit => plain_key(KeyCode::F(10)),
        Action::SwitchPanel => plain_key(KeyCode::Tab),
        Action::Up => plain_key(KeyCode::Up),
        Action::Down => plain_key(KeyCode::Down),
        Action::Open => plain_key(KeyCode::Enter),
        Action::ToggleSelect => plain_key(KeyCode::Char(' ')),
        Action::Rename => plain_key(KeyCode::F(2)),
        Action::OpenTerminal => plain_key(KeyCode::F(4)),
        Action::Copy => plain_key(KeyCode::F(5)),
        Action::Mkdir => plain_key(KeyCode::F(7)),
        Action::Delete => plain_key(KeyCode::F(8)),
        Action::OpenConnections => plain_key(KeyCode::F(9)),
        Action::AddConnection => plain_key(KeyCode::F(6)),
        Action::DeleteConnection => plain_key(KeyCode::Delete),
        Action::Back => plain_key(KeyCode::Esc),
        Action::Refresh => ctrl_key('r'),
        Action::CancelTransfer => ctrl_key('c'),
        Action::ToggleHidden => ctrl_key('h'),
        Action::CycleSort => ctrl_key('s'),
        Action::BookmarkHere => ctrl_key('d'),
        Action::OpenBookmarks => ctrl_key('b'),
        Action::OpenSearch => ctrl_key('f'),
        Action::CycleSession => ctrl_key('n'),
        Action::Help => plain_key(KeyCode::F(1)),
        Action::Noop => plain_key(KeyCode::Null),
    }
}

/// The action a default key belongs to.
pub open spec fn default_action_for(k: KeySpec) -> Action {
    if k.modifiers == no_modifiers() {
        match k.code {
            KeyCode::F(n) => if n == 10 {
                Action::Quit
            } else if n == 2 {
                Action::Rename
            } else if n == 4 {
                Action::OpenTerminal
            } else if n == 5 {
                Action::Copy
            } else if n == 7 {
                Action::Mkdir
            } else if n == 8 {
                Action::Delete
            } else if n == 9 {
                Action::OpenConnections
            } else if n == 6 {
                Action::AddConnection
            } else if n == 1 {
                Action::Help
            } else {
                Action::Noop
            },
            KeyCode::Tab => Action::SwitchPanel,
            KeyCode::Up => Action::Up,
            KeyCode::Down => Action::Down,
            KeyCode::Enter => Action::Open,
            KeyCode::Char(c) => if c == ' ' {
                Action::ToggleSelect
            } else {
                Action::Noop
            },
            KeyCode::Delete => Action::DeleteConnection,
            KeyCode::Esc => Action::Back,
            _ => Action::Noop,
        }
    } else if k.modifiers == (KeyModifiers { control: true, ..no_modifiers() }) {
        match k.code {
            KeyCode::Char(c) => if c == 'r' {
                Action::Refresh
            } else if c == 'c' {
                Action::CancelTransfer
            } else if c == 'h' {
                Action::ToggleHidden
            } else if c == 's' {
                Action::CycleSort
            } else if c == 'd' {
                Action::BookmarkHere
            } else if c == 'b' {
                Action::OpenBookmarks
            } else if c == 'f' {
                Action::OpenSearch
            } else if c == 'n' {
                Action::CycleSession
            } else {
                Action::Noop
            },
            _ => Action::Noop,
        }
    } else {
        Action::Noop
    }
}

/// The default bindings: every action but `Noop`, with its default key.
pub open spec fn default_bindings() -> Seq<(Action, KeySpec)> {
    Seq::new(24, |i: int| (bound_action(i), default_key(bound_action(i))))
}

/// No action is bound twice and no key is bound to two actions.
pub open spec fn distinct_bindings(b: Seq<(Action, KeySpec)>) -> bool {
    forall|i: int, j: int|
        #![trigger b[i], b[j]]
        0 <= i < b.len() && 0 <= j < b.len() && i != j ==> b[i].0 != b[j].0 && b[i].1 != b[j].1
}

/// Whether an entry survives binding `k` to `a`.
pub open spec fn keeps(a: Action, k: KeySpec) -> spec_fn((Action, KeySpec)) -> bool {
    |q: (Action, KeySpec)| q.0 == a || q.1 != k
}

/// The key bound to `a`, if any.
pub open spec fn key_of(b: Seq<(Action, KeySpec)>, a: Action) -> Option<KeySpec> {
    if exists|i: int| 0 <= i < b.len() && #[trigger] b[i].0 == a {
        Some(b[choose|i: int| 0 <= i < b.len() && #[trigger] b[i].0 == a].1)
    } else {
        None
    }
}

/// The action bound to `k`, or `Noop`.
pub open spec fn action_of(b: Seq<(Action, KeySpec)>, k: KeySpec) -> Action {
    if exists|i: int| 0 <= i < b.len() && #[trigger] b[i].1 == k {
        b[choose|i: int| 0 <= i < b.len() && #[trigger] b[i].1 == k].0
    } else {
        Action::Noop
    }
}

/// `b` with `k` bound to `a`: any other action bound to `k` loses its
/// binding, and `a`'s earlier key is replaced.
pub open spec fn rebind(b: Seq<(Action, KeySpec)>, a: Action, k: KeySpec) -> Seq<(Action, KeySpec)> {
    let kept = b.filter(keeps(a, k));
    if exists|i: int| 0 <= i < kept.len() && #[trigger] kept[i].0 == a {
        kept.update(choose|i: int| 0 <= i < kept.len() && #[trigger] kept[i].0 == a, (a, k))
    } else {
        kept.push((a, k))
    }
}

pub open spec fn unknown_action_message(name: Seq<char>) -> Seq<char> {
    "unknown key binding action \""@ + name + "\""@
}

pub open spec fn invalid_key_message(key: Seq<char>, name: Seq<char>, error: Seq<char>) -> Seq<char> {
    "invalid key \""@ + key + "\" for \""@ + name + "\": "@ + error
}

pub open spec fn key_taken_message(key: Seq<char>, other: Seq<char>, name: Seq<char>) -> Seq<char> {
    "key \""@ + key + "\" is already bound to \""@ + other + "\"; \""@ + name + "\" now overrides it"@
}

/// One override `(name, key)` applied to bindings and warnings: an unknown
/// action or an unreadable key is reported and ignored; a key bound to
/// another action is reported and taken from it.
pub open spec fn override_step(st: (Seq<(Action, KeySpec)>, Seq<Seq<char>>), name: Seq<char>, key: Seq<char>) -> (
    Seq<(Action, KeySpec)>,
    Seq<Seq<char>>,
) {
    let (b, w) = st;
    match action_named(name) {
        None => (b, w.push(unknown_action_message(name))),
        Some(a) => match key_spec_of(key) {
            Err(e) => (b, w.push(invalid_key_message(key, name, e))),
            Ok(k) => {
                let w2 = if exists|i: int| 0 <= i < b.len() && #[trigger] b[i].1 == k && b[i].0 != a {
                    w.push(key_taken_message(key, action_name(action_of(b, k)), name))
                } else {
                    w
                };
                (rebind(b, a, k), w2)
            },
        },
    }
}

/// The first `n` overrides applied, in order, to the defaults.
pub open spec fn apply_overrides(overrides: Seq<(Seq<char>, Seq<char>)>, n: int) -> (Seq<(Action, KeySpec)>, Seq<Seq<char>>)
    decreases n,
{
    if n <= 0 {
        (default_bindings(), Seq::empty())
    } else {
        override_step(apply_overrides(overrides, n - 1), overrides[n - 1].0, overrides[n - 1].1)
    }
}

proof fn lemma_default_bindings_distinct()
    ensures
        distinct_bindings(default_bindings()),
        default_bindings().len() == 24,
{
    let b = default_bindings();
    assert forall|i: int| 0 <= i < 24 implies action_index(#[trigger] bound_action(i)) == i && default_action_for(
        default_key(bound_action(i)),
    ) == bound_action(i) by {}
    assert forall|i: int, j: int| 0 <= i < b.len() && 0 <= j < b.len() && i != j implies b[i].0 != b[j].0
        && b[i].1 != b[j].1 by {
        assert(action_index(bound_action(i)) == i);
        assert(action_index(bound_action(j)) == j);
        assert(default_action_for(default_key(bound_action(i))) == bound_action(i));
        assert(default_action_for(default_key(bound_action(j))) == bound_action(j));
    }
}

proof fn lemma_filter_distinct(b: Seq<(Action, KeySpec)>, p: spec_fn((Action, KeySpec)) -> bool)
    requires
        distinct_bindings(b),
    ensures
        distinct_bindings(b.filter(p)),
    decreases b.len(),
{
    reveal(Seq::filter);
    if b.len() > 0 {
        let s = b.drop_last();
        assert forall|i: int, j: int| 0 <= i < s.len() && 0 <= j < s.len() && i != j implies s[i].0 != s[j].0
            && s[i].1 != s[j].1 by {
            assert(s[i] == b[i] && s[j] == b[j]);
        }
        lemma_filter_distinct(s, p);
        let f = s.filter(p);
        let x = b.last();
        if p(x) {
            assert forall|k: int| 0 <= k < f.len() implies f[k].0 != x.0 && f[k].1 != x.1 by {
                assert(f.contains(f[k]));
                s.lemma_filter_contains_rev(p, f[k]);
                let m = choose|m: int| 0 <= m < s.len() && s[m] == f[k];
                assert(b[m] == s[m]);
                assert(b[b.len() - 1] == x);
            }
            let g = f.push(x);
            assert forall|i: int, j: int| 0 <= i < g.len() && 0 <= j < g.len() && i != j implies g[i].0 != g[j].0
                && g[i].1 != g[j].1 by {
                if i < f.len() && j < f.len() {
                    assert(g[i] == f[i] && g[j] == f[j]);
                } else if i < f.len() {
                    assert(g[i] == f[i] && g[j] == x);
                } else {
                    assert(g[j] == f[j] && g[i] == x);
                }
            }
        }
    }
}

/// Rebinding keeps bindings distinct, binds `k` to `a`, and leaves every
/// other action whose key was not `k` as it was.
pub proof fn lemma_rebind(b: Seq<(Action, KeySpec)>, a: Action, k: KeySpec)
    requires
        distinct_bindings(b),
    ensures
        distinct_bindings(rebind(b, a, k)),
        key_of(rebind(b, a, k), a) == Some(k),
        action_of(rebind(b, a, k), k) == a,
        forall|x: Action| x != a && key_of(b, x) != Some(k) ==> #[trigger] key_of(rebind(b, a, k), x) == key_of(b, x),
{
    broadcast use vstd::seq_lib::group_filter_ensures;

    let p = keeps(a, k);
    let kept = b.filter(p);
    lemma_filter_distinct(b, p);
    let r = rebind(b, a, k);
    if exists|i: int| 0 <= i < kept.len() && #[trigger] kept[i].0 == a {
        let j = choose|i: int| 0 <= i < kept.len() && #[trigger] kept[i].0 == a;
        assert(r == kept.update(j, (a, k)));
        assert forall|i: int, m: int| 0 <= i < r.len() && 0 <= m < r.len() && i != m implies r[i].0 != r[m].0
            && r[i].1 != r[m].1 by {
            if i != j && m != j {
                assert(r[i] == kept[i] && r[m] == kept[m]);
            } else if i == j {
                assert(r[m] == kept[m]);
                assert(kept[m].0 != a);
                assert(p(kept[m]));
            } else {
                assert(r[i] == kept[i]);
                assert(kept[i].0 != a);
                assert(p(kept[i]));
            }
        }
        assert(r[j] == (a, k));
        assert(distinct_bindings(r));
        let c = choose|i: int| 0 <= i < r.len() && #[trigger] r[i].0 == a;
        assert(r[c] == r[j]);
        let d = choose|i: int| 0 <= i < r.len() && #[trigger] r[i].1 == k;
        assert(r[d] == r[j]);
        assert(key_of(r, a) == Some(k));
        assert(action_of(r, k) == a);
        assert forall|x: Action| x != a && key_of(b, x) != Some(k) implies #[trigger] key_of(r, x) == key_of(b, x) by {
            lemma_key_of_after_filter(b, p, a, k, x);
            if exists|i: int| 0 <= i < kept.len() && #[trigger] kept[i].0 == x {
                let q = choose|i: int| 0 <= i < kept.len() && #[trigger] kept[i].0 == x;
                assert(q != j);
                assert(r[q] == kept[q]);
            } else {
                assert forall|i: int| 0 <= i < r.len() implies #[trigger] r[i].0 != x by {
                    if i != j {
                        assert(r[i] == kept[i]);
                    }
                }
            }
        }
    } else {
        assert(r == kept.push((a, k)));
        assert forall|i: int, m: int| 0 <= i < r.len() && 0 <= m < r.len() && i != m implies r[i].0 != r[m].0
            && r[i].1 != r[m].1 by {
            if i < kept.len() && m < kept.len() {
                assert(r[i] == kept[i] && r[m] == kept[m]);
            } else if i < kept.len() {
                assert(r[i] == kept[i]);
                assert(p(kept[i]));
            } else {
                assert(r[m] == kept[m]);
                assert(p(kept[m]));
            }
        }
        assert(r[kept.len() as int] == (a, k));
        assert(distinct_bindings(r));
        let c = choose|i: int| 0 <= i < r.len() && #[trigger] r[i].0 == a;
        assert(r[c] == r[kept.len() as int]);
        let d = choose|i: int| 0 <= i < r.len() && #[trigger] r[i].1 == k;
        assert(r[d] == r[kept.len() as int]);
        assert(key_of(r, a) == Some(k));
        assert(action_of(r, k) == a);
        assert forall|x: Action| x != a && key_of(b, x) != Some(k) implies #[trigger] key_of(r, x) == key_of(b, x) by {
            lemma_key_of_after_filter(b, p, a, k, x);
            if exists|i: int| 0 <= i < kept.len() && #[trigger] kept[i].0 == x {
                let q = choose|i: int| 0 <= i < kept.len() && #[trigger] kept[i].0 == x;
                assert(r[q] == kept[q]);
            }
        }
    }
}

/// Filtering out the entries that bind `k` to another action than `a`
/// keeps the key of every action other than `a` not bound to `k`.
proof fn lemma_key_of_after_filter(
    b: Seq<(Action, KeySpec)>,
    p: spec_fn((Action, KeySpec)) -> bool,
    a: Action,
    k: KeySpec,
    x: Action,
)
    requires
        distinct_bindings(b),
        p == keeps(a, k),
        x != a,
        key_of(b, x) != Some(k),
    ensures
        key_of(b.filter(p), x) == key_of(b, x),
{
    broadcast use vstd::seq_lib::group_filter_ensures;

    let kept = b.filter(p);
    lemma_filter_distinct(b, p);
    if exists|i: int| 0 <= i < b.len() && #[trigger] b[i].0 == x {
        let i = choose|i: int| 0 <= i < b.len() && #[trigger] b[i].0 == x;
        assert(p(b[i]));
        assert(kept.contains(b[i]));
        let q = choose|q: int| 0 <= q < kept.len() && kept[q] == b[i];
        assert(kept[q].0 == x);
        let q2 = choose|q: int| 0 <= q < kept.len() && #[trigger] kept[q].0 == x;
        assert(q2 == q);
    } else {
        assert forall|q: int| 0 <= q < kept.len() implies #[trigger] kept[q].0 != x by {
            lemma_filter_elements_contained(b, p, q);
        }
    }
}

proof fn lemma_filter_elements_contained(b: Seq<(Action, KeySpec)>, p: spec_fn((Action, KeySpec)) -> bool, q: int)
    requires
        0 <= q < b.filter(p).len(),
    ensures
        exists|i: int| 0 <= i < b.len() && b[i] == b.filter(p)[q],
{
    crate::seq_facts::lemma_filter_elements(b, p, q);
}

/// The binding for `a`, when there is one, is found again from its key.
pub proof fn lemma_key_maps_back(b: Seq<(Action, KeySpec)>, a: Action)
    requires
        distinct_bindings(b),
        key_of(b, a) is Some,
    ensures
        action_of(b, key_of(b, a)->0) == a,
{
    let i = choose|i: int| 0 <= i < b.len() && #[trigger] b[i].0 == a;
    let k = b[i].1;
    assert(b[i].1 == k);
    let j = choose|j: int| 0 <= j < b.len() && #[trigger] b[j].1 == k;
    assert(i == j);
}

/// Which action each key triggers.
pub struct KeyBindings(Vec<(Action, KeySpec)>);

impl View for KeyBindings {
    type V = Seq<(Action, KeySpec)>;

    closed spec fn view(&self) -> Seq<(Action, KeySpec)> {
        self.0@
    }
}

fn bound_action_at(i: usize) -> (a: Action)
    requires
        i < 24,
    ensures
        a == bound_action(i as int),
{
    if i == 0 {
        Action::Quit
    } else if i == 1 {
        Action::SwitchPanel
    } else if i == 2 {
        Action::Up
    } else if i == 3 {
        Action::Down
    } else if i == 4 {
        Action::Open
    } else if i == 5 {
        Action::ToggleSelect
    } else if i == 6 {
        Action::Rename
    } else if i == 7 {
        Action::Mkdir
    } else if i == 8 {
        Action::Delete
    } else if i == 9 {
        Action::Refresh
    } else if i == 10 {
        Action::Copy
    } else if i == 11 {
        Action::CancelTransfer
    } else if i == 12 {
        Action::OpenConnections
    } else if i == 13 {
        Action::AddConnection
    } else if i == 14 {
        Action::DeleteConnection
    } else if i == 15 {
        Action::OpenTerminal
    } else if i == 16 {
        Action::ToggleHidden
    } else if i == 17 {
        Action::CycleSort
    } else if i == 18 {
        Action::BookmarkHere
    } else if i == 19 {
        Action::OpenBookmarks
    } else if i == 20 {
        Action::OpenSearch
    } else if i == 21 {
        Action::CycleSession
    } else if i == 22 {
        Action::Help
    } else {
        Action::Back
    }
}

fn plain(code: KeyCode) -> (k: KeySpec)
    ensures
        k == plain_key(code),
{
    KeySpec { code, modifiers: KeyModifiers::none() }
}

fn ctrl(c: char) -> (k: KeySpec)
    ensures
        k == ctrl_key(c),
{
    KeySpec { code: KeyCode::Char(c), modifiers: KeyModifiers::control_only() }
}

fn default_key_for(a: Action) -> (k: KeySpec)
    ensures
        k == default_key(a),
{
    match a {
        Action::Quit => plain(KeyCode::F(10)),
        Action::SwitchPanel => plain(KeyCode::Tab),
        Action::Up => plain(KeyCode::Up),
        Action::Down => plain(KeyCode::Down),
        Action::Open => plain(KeyCode::Enter),
        Action::ToggleSelect => plain(KeyCode::Char(' ')),
        Action::Rename => plain(KeyCode::F(2)),
        Action::OpenTerminal => plain(KeyCode::F(4)),
        Action::Copy => plain(KeyCode::F(5)),
        Action::Mkdir => plain(KeyCode::F(7)),
        Action::Delete => plain(KeyCode::F(8)),
        Action::OpenConnections => plain(KeyCode::F(9)),
        Action::AddConnection => plain(KeyCode::F(6)),
        Action::DeleteConnection => plain(KeyCode::Delete),
        Action::Back => plain(KeyCode::Esc),
        Action::Refresh => ctrl('r'),
        Action::CancelTransfer => ctrl('c'),
        Action::ToggleHidden => ctrl('h'),
        Action::CycleSort => ctrl('s'),
        Action::BookmarkHere => ctrl('d'),
        Action::OpenBookmarks => ctrl('b'),
        Action::OpenSearch => ctrl('f'),
        Action::CycleSession => ctrl('n'),
        Action::Help => plain(KeyCode::F(1)),
        Action::Noop => plain(KeyCode::Null),
    }
}

fn unknown_action_warning(name: &str) -> (m: String)
    ensures
        m@ == unknown_action_message(name@),
{
    let mut m: String = "unknown key binding action \"".to_owned();
    m.append(name);
    m.append("\"");
    m
}

fn invalid_key_warning(key: &str, name: &str, error: &str) -> (m: String)
    ensures
        m@ == invalid_key_message(key@, name@, error@),
{
    let mut m: String = "invalid key \"".to_owned();
    m.append(key);
    m.append("\" for \"");
    m.append(name);
    m.append("\": ");
    m.append(error);
    m
}

fn key_taken_warning(key: &str, other: &str, name: &str) -> (m: String)
    ensures
        m@ == key_taken_message(key@, other@, name@),
{
    let mut m: String = "key \"".to_owned();
    m.append(key);
    m.append("\" is already bound to \"");
    m.append(other);
    m.append("\"; \"");
    m.append(name);
    m.append("\" now overrides it");
    m
}

impl KeyBindings {
    /// No action is bound twice and no key twice.
    pub closed spec fn wf(&self) -> bool {
        distinct_bindings(self@)
    }

    /// The key each action has out of the box.
    pub fn defaults() -> (b: KeyBindings)
        ensures
            b@ == default_bindings(),
            b.wf(),
    {
        let mut v: Vec<(Action, KeySpec)> = Vec::new();
        let mut i: usize = 0;
        while i < 24
            invariant
                i <= 24,
                v@ == default_bindings().take(i as int),
            decreases 24 - i,
        {
            let a: Action = bound_action_at(i);
            let k: KeySpec = default_key_for(a);
            v.push((a, k));
            proof {
                assert(default_bindings().take(i + 1) =~= default_bindings().take(i as int).push((a, k)));
            }
            i = i + 1;
        }
        proof {
            assert(default_bindings().take(24) =~= default_bindings());
            lemma_default_bindings_distinct();
        }
        KeyBindings(v)
    }

    /// The action bound to the key of `key`, or `Noop`.
    pub fn map_key(&self, key: KeyEvent) -> (a: Action)
        requires
            self.wf(),
        ensures
            a == action_of(self@, KeySpec { code: key.code, modifiers: key.modifiers }),
    {
        let spec = KeySpec { code: key.code, modifiers: key.modifiers };
        let mut i: usize = 0;
        while i < self.0.len()
            invariant
                i <= self.0.len(),
                self.wf(),
                spec == (KeySpec { code: key.code, modifiers: key.modifiers }),
                forall|m: int| 0 <= m < i ==> #[trigger] self@[m].1 != spec,
            decreases self.0.len() - i,
        {
            if self.0[i].1 == spec {
                proof {
                    assert(self@[i as int].1 == spec);
                    let j = choose|j: int| 0 <= j < self@.len() && #[trigger] self@[j].1 == spec;
                    if j != i {
                        assert(self@[j].1 != self@[i as int].1);
                    }
                }
                return self.0[i].0;
            }
            i = i + 1;
        }
        Action::Noop
    }

    /// The key bound to `action`, if any.
    pub fn key_for(&self, action: Action) -> (k: Option<KeySpec>)
        requires
            self.wf(),
        ensures
            k == key_of(self@, action),
    {
        let mut i: usize = 0;
        while i < self.0.len()
            invariant
                i <= self.0.len(),
                self.wf(),
                forall|m: int| 0 <= m < i ==> #[trigger] self@[m].0 != action,
            decreases self.0.len() - i,
        {
            if self.0[i].0 == action {
                proof {
                    assert(self@[i as int].0 == action);
                    let j = choose|j: int| 0 <= j < self@.len() && #[trigger] self@[j].0 == action;
                    if j != i {
                        assert(self@[j].0 != self@[i as int].0);
                    }
                }
                return Some(self.0[i].1);
            }
            i = i + 1;
        }
        None
    }

    /// The action other than `action` bound to `spec`, if any.
    fn conflicting(&self, action: Action, spec: KeySpec) -> (r: Option<Action>)
        requires
            self.wf(),
        ensures
            match r {
                Some(c) => (exists|i: int| 0 <= i < self@.len() && #[trigger] self@[i].1 == spec && self@[i].0 != action)
                    && c == action_of(self@, spec),
                None => !exists|i: int| 0 <= i < self@.len() && #[trigger] self@[i].1 == spec && self@[i].0 != action,
            },
    {
        let mut i: usize = 0;
        while i < self.0.len()
            invariant
                i <= self.0.len(),
                self.wf(),
                forall|m: int| 0 <= m < i ==> !(#[trigger] self@[m].1 == spec && self@[m].0 != action),
            decreases self.0.len() - i,
        {
            if self.0[i].0 != action && self.0[i].1 == spec {
                proof {
                    assert(self@[i as int].1 == spec && self@[i as int].0 != action);
                    let j = choose|j: int| 0 <= j < self@.len() && #[trigger] self@[j].1 == spec;
                    if j != i {
                        assert(self@[j].1 != self@[i as int].1);
                    }
                }
                return Some(self.0[i].0);
            }
            i = i + 1;
        }
        None
    }

    /// Binds `spec` to `action`, taking it from any other action.
    fn rebind(&mut self, action: Action, spec: KeySpec)
        requires
            old(self).wf(),
        ensures
            final(self).wf(),
            final(self)@ == rebind(old(self)@, action, spec),
    {
        let ghost b = self@;
        let ghost p = keeps(action, spec);
        let mut kept: Vec<(Action, KeySpec)> = Vec::new();
        let mut i: usize = 0;
        while i < self.0.len()
            invariant
                i <= self.0.len(),
                b == self@,
                p == keeps(action, spec),
                distinct_bindings(b),
                kept@ == b.take(i as int).filter(p),
            decreases self.0.len() - i,
        {
            proof {
                crate::seq_facts::lemma_filter_take_step(b, i as int, p);
            }
            let entry: (Action, KeySpec) = self.0[i];
            if entry.0 == action || entry.1 != spec {
                kept.push(entry);
            }
            i = i + 1;
        }
        proof {
            assert(b.take(b.len() as int) == b);
            lemma_filter_distinct(b, p);
        }
        let mut j: usize = 0;
        while j < kept.len()
            invariant
                j <= kept.len(),
                kept@ == b.filter(p),
                p == keeps(action, spec),
                b == old(self)@,
                distinct_bindings(b),
                distinct_bindings(kept@),
                forall|m: int| 0 <= m < j ==> #[trigger] kept@[m].0 != action,
            decreases kept.len() - j,
        {
            if kept[j].0 == action {
                proof {
                    assert(kept@[j as int].0 == action);
                    let c = choose|c: int| 0 <= c < kept@.len() && #[trigger] kept@[c].0 == action;
                    if c != j {
                        assert(kept@[c].0 != kept@[j as int].0);
                    }
                }
                kept.set(j, (action, spec));
                self.0 = kept;
                proof {
                    lemma_rebind(b, action, spec);
                }
                return;
            }
            j = j + 1;
        }
        kept.push((action, spec));
        self.0 = kept;
        proof {
            lemma_rebind(b, action, spec);
        }
    }

    /// The defaults with the overrides applied in order, and a warning for
    /// each override that is ignored or takes a key from another action.
    pub fn from_overrides(overrides: &Vec<(String, String)>) -> (r: (KeyBindings, Vec<String>))
        ensures
            r.0.wf(),
            (r.0@, r.1@.map_values(|w: String| w@)) == apply_overrides(
                overrides@.map_values(|o: (String, String)| (o.0@, o.1@)),
                overrides@.len() as int,
            ),
    {
        let ghost ov = overrides@.map_values(|o: (String, String)| (o.0@, o.1@));
        let mut bindings: KeyBindings = KeyBindings::defaults();
        let mut warnings: Vec<String> = Vec::new();
        let mut i: usize = 0;
        proof {
            assert(warnings@.map_values(|w: String| w@) =~= Seq::<Seq<char>>::empty());
        }
        while i < overrides.len()
            invariant
                i <= overrides.len(),
                ov == overrides@.map_values(|o: (String, String)| (o.0@, o.1@)),
                bindings.wf(),
                (bindings@, warnings@.map_values(|w: String| w@)) == apply_overrides(ov, i as int),
            decreases overrides.len() - i,
        {
            let name: &str = overrides[i].0.as_str();
            let key: &str = overrides[i].1.as_str();
            let ghost prev_w = warnings@;
            proof {
                assert(ov[i as int] == (name@, key@));
            }
            match Action::from_name(name) {
                None => {
                    warnings.push(unknown_action_warning(name));
                    proof {
                        assert(warnings@.map_values(|w: String| w@) =~= prev_w.map_values(|w: String| w@).push(
                            unknown_action_message(name@),
                        ));
                    }
                },
                Some(action) => match parse_key_spec(key) {
                    Err(err) => {
                        warnings.push(invalid_key_warning(key, name, err.0.as_str()));
                        proof {
                            assert(warnings@.map_values(|w: String| w@) =~= prev_w.map_values(|w: String| w@).push(
                                invalid_key_message(key@, name@, err.0@),
                            ));
                        }
                    },
                    Ok(spec) => {
                        match bindings.conflicting(action, spec) {
                            Some(other) => {
                                warnings.push(key_taken_warning(key, other.name(), name));
                                proof {
                                    assert(warnings@.map_values(|w: String| w@) =~= prev_w.map_values(|w: String| w@).push(
                                        key_taken_message(key@, action_name(other), name@),
                                    ));
                                }
                            },
                            None => {},
                        }
                        bindings.rebind(action, spec);
                    },
                },
            }
            i = i + 1;
        }
        (bindings, warnings)
    }
}

/// The parts of the hint line joined with two spaces.
pub open spec fn joined(parts: Seq<Seq<char>>) -> Seq<char>
    decreases parts.len(),
{
    if parts.len() == 0 {
        Seq::empty()
    } else if parts.len() == 1 {
        parts[0]
    } else {
        joined(parts.drop_last()) + seq![' ', ' '] + parts.last()
    }
}

/// The hint for one action: its key and a label, when it has a key.
pub open spec fn hint_part(b: Seq<(Action, KeySpec)>, a: Action, label: Seq<char>) -> Seq<Seq<char>> {
    match key_of(b, a) {
        Some(k) => seq![key_spec_text(k) + seq![' '] + label],
        None => Seq::empty(),
    }
}

/// The key-hint line: help, connections and quit, each with the key bound
/// to it now; an action without a key is left out.
pub open spec fn hint_text(b: Seq<(Action, KeySpec)>) -> Seq<char> {
    joined(hint_part(b, Action::Help, "Help"@) + hint_part(b, Action::OpenConnections, "Connections"@) + hint_part(
        b,
        Action::Quit,
        "Quit"@,
    ))
}

fn push_hint(parts: &mut Vec<String>, bindings: &KeyBindings, action: Action, label: &str)
    requires
        bindings.wf(),
    ensures
        final(parts)@.map_values(|p: String| p@) == old(parts)@.map_values(|p: String| p@) + hint_part(
            bindings@,
            action,
            label@,
        ),
{
    let ghost prev = parts@;
    match bindings.key_for(action) {
        Some(spec) => {
            let mut part: String = format_key_spec(spec);
            let ghost f = part@;
            push_char(&mut part, ' ');
            part.append(label);
            let ghost pv = part@;
            proof {
                assert(pv =~= key_spec_text(spec) + seq![' '] + label@);
                assert(key_of(bindings@, action) == Some(spec));
            }
            parts.push(part);
            proof {
                assert(parts@.map_values(|p: String| p@) =~= prev.map_values(|p: String| p@) + seq![pv]);
            }
        },
        None => {
            proof {
                assert(parts@.map_values(|p: String| p@) =~= prev.map_values(|p: String| p@) + Seq::<Seq<char>>::empty());
            }
        },
    }
}

/// Every action but `Noop`, in the order the help lists them.
pub const ALL_ACTIONS: [Action; 24] = [
    Action::Quit,
    Action::SwitchPanel,
    Action::Up,
    Action::Down,
    Action::Open,
    Action::ToggleSelect,
    Action::Rename,
    Action::Mkdir,
    Action::Delete,
    Action::Refresh,
    Action::Copy,
    Action::CancelTransfer,
    Action::OpenConnections,
    Action::AddConnection,
    Action::DeleteConnection,
    Action::OpenTerminal,
    Action::ToggleHidden,
    Action::CycleSort,
    Action::BookmarkHere,
    Action::OpenBookmarks,
    Action::OpenSearch,
    Action::CycleSession,
    Action::Help,
    Action::Back,
];

/// One line of the help: the key bound to `action` (or `(unbound)`)
/// left-aligned in ten columns, then the action's name.
pub open spec fn help_line_text(bindings: Seq<(Action, KeySpec)>, action: Action) -> Seq<char> {
    left_aligned(
        match key_of(bindings, action) {
            Some(k) => key_spec_text(k),
            None => "(unbound)"@,
        },
        10,
    ) + seq![' '] + action_name(action)
}

pub fn help_line(bindings: &KeyBindings, action: Action) -> (r: String)
    requires
        bindings.wf(),
    ensures
        r@ == help_line_text(bindings@, action),
{
    let key: String = match bindings.key_for(action) {
        Some(k) => format_key_spec(k),
        None => "(unbound)".to_owned(),
    };
    let mut r: String = String::new();
    push_left_aligned(&mut r, key.as_str(), 10);
    push_char(&mut r, ' ');
    r.append(action.name());
    proof {
        assert(r@ =~= help_line_text(bindings@, action));
    }
    r
}

/// The key-hint line built from the bindings in force, so a rebound
/// action shows its new key.
pub fn build_hint_text(bindings: &KeyBindings) -> (r: String)
    requires
        bindings.wf(),
    ensures
        r@ == hint_text(bindings@),
{
    let mut parts: Vec<String> = Vec::new();
    proof {
        assert(parts@.map_values(|p: String| p@) =~= Seq::<Seq<char>>::empty());
    }
    push_hint(&mut parts, bindings, Action::Help, "Help");
    push_hint(&mut parts, bindings, Action::OpenConnections, "Connections");
    push_hint(&mut parts, bindings, Action::Quit, "Quit");
    let ghost ps = parts@.map_values(|p: String| p@);
    proof {
        assert(ps =~= Seq::<Seq<char>>::empty() + hint_part(bindings@, Action::Help, "Help"@) + hint_part(
            bindings@,
            Action::OpenConnections,
            "Connections"@,
        ) + hint_part(bindings@, Action::Quit, "Quit"@));
        assert(Seq::<Seq<char>>::empty() + hint_part(bindings@, Action::Help, "Help"@) =~= hint_part(
            bindings@,
            Action::Help,
            "Help"@,
        ));
    }
    let mut r: String = String::new();
    let mut i: usize = 0;
    while i < parts.len()
        invariant
            i <= parts.len(),
            ps == parts@.map_values(|p: String| p@),
            r@ == joined(ps.take(i as int)),
        decreases parts.len() - i,
    {
        proof {
            assert(ps.take(i + 1).drop_last() =~= ps.take(i as int));
            assert(ps.take(i + 1).last() == ps[i as int]);
            assert(ps[i as int] == parts@[i as int]@);
            if i == 0 {
                assert(ps.take(1) =~= seq![ps[0]]);
            }
        }
        if i > 0 {
            push_char(&mut r, ' ');
            push_char(&mut r, ' ');
        }
        r.append(parts[i].as_str());
        proof {
            if i == 0 {
                assert(r@ =~= ps[0]);
            }
        }
        i = i + 1;
    }
    proof {
        assert(ps.take(ps.len() as int) =~= ps);
    }
    r
}

} // verus!
