//! The user's configuration: settings and bookmarks.
pub mod bookmarks;
pub mod settings;

use vstd::prelude::*;

use crate::paths::{path_join, path_joined};
use self::settings::{is_default_settings, settings_from_file, settings_read, Settings, SettingsFile};

verus! {

/// A problem met while reading the configuration, shown once started.
pub struct StartupWarning(pub String);

/// Where the configuration lives: `$XDG_CONFIG_HOME/termconnect`, else
/// `$HOME/.config/termconnect`; an error when neither is set.
pub open spec fn config_dir_spec(xdg: Option<Seq<char>>, home: Option<Seq<char>>) -> Result<Seq<char>, Seq<char>> {
    match xdg {
        Some(x) => Ok(path_joined(x, "termconnect"@)),
        None => match home {
            Some(h) => Ok(path_joined(path_joined(h, ".config"@), "termconnect"@)),
            None => Err("HOME environment variable is not set"@),
        },
    }
}

pub open spec fn str_opt(o: Option<&str>) -> Option<Seq<char>> {
    match o {
        Some(s) => Some(s@),
        None => None,
    }
}

/// The configuration directory, from the values of `XDG_CONFIG_HOME` and
/// `HOME`.
pub fn config_dir(xdg: Option<&str>, home: Option<&str>) -> (r: Result<String, String>)
    ensures
        match r {
            Ok(d) => config_dir_spec(str_opt(xdg), str_opt(home)) == Ok::<Seq<char>, Seq<char>>(d@),
            Err(e) => config_dir_spec(str_opt(xdg), str_opt(home)) == Err::<Seq<char>, Seq<char>>(e@),
        },
{
    match xdg {
        Some(x) => Ok(path_join(x, "termconnect")),
        None => match home {
            Some(h) => {
                let config: String = path_join(h, ".config");
                Ok(path_join(config.as_str(), "termconnect"))
            },
            None => Err("HOME environment variable is not set".to_owned()),
        },
    }
}

/// A configuration file as it was found: not there, there but not in the
/// expected form (with the parser's message), or read.
pub enum FileContents<T> {
    Missing,
    Unparsable(String),
    Parsed(T),
}

pub open spec fn warning_texts(w: Seq<StartupWarning>) -> Seq<Seq<char>> {
    w.map_values(|x: StartupWarning| x.0@)
}

/// The settings in effect, given what was found of `config.toml`: the
/// defaults when it is missing, the defaults and a warning when it cannot
/// be parsed, else what it says.
pub fn load(file: FileContents<SettingsFile>) -> (r: (Settings, Vec<StartupWarning>))
    ensures
        match file {
            FileContents::Missing => is_default_settings(r.0) && r.1@.len() == 0,
            FileContents::Unparsable(e) => is_default_settings(r.0) && warning_texts(r.1@) == seq![
                "failed to parse config.toml: "@ + e@,
            ],
            FileContents::Parsed(f) => settings_read(f, r.0, warning_texts(r.1@)),
        },
{
    match file {
        FileContents::Missing => (Settings::default(), Vec::new()),
        FileContents::Unparsable(e) => {
            let mut message: String = "failed to parse config.toml: ".to_owned();
            message.append(e.as_str());
            let mut warnings: Vec<StartupWarning> = Vec::new();
            warnings.push(StartupWarning(message));
            proof {
                assert(warning_texts(warnings@) =~= seq![message@]);
            }
            (Settings::default(), warnings)
        },
        FileContents::Parsed(f) => {
            let (settings, texts) = settings_from_file(f);
            let warnings: Vec<StartupWarning> = into_warnings(texts);
            (settings, warnings)
        },
    }
}

/// Wraps each message as a warning, in order.
pub fn into_warnings(texts: Vec<String>) -> (r: Vec<StartupWarning>)
    ensures
        warning_texts(r@) == texts@.map_values(|s: String| s@),
{
    let mut r: Vec<StartupWarning> = Vec::new();
    let mut i: usize = 0;
    while i < texts.len()
        invariant
            i <= texts.len(),
            warning_texts(r@) == texts@.take(i as int).map_values(|s: String| s@),
        decreases texts.len() - i,
    {
        let text: String = texts[i].clone();
        let ghost prev = r@;
        r.push(StartupWarning(text));
        proof {
            assert(r@ == prev.push(StartupWarning(text)));
            assert(warning_texts(r@) =~= warning_texts(prev).push(text@));
            assert(texts@.take(i + 1) == texts@.take(i as int).push(texts@[i as int]));
            assert(warning_texts(r@) =~= texts@.take(i + 1).map_values(|s: String| s@));
        }
        i = i + 1;
    }
    proof {
        assert(texts@.take(texts.len() as int) == texts@);
    }
    r
}

} // verus!
