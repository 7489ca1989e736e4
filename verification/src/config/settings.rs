//! User settings: how panels start out, key binding overrides, and how
//! many transfers run at once; read leniently, with a warning for each
//! value that cannot be used.
use vstd::prelude::*;

use crate::text::{decimal, decimal_string, str_eq};
use crate::tui::sort::{SortKey, SortOrder, SortSpec};

verus! {

#[derive(Debug, Clone, PartialEq, Eq)]
pub struct PanelSettings {
    pub show_hidden: bool,
    pub sort_key: String,
    pub sort_order: String,
}

impl Default for PanelSettings {
    fn default() -> (r: PanelSettings)
        ensures
            !r.show_hidden,
            r.sort_key@ == "name"@,
            r.sort_order@ == "ascending"@,
    {
        PanelSettings { show_hidden: false, sort_key: "name".to_owned(), sort_order: "ascending".to_owned() }
    }
}

/// No more transfers than this run at once.
pub const MAX_PARALLEL_CAP: usize = 16;

#[derive(Debug, Clone, PartialEq, Eq)]
pub struct TransferSettings {
    pub max_parallel: usize,
}

impl Default for TransferSettings {
    fn default() -> (r: TransferSettings)
        ensures
            r.max_parallel == 4,
    {
        TransferSettings { max_parallel: 4 }
    }
}

/// The settings in effect. `keys` holds the key binding overrides as
/// (action name, key) pairs, in the order the file gave them.
#[derive(Debug, Clone, PartialEq, Eq)]
pub struct Settings {
    pub panel: PanelSettings,
    pub keys: Vec<(String, String)>,
    pub transfers: TransferSettings,
}

impl Default for Settings {
    fn default() -> (r: Settings)
        ensures
            !r.panel.show_hidden,
            r.panel.sort_key@ == "name"@,
            r.panel.sort_order@ == "ascending"@,
            r.keys@.len() == 0,
            r.transfers.max_parallel == 4,
    {
        Settings { panel: PanelSettings::default(), keys: Vec::new(), transfers: TransferSettings::default() }
    }
}

/// The settings file as read, every value optional.
pub struct SettingsFile {
    pub panel: PanelSettingsFile,
    pub keys: Vec<(String, String)>,
    pub transfers: TransferSettingsFile,
}

pub struct TransferSettingsFile {
    pub max_parallel: Option<i64>,
}

pub struct PanelSettingsFile {
    pub show_hidden: Option<bool>,
    pub sort_key: Option<String>,
    pub sort_order: Option<String>,
}

pub open spec fn sort_key_warning(other: Seq<char>) -> Seq<char> {
    "unknown panel.sort_key \""@ + other + "\", using \"name\""@
}

pub open spec fn sort_order_warning(other: Seq<char>) -> Seq<char> {
    "unknown panel.sort_order \""@ + other + "\", using \"ascending\""@
}

pub open spec fn capped_warning() -> Seq<char> {
    "transfers.max_parallel is capped at "@ + decimal(MAX_PARALLEL_CAP as nat) + ", using "@ + decimal(
        MAX_PARALLEL_CAP as nat,
    )
}

pub open spec fn too_small_warning() -> Seq<char> {
    "transfers.max_parallel must be at least 1, using 1"@
}

/// The sort key in effect, and the warning when the file's is unknown.
pub open spec fn sort_key_setting(v: Option<Seq<char>>) -> (Seq<char>, Option<Seq<char>>) {
    match v {
        Some(s) => if s == "name"@ || s == "size"@ {
            (s, None)
        } else {
            ("name"@, Some(sort_key_warning(s)))
        },
        None => ("name"@, None),
    }
}

/// The sort order in effect, and the warning when the file's is unknown.
pub open spec fn sort_order_setting(v: Option<Seq<char>>) -> (Seq<char>, Option<Seq<char>>) {
    match v {
        Some(s) => if s == "ascending"@ || s == "descending"@ {
            (s, None)
        } else {
            ("ascending"@, Some(sort_order_warning(s)))
        },
        None => ("ascending"@, None),
    }
}

/// How many transfers may run at once: the file's value kept within
/// 1 to `MAX_PARALLEL_CAP`, or 4; and the warning when it had to be moved.
pub open spec fn max_parallel_setting(v: Option<i64>) -> (usize, Option<Seq<char>>) {
    match v {
        Some(n) => if n > MAX_PARALLEL_CAP as i64 {
            (MAX_PARALLEL_CAP, Some(capped_warning()))
        } else if n >= 1 {
            (n as usize, None)
        } else {
            (1, Some(too_small_warning()))
        },
        None => (4, None),
    }
}

/// A warning as a list of none or one.
pub open spec fn listed(w: Option<Seq<char>>) -> Seq<Seq<char>> {
    match w {
        Some(m) => seq![m],
        None => Seq::empty(),
    }
}

pub open spec fn opt_str(o: Option<String>) -> Option<Seq<char>> {
    match o {
        Some(s) => Some(s@),
        None => None,
    }
}

fn push_warning(warnings: &mut Vec<String>, w: Option<String>)
    ensures
        final(warnings)@.map_values(|s: String| s@) == old(warnings)@.map_values(|s: String| s@) + listed(opt_str(w)),
{
    let ghost prev = warnings@;
    match w {
        Some(m) => {
            let ghost mv = m@;
            warnings.push(m);
            proof {
                assert(warnings@.map_values(|s: String| s@) =~= prev.map_values(|s: String| s@) + seq![mv]);
            }
        },
        None => {
            proof {
                assert(warnings@.map_values(|s: String| s@) =~= prev.map_values(|s: String| s@) + Seq::<Seq<char>>::empty());
            }
        },
    }
}

fn sort_key_from(v: Option<String>) -> (r: (String, Option<String>))
    ensures
        (r.0@, opt_str(r.1)) == sort_key_setting(opt_str(v)),
{
    match v {
        Some(value) => {
            if str_eq(value.as_str(), "name") || str_eq(value.as_str(), "size") {
                (value, None)
            } else {
                let mut w: String = "unknown panel.sort_key \"".to_owned();
                w.append(value.as_str());
                w.append("\", using \"name\"");
                ("name".to_owned(), Some(w))
            }
        },
        None => ("name".to_owned(), None),
    }
}

fn sort_order_from(v: Option<String>) -> (r: (String, Option<String>))
    ensures
        (r.0@, opt_str(r.1)) == sort_order_setting(opt_str(v)),
{
    match v {
        Some(value) => {
            if str_eq(value.as_str(), "ascending") || str_eq(value.as_str(), "descending") {
                (value, None)
            } else {
                let mut w: String = "unknown panel.sort_order \"".to_owned();
                w.append(value.as_str());
                w.append("\", using \"ascending\"");
                ("ascending".to_owned(), Some(w))
            }
        },
        None => ("ascending".to_owned(), None),
    }
}

fn max_parallel_from(v: Option<i64>) -> (r: (usize, Option<String>))
    ensures
        (r.0, opt_str(r.1)) == max_parallel_setting(v),
{
    match v {
        Some(value) => {
            if value > 16i64 {
                let cap: String = decimal_string(16u64);
                let mut w: String = "transfers.max_parallel is capped at ".to_owned();
                w.append(cap.as_str());
                w.append(", using ");
                w.append(cap.as_str());
                (MAX_PARALLEL_CAP, Some(w))
            } else if value >= 1 {
                (value as usize, None)
            } else {
                (1, Some("transfers.max_parallel must be at least 1, using 1".to_owned()))
            }
        },
        None => (4, None),
    }
}

/// What `settings_from_file` makes of `file`: the settings and the
/// warnings, in the order of the values they are about.
pub open spec fn settings_read(file: SettingsFile, s: Settings, warnings: Seq<Seq<char>>) -> bool {
    &&& s.panel.show_hidden == match file.panel.show_hidden {
        Some(b) => b,
        None => false,
    }
    &&& s.panel.sort_key@ == sort_key_setting(opt_str(file.panel.sort_key)).0
    &&& s.panel.sort_order@ == sort_order_setting(opt_str(file.panel.sort_order)).0
    &&& s.transfers.max_parallel == max_parallel_setting(file.transfers.max_parallel).0
    &&& s.keys == file.keys
    &&& warnings == listed(sort_key_setting(opt_str(file.panel.sort_key)).1) + listed(
        sort_order_setting(opt_str(file.panel.sort_order)).1,
    ) + listed(max_parallel_setting(file.transfers.max_parallel).1)
}

/// The settings used when there is no settings file.
pub open spec fn is_default_settings(s: Settings) -> bool {
    &&& !s.panel.show_hidden
    &&& s.panel.sort_key@ == "name"@
    &&& s.panel.sort_order@ == "ascending"@
    &&& s.keys@.len() == 0
    &&& s.transfers.max_parallel == 4
}

/// The settings a file gives, with a warning for each value replaced: an
/// unknown sort key or order falls back to the default, and the number of
/// parallel transfers is kept within 1 to `MAX_PARALLEL_CAP`.
pub fn settings_from_file(file: SettingsFile) -> (r: (Settings, Vec<String>))
    ensures
        settings_read(file, r.0, r.1@.map_values(|s: String| s@)),
{
    let ghost w0 = sort_key_setting(opt_str(file.panel.sort_key)).1;
    let ghost w1 = sort_order_setting(opt_str(file.panel.sort_order)).1;
    let ghost w2 = max_parallel_setting(file.transfers.max_parallel).1;
    let mut warnings: Vec<String> = Vec::new();
    let show_hidden: bool = match file.panel.show_hidden {
        Some(b) => b,
        None => false,
    };
    let (sort_key, key_warning) = sort_key_from(file.panel.sort_key);
    push_warning(&mut warnings, key_warning);
    let (sort_order, order_warning) = sort_order_from(file.panel.sort_order);
    push_warning(&mut warnings, order_warning);
    let (max_parallel, parallel_warning) = max_parallel_from(file.transfers.max_parallel);
    push_warning(&mut warnings, parallel_warning);
    proof {
        assert(Seq::<String>::empty().map_values(|s: String| s@) =~= Seq::<Seq<char>>::empty());
        assert(Seq::<Seq<char>>::empty() + listed(w0) =~= listed(w0));
    }
    (
        Settings {
            panel: PanelSettings { show_hidden, sort_key, sort_order },
            keys: file.keys,
            transfers: TransferSettings { max_parallel },
        },
        warnings,
    )
}

/// The sort a panel starts with: by size when the key says `size`,
/// descending when the order says `descending`, otherwise by name and
/// ascending.
pub open spec fn sort_spec_of(key: Seq<char>, order: Seq<char>) -> SortSpec {
    SortSpec {
        key: if key == "size"@ {
            SortKey::Size
        } else {
            SortKey::Name
        },
        order: if order == "descending"@ {
            SortOrder::Descending
        } else {
            SortOrder::Ascending
        },
    }
}

pub fn parse_sort_spec(panel: &PanelSettings) -> (r: SortSpec)
    ensures
        r == sort_spec_of(panel.sort_key@, panel.sort_order@),
{
    let key: SortKey = if str_eq(panel.sort_key.as_str(), "size") {
        SortKey::Size
    } else {
        SortKey::Name
    };
    let order: SortOrder = if str_eq(panel.sort_order.as_str(), "descending") {
        SortOrder::Descending
    } else {
        SortOrder::Ascending
    };
    SortSpec { key, order }
}

} // verus!
