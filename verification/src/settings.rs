//! Application settings: their defaults, the outcome of loading them, and
//! the bounds on the record limit.
use vstd::prelude::*;

verus! {

/// User settings.
#[derive(Clone)]
pub struct Settings {
    /// Folder where saved records are written.
    pub save_path: String,
    /// Most records kept before the oldest unpinned ones are trimmed.
    pub max_records: u32,
    /// Remove unpinned records when the application exits.
    pub clear_on_shutdown: bool,
    /// Start with the system.
    pub autostart: bool,
    /// Global shortcut that shows the clipboard panel, e.g. `Alt+V`.
    pub hotkey: String,
}

/// Folder name appended to the user's profile folder for saved records.
pub open spec fn documents_suffix() -> Seq<char> {
    seq!['\\', 'D', 'o', 'c', 'u', 'm', 'e', 'n', 't', 's', '\\', 'C', 'l', 'i', 'p', 'N', 'e', 's', 't']
}

/// The default save folder: `<profile>\Documents\ClipNest` when the user's
/// profile folder is known, else `ClipNest`.
pub open spec fn default_save_path_for(user_profile: Option<Seq<char>>) -> Seq<char> {
    match user_profile {
        Some(up) => up + documents_suffix(),
        None => seq!['C', 'l', 'i', 'p', 'N', 'e', 's', 't'],
    }
}

/// The default record limit.
pub const DEFAULT_MAX_RECORDS: u32 = 200;

/// The smallest record limit that can be set.
pub const MIN_MAX_RECORDS: u32 = 100;

/// The largest record limit that can be set.
pub const MAX_MAX_RECORDS: u32 = 300;

/// The default save folder for the given profile folder (the value of
/// `USERPROFILE`, when set).
pub fn default_save_path(user_profile: Option<&str>) -> (r: String)
    ensures
        r@ == default_save_path_for(
            match user_profile {
                Some(u) => Some(u@),
                None => None,
            },
        ),
{
    match user_profile {
        Some(up) => {
            let mut s = String::from_str(up);
            s.append("\\Documents\\ClipNest");
            proof {
                reveal_strlit("\\Documents\\ClipNest");
                assert("\\Documents\\ClipNest"@ =~= documents_suffix());
            }
            s
        },
        None => {
            let s = String::from_str("ClipNest");
            proof {
                reveal_strlit("ClipNest");
                assert(s@ =~= seq!['C', 'l', 'i', 'p', 'N', 'e', 's', 't']);
            }
            s
        },
    }
}

/// The characters of the default hotkey, `Alt+V`.
pub open spec fn default_hotkey() -> Seq<char> {
    seq!['A', 'l', 't', '+', 'V']
}

impl Settings {
    /// The default settings: the default save folder, 200 records, no
    /// clearing on exit, start with the system, hotkey `Alt+V`.
    pub fn default_for(user_profile: Option<&str>) -> (r: Settings)
        ensures
            r.save_path@ == default_save_path_for(
                match user_profile {
                    Some(u) => Some(u@),
                    None => None,
                },
            ),
            r.max_records == DEFAULT_MAX_RECORDS,
            !r.clear_on_shutdown,
            r.autostart,
            r.hotkey@ == default_hotkey(),
    {
        let hotkey = String::from_str("Alt+V");
        proof {
            reveal_strlit("Alt+V");
            assert(hotkey@ =~= default_hotkey());
        }
        Settings {
            save_path: default_save_path(user_profile),
            max_records: DEFAULT_MAX_RECORDS,
            clear_on_shutdown: false,
            autostart: true,
            hotkey,
        }
    }
}

/// The settings in effect after reading the settings file: the parsed
/// settings when the file held valid settings, else the defaults. The flag
/// tells whether the defaults were chosen, in which case the caller creates
/// the save folder and writes the defaults out.
pub fn load(parsed: Option<Settings>, user_profile: Option<&str>) -> (r: (Settings, bool))
    ensures
        parsed matches Some(s) ==> r.0 == s && !r.1,
        parsed is None ==> r.1 && r.0.save_path@ == default_save_path_for(
            match user_profile {
                Some(u) => Some(u@),
                None => None,
            },
        ) && r.0.max_records == DEFAULT_MAX_RECORDS && !r.0.clear_on_shutdown && r.0.autostart
            && r.0.hotkey@ == default_hotkey(),
{
    match parsed {
        Some(s) => (s, false),
        None => (Settings::default_for(user_profile), true),
    }
}

/// A requested record limit held within 100..=300.
pub open spec fn clamped_max(n: u32) -> u32 {
    if n < MIN_MAX_RECORDS {
        MIN_MAX_RECORDS
    } else if n > MAX_MAX_RECORDS {
        MAX_MAX_RECORDS
    } else {
        n
    }
}

/// Holds a requested record limit within 100..=300.
pub fn clamp_max_records(n: u32) -> (r: u32)
    ensures
        r == clamped_max(n),
        MIN_MAX_RECORDS <= r <= MAX_MAX_RECORDS,
{
    if n < MIN_MAX_RECORDS {
        MIN_MAX_RECORDS
    } else if n > MAX_MAX_RECORDS {
        MAX_MAX_RECORDS
    } else {
        n
    }
}

} // verus!
