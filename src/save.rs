use vstd::prelude::*;
use vstd::string::StrSliceExecFns;
use vstd::string::StringExecFns;

verus! {

/// The schema version written into, and expected from, every save file.
pub const SAVE_SCHEMA_VERSION: u32 = 1;

/// The largest volume, in thousandths.
pub const MAX_VOLUME: i32 = 1000;

/// Lifetime progress of the player.
#[derive(Debug, Clone, Copy, PartialEq, Eq, Structural)]
pub struct SaveProgress {
    pub best_score: u32,
    pub best_survival_sec: u32,
    pub total_play_count: u32,
    pub total_clear_count: u32,
}

impl Default for SaveProgress {
    fn default() -> (r: SaveProgress)
        ensures
            r == (SaveProgress {
                best_score: 0,
                best_survival_sec: 0,
                total_play_count: 0,
                total_clear_count: 0,
            }),
    {
        SaveProgress { best_score: 0, best_survival_sec: 0, total_play_count: 0, total_clear_count: 0 }
    }
}

/// Audio and display settings; volumes are in thousandths.
#[derive(Debug, Clone, Copy, PartialEq, Eq, Structural)]
pub struct SaveSettings {
    pub master_volume: i32,
    pub bgm_volume: i32,
    pub se_volume: i32,
    pub fullscreen: bool,
}

pub open spec fn clamp_volume(v: int) -> int {
    if v < 0 {
        0
    } else if v > MAX_VOLUME {
        MAX_VOLUME as int
    } else {
        v
    }
}

/// Clamps a volume into the range from zero to one.
pub fn clamp_volume_exec(v: i32) -> (r: i32)
    ensures
        r == clamp_volume(v as int),
{
    if v < 0 {
        0
    } else if v > MAX_VOLUME {
        MAX_VOLUME
    } else {
        v
    }
}

impl SaveSettings {
    pub open spec fn spec_default() -> SaveSettings {
        SaveSettings { master_volume: 1000, bgm_volume: 800, se_volume: 800, fullscreen: false }
    }

    pub open spec fn in_range(self) -> bool {
        &&& 0 <= self.master_volume <= MAX_VOLUME
        &&& 0 <= self.bgm_volume <= MAX_VOLUME
        &&& 0 <= self.se_volume <= MAX_VOLUME
    }

    pub open spec fn spec_sanitized(self) -> SaveSettings {
        SaveSettings {
            master_volume: clamp_volume(self.master_volume as int) as i32,
            bgm_volume: clamp_volume(self.bgm_volume as int) as i32,
            se_volume: clamp_volume(self.se_volume as int) as i32,
            fullscreen: self.fullscreen,
        }
    }

    /// The settings with every volume clamped into range.
    pub fn sanitized(self) -> (r: SaveSettings)
        ensures
            r == self.spec_sanitized(),
            r.in_range(),
            self.in_range() ==> r == self,
    {
        SaveSettings {
            master_volume: clamp_volume_exec(self.master_volume),
            bgm_volume: clamp_volume_exec(self.bgm_volume),
            se_volume: clamp_volume_exec(self.se_volume),
            fullscreen: self.fullscreen,
        }
    }
}

impl Default for SaveSettings {
    fn default() -> (r: SaveSettings)
        ensures
            r == SaveSettings::spec_default(),
    {
        SaveSettings { master_volume: 1000, bgm_volume: 800, se_volume: 800, fullscreen: false }
    }
}

/// Everything that is persisted.
#[derive(Debug, Clone, Copy, PartialEq, Eq, Structural)]
pub struct SaveData {
    pub progress: SaveProgress,
    pub settings: SaveSettings,
}

impl SaveData {
    pub open spec fn spec_default() -> SaveData {
        SaveData {
            progress: SaveProgress {
                best_score: 0,
                best_survival_sec: 0,
                total_play_count: 0,
                total_clear_count: 0,
            },
            settings: SaveSettings::spec_default(),
        }
    }

    /// The data with its settings clamped into range.
    pub fn sanitized(self) -> (r: SaveData)
        ensures
            r == (SaveData { progress: self.progress, settings: self.settings.spec_sanitized() }),
            r.settings.in_range(),
    {
        SaveData { progress: self.progress, settings: self.settings.sanitized() }
    }
}

impl Default for SaveData {
    fn default() -> (r: SaveData)
        ensures
            r == SaveData::spec_default(),
    {
        SaveData { progress: SaveProgress::default(), settings: SaveSettings::default() }
    }
}

/// The versioned wrapper a payload is persisted in.
#[derive(Debug, PartialEq)]
pub struct SaveEnvelope<T> {
    pub save_version: u32,
    pub payload: T,
}

impl<T> SaveEnvelope<T> {
    /// Wraps the payload under the current schema version.
    pub fn new(payload: T) -> (r: SaveEnvelope<T>)
        ensures
            r.save_version == SAVE_SCHEMA_VERSION,
            r.payload == payload,
    {
        SaveEnvelope { save_version: SAVE_SCHEMA_VERSION, payload }
    }
}

/// Why a load failed.
#[derive(Debug)]
pub enum SaveError {
    Io { message: String },
    Serde { message: String },
    VersionMismatch { found: u32, expected: u32 },
}

/// The result of a successful load.
#[derive(Debug)]
pub enum LoadState<T> {
    Loaded(T),
    Defaulted { data: T, backup_path: Option<String> },
}

/// What reading the save file gave.
#[derive(Debug)]
pub enum SaveRead<T> {
    /// No file at the path.
    Missing,
    /// The file's bytes are not a save envelope.
    Malformed,
    /// The file holds an envelope.
    Envelope(SaveEnvelope<T>),
}

/// Whether the last component of the path names a file: it is not empty,
/// `.` or `..`.
pub open spec fn names_file(p: Seq<char>) -> bool {
    let n = p.len();
    &&& n > 0
    &&& p[n - 1] != '/'
    &&& !(p[n - 1] == '.' && (n == 1 || p[n - 2] == '/'))
    &&& !(n >= 2 && p[n - 1] == '.' && p[n - 2] == '.' && (n == 2 || p[n - 3] == '/'))
}

/// The sibling of a file path with `suffix` added to its name; a path that
/// names no file is returned as it is.
pub fn sibling_path(path: &str, suffix: &str) -> (r: String)
    ensures
        names_file(path@) ==> r@ == path@ + suffix@,
        !names_file(path@) ==> r@ == path@,
{
    let n = path.unicode_len();
    let mut names = n > 0;
    if names {
        let last = path.get_char(n - 1);
        if last == '/' {
            names = false;
        } else if last == '.' {
            if n == 1 || path.get_char(n - 2) == '/' {
                names = false;
            } else if path.get_char(n - 2) == '.' && (n == 2 || path.get_char(n - 3) == '/') {
                names = false;
            }
        }
    }
    let mut r = String::from_str(path);
    if names {
        r.append(suffix);
    }
    r
}

/// Where a save is written before it is renamed over the destination.
pub fn temp_path_for(path: &str) -> (r: String)
    ensures
        names_file(path@) ==> r@ == path@ + ".tmp"@,
        !names_file(path@) ==> r@ == path@,
{
    sibling_path(path, ".tmp")
}

/// Where an unreadable save file is moved aside.
pub fn backup_path_for(path: &str) -> (r: String)
    ensures
        names_file(path@) ==> r@ == path@ + ".bak"@,
        !names_file(path@) ==> r@ == path@,
{
    sibling_path(path, ".bak")
}

/// Decides what a load returns from what reading the file gave: a missing
/// file gives the defaults with no backup; an unreadable one gives the
/// defaults and the path it is to be moved to; an envelope of another
/// schema version is an error; otherwise the payload is loaded.
pub fn decide_load<T>(path: &str, read: SaveRead<T>, default_data: T) -> (r: Result<
    LoadState<T>,
    SaveError,
>)
    ensures
        match read {
            SaveRead::Missing => r matches Ok(LoadState::Defaulted { data, backup_path: None })
                && data == default_data,
            SaveRead::Malformed => r matches Ok(
                LoadState::Defaulted { data, backup_path: Some(b) },
            ) && data == default_data && (names_file(path@) ==> b@ == path@ + ".bak"@),
            SaveRead::Envelope(e) => if e.save_version == SAVE_SCHEMA_VERSION {
                r matches Ok(LoadState::Loaded(p)) && p == e.payload
            } else {
                r matches Err(SaveError::VersionMismatch { found, expected }) && found
                    == e.save_version && expected == SAVE_SCHEMA_VERSION
            },
        },
{
    match read {
        SaveRead::Missing => Ok(LoadState::Defaulted { data: default_data, backup_path: None }),
        SaveRead::Malformed => Ok(
            LoadState::Defaulted { data: default_data, backup_path: Some(backup_path_for(path)) },
        ),
        SaveRead::Envelope(envelope) => {
            if envelope.save_version != SAVE_SCHEMA_VERSION {
                Err(
                    SaveError::VersionMismatch {
                        found: envelope.save_version,
                        expected: SAVE_SCHEMA_VERSION,
                    },
                )
            } else {
                Ok(LoadState::Loaded(envelope.payload))
            }
        },
    }
}

/// The data a game starts with from a load: a loaded or defaulted payload,
/// sanitized, or the defaults on any error.
pub fn startup_data(loaded: Result<LoadState<SaveData>, SaveError>) -> (r: SaveData)
    ensures
        match loaded {
            Ok(LoadState::Loaded(d)) => r == d.sanitized_spec(),
            Ok(LoadState::Defaulted { data, .. }) => r == data.sanitized_spec(),
            Err(_) => r == SaveData::spec_default(),
        },
        r.settings.in_range(),
{
    match loaded {
        Ok(LoadState::Loaded(d)) => d.sanitized(),
        Ok(LoadState::Defaulted { data, .. }) => data.sanitized(),
        Err(_) => SaveData::default(),
    }
}

impl SaveData {
    pub open spec fn sanitized_spec(self) -> SaveData {
        SaveData { progress: self.progress, settings: self.settings.spec_sanitized() }
    }
}

/// Data whose settings are already in range comes back from a reload
/// unchanged: sanitizing it is the identity.
pub proof fn lemma_valid_payload_survives_reload(d: SaveData)
    requires
        d.settings.in_range(),
    ensures
        d.sanitized_spec() == d,
{
}

} // verus!
