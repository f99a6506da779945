//! The per-theme mapping from well-known sound-event keys to playback
//! specifications.

use vstd::prelude::*;
use vstd::string::StringExecFns;

use crate::text::str_eq;

verus! {

/// The closed enumeration of well-known sound events.
#[derive(Debug, PartialEq, Eq, Structural, Clone, Copy)]
pub enum MappingKey {
    AudioChange,
    Login,
    Logout,
    Message,
    PowerPlug,
    PowerUnplug,
    DialogInfo,
    DialogWarning,
    DialogError,
    ScreenCapture,
    DeviceAdded,
    DeviceRemoved,
    CameraShutter,
    TrashEmpty,
    Complete,
}

/// How many well-known event keys there are.
pub const MAPPING_KEY_COUNT: usize = 15;

/// The position of each key in the closed enumeration.
pub open spec fn key_index(k: MappingKey) -> int {
    match k {
        MappingKey::AudioChange => 0,
        MappingKey::Login => 1,
        MappingKey::Logout => 2,
        MappingKey::Message => 3,
        MappingKey::PowerPlug => 4,
        MappingKey::PowerUnplug => 5,
        MappingKey::DialogInfo => 6,
        MappingKey::DialogWarning => 7,
        MappingKey::DialogError => 8,
        MappingKey::ScreenCapture => 9,
        MappingKey::DeviceAdded => 10,
        MappingKey::DeviceRemoved => 11,
        MappingKey::CameraShutter => 12,
        MappingKey::TrashEmpty => 13,
        MappingKey::Complete => 14,
    }
}

/// The kebab-case event name under which each key is addressed.
pub open spec fn spec_event_name(k: MappingKey) -> Seq<char> {
    match k {
        MappingKey::AudioChange => "audio-change"@,
        MappingKey::Login => "login"@,
        MappingKey::Logout => "logout"@,
        MappingKey::Message => "message"@,
        MappingKey::PowerPlug => "power-plug"@,
        MappingKey::PowerUnplug => "power-unplug"@,
        MappingKey::DialogInfo => "dialog-info"@,
        MappingKey::DialogWarning => "dialog-warning"@,
        MappingKey::DialogError => "dialog-error"@,
        MappingKey::ScreenCapture => "screen-capture"@,
        MappingKey::DeviceAdded => "device-added"@,
        MappingKey::DeviceRemoved => "device-removed"@,
        MappingKey::CameraShutter => "camera-shutter"@,
        MappingKey::TrashEmpty => "trash-empty"@,
        MappingKey::Complete => "complete"@,
    }
}

/// The key, if any, whose event name is `s`.
pub open spec fn spec_key_of(s: Seq<char>) -> Option<MappingKey> {
    if s == spec_event_name(MappingKey::AudioChange) {
        Some(MappingKey::AudioChange)
    } else if s == spec_event_name(MappingKey::Login) {
        Some(MappingKey::Login)
    } else if s == spec_event_name(MappingKey::Logout) {
        Some(MappingKey::Logout)
    } else if s == spec_event_name(MappingKey::Message) {
        Some(MappingKey::Message)
    } else if s == spec_event_name(MappingKey::PowerPlug) {
        Some(MappingKey::PowerPlug)
    } else if s == spec_event_name(MappingKey::PowerUnplug) {
        Some(MappingKey::PowerUnplug)
    } else if s == spec_event_name(MappingKey::DialogInfo) {
        Some(MappingKey::DialogInfo)
    } else if s == spec_event_name(MappingKey::DialogWarning) {
        Some(MappingKey::DialogWarning)
    } else if s == spec_event_name(MappingKey::DialogError) {
        Some(MappingKey::DialogError)
    } else if s == spec_event_name(MappingKey::ScreenCapture) {
        Some(MappingKey::ScreenCapture)
    } else if s == spec_event_name(MappingKey::DeviceAdded) {
        Some(MappingKey::DeviceAdded)
    } else if s == spec_event_name(MappingKey::DeviceRemoved) {
        Some(MappingKey::DeviceRemoved)
    } else if s == spec_event_name(MappingKey::CameraShutter) {
        Some(MappingKey::CameraShutter)
    } else if s == spec_event_name(MappingKey::TrashEmpty) {
        Some(MappingKey::TrashEmpty)
    } else if s == spec_event_name(MappingKey::Complete) {
        Some(MappingKey::Complete)
    } else {
        None
    }
}

/// The conventional sound filename that each key maps to by default.
pub open spec fn spec_default_sound(k: MappingKey) -> Seq<char> {
    match k {
        MappingKey::AudioChange => "audio-volume-change"@,
        MappingKey::Login => "service-login"@,
        MappingKey::Logout => "service-logout"@,
        MappingKey::Message => "message"@,
        MappingKey::PowerPlug => "power-plug"@,
        MappingKey::PowerUnplug => "power-unplug"@,
        MappingKey::DialogInfo => "dialog-information"@,
        MappingKey::DialogWarning => "dialog-warning"@,
        MappingKey::DialogError => "dialog-error"@,
        MappingKey::ScreenCapture => "screen-capture"@,
        MappingKey::DeviceAdded => "device-added"@,
        MappingKey::DeviceRemoved => "device-removed"@,
        MappingKey::CameraShutter => "camera-shutter"@,
        MappingKey::TrashEmpty => "trash-empty"@,
        MappingKey::Complete => "complete"@,
    }
}

impl MappingKey {
    /// Parses an event name into its key, if the name belongs to the closed
    /// enumeration. The match is exact: no case folding or trimming.
    pub fn from_str(s: &str) -> (r: Option<MappingKey>)
        ensures
            r == spec_key_of(s@),
    {
        if str_eq(s, "audio-change") {
            Some(MappingKey::AudioChange)
        } else if str_eq(s, "login") {
            Some(MappingKey::Login)
        } else if str_eq(s, "logout") {
            Some(MappingKey::Logout)
        } else if str_eq(s, "message") {
            Some(MappingKey::Message)
        } else if str_eq(s, "power-plug") {
            Some(MappingKey::PowerPlug)
        } else if str_eq(s, "power-unplug") {
            Some(MappingKey::PowerUnplug)
        } else if str_eq(s, "dialog-info") {
            Some(MappingKey::DialogInfo)
        } else if str_eq(s, "dialog-warning") {
            Some(MappingKey::DialogWarning)
        } else if str_eq(s, "dialog-error") {
            Some(MappingKey::DialogError)
        } else if str_eq(s, "screen-capture") {
            Some(MappingKey::ScreenCapture)
        } else if str_eq(s, "device-added") {
            Some(MappingKey::DeviceAdded)
        } else if str_eq(s, "device-removed") {
            Some(MappingKey::DeviceRemoved)
        } else if str_eq(s, "camera-shutter") {
            Some(MappingKey::CameraShutter)
        } else if str_eq(s, "trash-empty") {
            Some(MappingKey::TrashEmpty)
        } else if str_eq(s, "complete") {
            Some(MappingKey::Complete)
        } else {
            None
        }
    }

    /// The position of this key in the closed enumeration.
    pub fn index(&self) -> (r: usize)
        ensures
            r == key_index(*self),
    {
        match self {
            MappingKey::AudioChange => 0,
            MappingKey::Login => 1,
            MappingKey::Logout => 2,
            MappingKey::Message => 3,
            MappingKey::PowerPlug => 4,
            MappingKey::PowerUnplug => 5,
            MappingKey::DialogInfo => 6,
            MappingKey::DialogWarning => 7,
            MappingKey::DialogError => 8,
            MappingKey::ScreenCapture => 9,
            MappingKey::DeviceAdded => 10,
            MappingKey::DeviceRemoved => 11,
            MappingKey::CameraShutter => 12,
            MappingKey::TrashEmpty => 13,
            MappingKey::Complete => 14,
        }
    }
}

/// The conventional sound filename that `key` maps to in the default mapping.
pub fn get_default_mapping_key_value(key: MappingKey) -> (r: String)
    ensures
        r@ == spec_default_sound(key),
{
    match key {
        MappingKey::AudioChange => String::from_str("audio-volume-change"),
        MappingKey::Login => String::from_str("service-login"),
        MappingKey::Logout => String::from_str("service-logout"),
        MappingKey::Message => String::from_str("message"),
        MappingKey::PowerPlug => String::from_str("power-plug"),
        MappingKey::PowerUnplug => String::from_str("power-unplug"),
        MappingKey::DialogInfo => String::from_str("dialog-information"),
        MappingKey::DialogWarning => String::from_str("dialog-warning"),
        MappingKey::DialogError => String::from_str("dialog-error"),
        MappingKey::ScreenCapture => String::from_str("screen-capture"),
        MappingKey::DeviceAdded => String::from_str("device-added"),
        MappingKey::DeviceRemoved => String::from_str("device-removed"),
        MappingKey::CameraShutter => String::from_str("camera-shutter"),
        MappingKey::TrashEmpty => String::from_str("trash-empty"),
        MappingKey::Complete => String::from_str("complete"),
    }
}

/// What a mapping entry asks to be played: a sound filename, optionally
/// bundled with a playback-duration expression such as `"50%"` or `"2s"`.
#[derive(Debug, PartialEq, Eq)]
pub enum PlaybackSpec {
    /// A bare filename with no duration policy.
    Simple(String),
    /// A filename together with a duration expression.
    WithDuration { filename: String, duration: String },
}

/// The mathematical content of a [`PlaybackSpec`].
pub ghost struct PlaybackSpecView {
    pub filename: Seq<char>,
    pub duration: Option<Seq<char>>,
}

impl View for PlaybackSpec {
    type V = PlaybackSpecView;

    open spec fn view(&self) -> PlaybackSpecView {
        match self {
            PlaybackSpec::Simple(f) => PlaybackSpecView { filename: f@, duration: None },
            PlaybackSpec::WithDuration { filename, duration } => PlaybackSpecView {
                filename: filename@,
                duration: Some(duration@),
            },
        }
    }
}

impl DeepView for PlaybackSpec {
    type V = PlaybackSpecView;

    open spec fn deep_view(&self) -> PlaybackSpecView {
        self.view()
    }
}

/// The literal-filename specification for an event name outside the closed
/// enumeration, or for a key the mapping does not cover.
pub open spec fn literal_spec(name: Seq<char>) -> PlaybackSpecView {
    PlaybackSpecView { filename: name, duration: None }
}

impl Clone for PlaybackSpec {
    fn clone(&self) -> (r: Self)
        ensures
            r@ == self@,
    {
        match self {
            PlaybackSpec::Simple(f) => PlaybackSpec::Simple(f.clone()),
            PlaybackSpec::WithDuration { filename, duration } => PlaybackSpec::WithDuration {
                filename: filename.clone(),
                duration: duration.clone(),
            },
        }
    }
}

impl PlaybackSpec {
    /// The filename this specification asks to look for.
    pub fn filename(&self) -> (r: &String)
        ensures
            r@ == self@.filename,
    {
        match self {
            PlaybackSpec::Simple(f) => f,
            PlaybackSpec::WithDuration { filename, duration: _ } => filename,
        }
    }

    /// The duration expression bundled with this specification, if any.
    pub fn duration(&self) -> (r: Option<&String>)
        ensures
            match r {
                Some(d) => self@.duration == Some(d@),
                None => self@.duration is None,
            },
    {
        match self {
            PlaybackSpec::Simple(_) => None,
            PlaybackSpec::WithDuration { filename: _, duration } => Some(duration),
        }
    }
}

/// A finite mapping from the well-known event keys to playback
/// specifications. Every key has at most one entry.
#[derive(Debug)]
pub struct Mapping {
    entries: Vec<Option<PlaybackSpec>>,
}

impl View for Mapping {
    type V = Seq<Option<PlaybackSpecView>>;

    closed spec fn view(&self) -> Seq<Option<PlaybackSpecView>> {
        self.entries.deep_view()
    }
}

impl Mapping {
    #[verifier::type_invariant]
    spec fn wf(self) -> bool {
        self.entries.len() == MAPPING_KEY_COUNT
    }

    /// The entry stored for `k`, if any.
    pub open spec fn spec_get(self, k: MappingKey) -> Option<PlaybackSpecView> {
        if key_index(k) < self@.len() {
            self@[key_index(k)]
        } else {
            None
        }
    }

    /// An empty mapping: no key has an entry.
    pub fn new() -> (r: Self)
        ensures
            forall|k: MappingKey| r.spec_get(k) is None,
    {
        let mut entries: Vec<Option<PlaybackSpec>> = Vec::new();
        let mut i: usize = 0;
        while i < MAPPING_KEY_COUNT
            invariant
                i <= MAPPING_KEY_COUNT,
                entries.len() == i,
                forall|j: int| 0 <= j < i ==> entries[j] is None,
            decreases MAPPING_KEY_COUNT - i,
        {
            entries.push(None);
            i = i + 1;
        }
        let r = Mapping { entries };
        proof {
            assert(forall|k: MappingKey| 0 <= #[trigger] key_index(k) < MAPPING_KEY_COUNT);
        }
        r
    }

    /// The entry stored for `key`, if any.
    pub fn get(&self, key: MappingKey) -> (r: Option<&PlaybackSpec>)
        ensures
            match r {
                Some(s) => self.spec_get(key) == Some(s@),
                None => self.spec_get(key) is None,
            },
    {
        proof {
            use_type_invariant(self);
        }
        let i = key.index();
        match &self.entries[i] {
            Some(s) => Some(s),
            None => None,
        }
    }

    /// Stores `entry` for `key`, replacing any previous entry for that key
    /// and leaving every other key's entry unchanged.
    pub fn set(&mut self, key: MappingKey, entry: PlaybackSpec)
        ensures
            final(self).spec_get(key) == Some(entry@),
            forall|k2: MappingKey| k2 != key ==> final(self).spec_get(k2) == old(self).spec_get(k2),
    {
        proof {
            use_type_invariant(&*self);
        }
        let i = key.index();
        let mut entries: Vec<Option<PlaybackSpec>> = Vec::new();
        let mut j: usize = 0;
        while j < self.entries.len()
            invariant
                j <= self.entries.len(),
                entries.len() == j,
                self.entries.len() == MAPPING_KEY_COUNT,
                i == key_index(key),
                forall|l: int|
                    0 <= l < j && l != i ==> (#[trigger] entries@[l]).deep_view()
                        == self.entries@[l].deep_view(),
                forall|l: int| 0 <= l < j && l == i ==> (#[trigger] entries@[l]).deep_view()
                    == Some(entry@),
            decreases self.entries.len() - j,
        {
            if j == i {
                entries.push(Some(entry.clone()));
            } else {
                let e: Option<PlaybackSpec> = match &self.entries[j] {
                    Some(s) => Some(s.clone()),
                    None => None,
                };
                entries.push(e);
            }
            j = j + 1;
        }
        self.entries = entries;
        proof {
            assert(forall|l: int|
                0 <= l < MAPPING_KEY_COUNT ==> #[trigger] self.entries.deep_view()[l]
                    == self.entries@[l].deep_view());
            assert(forall|l: int|
                0 <= l < MAPPING_KEY_COUNT ==> #[trigger] old(self).entries.deep_view()[l]
                    == old(self).entries@[l].deep_view());
        }
    }
}

impl Default for Mapping {
    /// The default mapping: every well-known key maps to its conventional
    /// filename, with no duration policy.
    fn default() -> (r: Self)
        ensures
            forall|k: MappingKey| r.spec_get(k) == Some(literal_spec(spec_default_sound(k))),
    {
        let mut m = Mapping::new();
        m.set(MappingKey::AudioChange, PlaybackSpec::Simple(get_default_mapping_key_value(MappingKey::AudioChange)));
        m.set(MappingKey::Login, PlaybackSpec::Simple(get_default_mapping_key_value(MappingKey::Login)));
        m.set(MappingKey::Logout, PlaybackSpec::Simple(get_default_mapping_key_value(MappingKey::Logout)));
        m.set(MappingKey::Message, PlaybackSpec::Simple(get_default_mapping_key_value(MappingKey::Message)));
        m.set(MappingKey::PowerPlug, PlaybackSpec::Simple(get_default_mapping_key_value(MappingKey::PowerPlug)));
        m.set(MappingKey::PowerUnplug, PlaybackSpec::Simple(get_default_mapping_key_value(MappingKey::PowerUnplug)));
        m.set(MappingKey::DialogInfo, PlaybackSpec::Simple(get_default_mapping_key_value(MappingKey::DialogInfo)));
        m.set(MappingKey::DialogWarning, PlaybackSpec::Simple(get_default_mapping_key_value(MappingKey::DialogWarning)));
        m.set(MappingKey::DialogError, PlaybackSpec::Simple(get_default_mapping_key_value(MappingKey::DialogError)));
        m.set(MappingKey::ScreenCapture, PlaybackSpec::Simple(get_default_mapping_key_value(MappingKey::ScreenCapture)));
        m.set(MappingKey::DeviceAdded, PlaybackSpec::Simple(get_default_mapping_key_value(MappingKey::DeviceAdded)));
        m.set(MappingKey::DeviceRemoved, PlaybackSpec::Simple(get_default_mapping_key_value(MappingKey::DeviceRemoved)));
        m.set(MappingKey::CameraShutter, PlaybackSpec::Simple(get_default_mapping_key_value(MappingKey::CameraShutter)));
        m.set(MappingKey::TrashEmpty, PlaybackSpec::Simple(get_default_mapping_key_value(MappingKey::TrashEmpty)));
        m.set(MappingKey::Complete, PlaybackSpec::Simple(get_default_mapping_key_value(MappingKey::Complete)));
        m
    }
}

impl Clone for Mapping {
    fn clone(&self) -> (r: Self)
        ensures
            r@ == self@,
    {
        proof {
            use_type_invariant(self);
        }
        let mut entries: Vec<Option<PlaybackSpec>> = Vec::new();
        let mut i: usize = 0;
        while i < self.entries.len()
            invariant
                i <= self.entries.len(),
                entries.len() == i,
                self.entries.len() == MAPPING_KEY_COUNT,
                forall|j: int|
                    0 <= j < i ==> (#[trigger] entries@[j]).deep_view()
                        == self.entries@[j].deep_view(),
            decreases self.entries.len() - i,
        {
            let e: Option<PlaybackSpec> = match &self.entries[i] {
                Some(s) => Some(s.clone()),
                None => None,
            };
            entries.push(e);
            i = i + 1;
        }
        let r = Mapping { entries };
        proof {
            assert(forall|j: int|
                0 <= j < MAPPING_KEY_COUNT ==> #[trigger] r.entries.deep_view()[j]
                    == r.entries@[j].deep_view());
            assert(forall|j: int|
                0 <= j < MAPPING_KEY_COUNT ==> #[trigger] self.entries.deep_view()[j]
                    == self.entries@[j].deep_view());
            assert(r@ =~= self@);
        }
        r
    }
}

} // verus!
