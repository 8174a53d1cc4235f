//! The user's choices about what is kept and for how long.

use vstd::prelude::*;

verus! {

/// The largest history size that can be asked for.
pub const MAX_ENTRIES_CEILING: u32 = 500;

/// How large images are drawn in the list.
#[derive(Clone, Copy, Debug, PartialEq, Eq, Structural)]
pub enum ImageSize {
    Small,
    Medium,
    Large,
}

impl ImageSize {
    /// Every size, smallest first.
    pub const ALL: [Self; 3] = [Self::Small, Self::Medium, Self::Large];
}

impl Default for ImageSize {
    fn default() -> (r: Self)
        ensures
            r == ImageSize::Small,
    {
        ImageSize::Small
    }
}

/// The user's settings.
#[derive(Clone, Copy, Debug, PartialEq, Eq, Structural)]
pub struct Settings {
    pub max_entries: u32,
    pub max_age_days: Option<u32>,
    pub capture_images: bool,
    pub image_size: ImageSize,
    pub private_mode: bool,
    pub respect_password_hint: bool,
    pub paste_on_use: bool,
}

/// The settings of a fresh install.
pub open spec fn default_settings() -> Settings {
    Settings {
        max_entries: 100,
        max_age_days: Some(30),
        capture_images: true,
        image_size: ImageSize::Small,
        private_mode: false,
        respect_password_hint: true,
        paste_on_use: false,
    }
}

impl Default for Settings {
    fn default() -> (r: Self)
        ensures
            r == default_settings(),
    {
        Self {
            max_entries: 100,
            max_age_days: Some(30),
            capture_images: true,
            image_size: ImageSize::Small,
            private_mode: false,
            respect_password_hint: true,
            paste_on_use: false,
        }
    }
}

/// Settings with values out of range pulled back.
pub open spec fn sanitised_spec(s: Settings) -> Settings {
    Settings {
        max_entries: if s.max_entries < 1 {
            1
        } else if s.max_entries > MAX_ENTRIES_CEILING {
            MAX_ENTRIES_CEILING
        } else {
            s.max_entries
        },
        max_age_days: match s.max_age_days {
            Some(days) => if days > 0 {
                Some(days)
            } else {
                None
            },
            None => None,
        },
        ..s
    }
}

/// Whether the settings are within range: a history of 1 to
/// `MAX_ENTRIES_CEILING` entries and, if any, an age limit of at least a day.
pub open spec fn in_range(s: Settings) -> bool {
    &&& 1 <= s.max_entries <= MAX_ENTRIES_CEILING
    &&& match s.max_age_days {
        Some(days) => days > 0,
        None => true,
    }
}

impl Settings {
    /// These settings with the history size clamped to
    /// 1..=`MAX_ENTRIES_CEILING` and an age limit of zero days turned off.
    pub fn sanitised(self) -> (r: Self)
        ensures
            r == sanitised_spec(self),
            in_range(r),
    {
        let mut s = self;
        if s.max_entries < 1 {
            s.max_entries = 1;
        } else if s.max_entries > MAX_ENTRIES_CEILING {
            s.max_entries = MAX_ENTRIES_CEILING;
        }
        s.max_age_days = match s.max_age_days {
            Some(days) => if days > 0 {
                Some(days)
            } else {
                None
            },
            None => None,
        };
        s
    }
}

/// Sanitising settings already in range changes nothing, so sanitising
/// twice is sanitising once.
pub proof fn sanitising_is_idempotent(s: Settings)
    ensures
        in_range(s) ==> sanitised_spec(s) == s,
        sanitised_spec(sanitised_spec(s)) == sanitised_spec(s),
{
}

/// Sanitising changes only the history size and the age limit.
pub proof fn sanitising_keeps_the_rest(s: Settings)
    ensures
        sanitised_spec(s).capture_images == s.capture_images,
        sanitised_spec(s).image_size == s.image_size,
        sanitised_spec(s).private_mode == s.private_mode,
        sanitised_spec(s).respect_password_hint == s.respect_password_hint,
        sanitised_spec(s).paste_on_use == s.paste_on_use,
{
}

} // verus!
