//! What each platform's answer about a medium means for recovery. A missing
//! answer means an unknown class, never a guess.

use vstd::prelude::*;

use crate::ports::DeviceClass;
use crate::text::{chars_of, parse_u64, trim_chars, trim_spec, u64_text};

verus! {

/// Whether the medium discards deleted blocks (TRIM).
#[derive(Clone, Copy, Debug, Default, PartialEq, Eq, Hash, Structural)]
pub enum TrimState {
    Enabled,
    Disabled,
    #[default]
    Unknown,
}

/// The name a TRIM state is reported by.
pub open spec fn trim_state_name(t: TrimState) -> &'static str {
    match t {
        TrimState::Enabled => "enabled",
        TrimState::Disabled => "disabled",
        TrimState::Unknown => "unknown",
    }
}

impl TrimState {
    /// The state a platform's flag reports; no flag, no knowledge.
    pub fn from_flag(enabled: Option<bool>) -> (r: Self)
        ensures
            r == (match enabled {
                Some(true) => TrimState::Enabled,
                Some(false) => TrimState::Disabled,
                None => TrimState::Unknown,
            }),
    {
        match enabled {
            Some(true) => TrimState::Enabled,
            Some(false) => TrimState::Disabled,
            None => TrimState::Unknown,
        }
    }

    /// The state's name.
    pub fn name(self) -> (r: &'static str)
        ensures
            r@ == trim_state_name(self)@,
    {
        match self {
            TrimState::Enabled => "enabled",
            TrimState::Disabled => "disabled",
            TrimState::Unknown => "unknown",
        }
    }
}

/// The class Linux's `rotational` attribute reports, whitespace aside:
/// `1` a rotational disk, `0` solid state, anything else unknown.
pub open spec fn rotational_class(flag: Option<Seq<char>>) -> DeviceClass {
    match flag {
        Some(f) => if trim_spec(f) == seq!['1'] {
            DeviceClass::Hdd
        } else if trim_spec(f) == seq!['0'] {
            DeviceClass::Ssd
        } else {
            DeviceClass::Unknown
        },
        None => DeviceClass::Unknown,
    }
}

/// The class from Linux's `rotational` attribute ([`rotational_class`]).
pub fn from_rotational(flag: Option<&str>) -> (r: DeviceClass)
    ensures
        r == rotational_class(match flag {
            Some(f) => Some(f@),
            None => None,
        }),
{
    match flag {
        Some(f) => {
            let cs = chars_of(f);
            let t = trim_chars(&cs);
            if t.len() == 1 && t[0] == '1' {
                assert(t@ =~= seq!['1']);
                DeviceClass::Hdd
            } else if t.len() == 1 && t[0] == '0' {
                assert(t@ =~= seq!['0']);
                DeviceClass::Ssd
            } else {
                assert(t@ != seq!['1'] && t@ != seq!['0']) by {
                    if t@ == seq!['1'] {
                        assert(t@[0] == '1');
                    }
                    if t@ == seq!['0'] {
                        assert(t@[0] == '0');
                    }
                }
                DeviceClass::Unknown
            }
        },
        None => DeviceClass::Unknown,
    }
}

/// The class from Windows' seek-penalty query: a penalty means a
/// rotational disk.
pub fn from_seek_penalty(incurs_penalty: Option<bool>) -> (r: DeviceClass)
    ensures
        r == (match incurs_penalty {
            Some(true) => DeviceClass::Hdd,
            Some(false) => DeviceClass::Ssd,
            None => DeviceClass::Unknown,
        }),
{
    match incurs_penalty {
        Some(true) => DeviceClass::Hdd,
        Some(false) => DeviceClass::Ssd,
        None => DeviceClass::Unknown,
    }
}

/// The class from macOS' solid-state property.
pub fn from_solid_state(is_solid_state: Option<bool>) -> (r: DeviceClass)
    ensures
        r == (match is_solid_state {
            Some(true) => DeviceClass::Ssd,
            Some(false) => DeviceClass::Hdd,
            None => DeviceClass::Unknown,
        }),
{
    match is_solid_state {
        Some(true) => DeviceClass::Ssd,
        Some(false) => DeviceClass::Hdd,
        None => DeviceClass::Unknown,
    }
}

/// Whether deleted content can be expected on a medium: always on a
/// rotational disk or an image; on an SSD only with TRIM known to be off;
/// on an unknown medium unless TRIM is known to be on.
pub open spec fn expects_deleted(class: DeviceClass, trim: TrimState) -> bool {
    match class {
        DeviceClass::Hdd | DeviceClass::ImageFile => true,
        DeviceClass::Ssd => trim == TrimState::Disabled,
        DeviceClass::Unknown => trim != TrimState::Enabled,
    }
}

/// Whether deleted content can be expected ([`expects_deleted`]).
pub fn expects_deleted_content(class: DeviceClass, trim: TrimState) -> (r: bool)
    ensures
        r == expects_deleted(class, trim),
{
    match class {
        DeviceClass::Hdd | DeviceClass::ImageFile => true,
        DeviceClass::Ssd => match trim {
            TrimState::Disabled => true,
            _ => false,
        },
        DeviceClass::Unknown => match trim {
            TrimState::Enabled => false,
            _ => true,
        },
    }
}

/// Every platform reads the same fact the same way: a rotational medium is
/// `Hdd` and a solid-state one `Ssd`, whichever query answered.
pub proof fn lemma_platforms_agree(rotational: bool)
    ensures
        rotational_class(Some(if rotational { seq!['1'] } else { seq!['0'] })) == (if rotational {
            DeviceClass::Hdd
        } else {
            DeviceClass::Ssd
        }),
        (if rotational { DeviceClass::Hdd } else { DeviceClass::Ssd }) == (match Some(rotational) {
            Some(true) => DeviceClass::Hdd,
            Some(false) => DeviceClass::Ssd,
            None => DeviceClass::Unknown,
        }),
        (if rotational { DeviceClass::Hdd } else { DeviceClass::Ssd }) == (match Some(!rotational) {
            Some(true) => DeviceClass::Ssd,
            Some(false) => DeviceClass::Hdd,
            None => DeviceClass::Unknown,
        }),
{
    let s = if rotational { seq!['1'] } else { seq!['0'] };
    assert(s.subrange(0, s.len() as int) =~= s);
    assert(s.drop_first().len() == 0);
    assert(s.subrange(0, s.len() as int).subrange(0, s.len() as int) =~= s);
}

/// The number a sysfs attribute holds: its text, whitespace aside, read as
/// a `u64`; none when absent or not a number.
pub open spec fn sysfs_number(text: Option<Seq<char>>) -> Option<u64> {
    match text {
        Some(t) => u64_text(trim_spec(t)),
        None => None,
    }
}

/// Reads a sysfs attribute's number ([`sysfs_number`]).
pub fn parse_sysfs_number(text: Option<&str>) -> (r: Option<u64>)
    ensures
        r == sysfs_number(match text {
            Some(t) => Some(t@),
            None => None,
        }),
{
    match text {
        Some(t) => {
            let cs = chars_of(t);
            let trimmed = trim_chars(&cs);
            parse_u64(&trimmed)
        },
        None => None,
    }
}

/// The TRIM state Linux's `discard_max_bytes` attribute reports: a medium
/// that accepts discards of more than zero bytes has TRIM enabled, one that
/// accepts none has it disabled, and no readable number says nothing.
pub fn from_discard_max_bytes(text: Option<&str>) -> (r: TrimState)
    ensures
        r == match sysfs_number(match text {
            Some(t) => Some(t@),
            None => None,
        }) {
            Some(b) => if b > 0 { TrimState::Enabled } else { TrimState::Disabled },
            None => TrimState::Unknown,
        },
{
    match parse_sysfs_number(text) {
        Some(b) => TrimState::from_flag(Some(b > 0)),
        None => TrimState::from_flag(None),
    }
}

/// The capacity Linux's `size` attribute reports, in its 512-byte units;
/// none when it is unreadable or the byte count does not fit in a `u64`.
pub fn sysfs_capacity_bytes(text: Option<&str>) -> (r: Option<u64>)
    ensures
        r == match sysfs_number(match text {
            Some(t) => Some(t@),
            None => None,
        }) {
            Some(n) => if n * 512 <= u64::MAX { Some((n * 512) as u64) } else { None },
            None => None,
        },
{
    match parse_sysfs_number(text) {
        Some(n) => n.checked_mul(512),
        None => None,
    }
}

} // verus!
