//! Voice profiles: named vocal ranges used to filter detected frequencies.

use vstd::prelude::*;

verus! {

/// Number of milli-hertz in one hertz.
pub const MILLIHZ_PER_HZ: u64 = 1000;

/// A named vocal range. Every profile except `NoProfile` carries a fixed
/// frequency range, reported by [`VoiceProfile::freq_range`] in milli-hertz.
#[derive(Clone, Copy, Debug, PartialEq, Eq, Structural)]
pub enum VoiceProfile {
    NoProfile,
    Soprano,
    Mezzo,
    Alto,
    Tenor,
    Baritone,
    Bass,
}

/// The frequency range of a profile, in milli-hertz, as a spec-level value.
pub open spec fn spec_freq_range(p: VoiceProfile) -> Option<(u64, u64)> {
    match p {
        VoiceProfile::NoProfile => None,
        VoiceProfile::Soprano => Some((261630u64, 1046500u64)),
        VoiceProfile::Mezzo => Some((220000u64, 880000u64)),
        VoiceProfile::Alto => Some((174610u64, 698460u64)),
        VoiceProfile::Tenor => Some((130810u64, 523250u64)),
        VoiceProfile::Baritone => Some((110000u64, 440000u64)),
        VoiceProfile::Bass => Some((65410u64, 261630u64)),
    }
}

/// The profile denoted by a request string; anything unrecognised means
/// "no profile".
pub open spec fn spec_profile_from_str(s: Seq<char>) -> VoiceProfile {
    if s == "soprano"@ {
        VoiceProfile::Soprano
    } else if s == "mezzo"@ {
        VoiceProfile::Mezzo
    } else if s == "alto"@ {
        VoiceProfile::Alto
    } else if s == "tenor"@ {
        VoiceProfile::Tenor
    } else if s == "baritone"@ {
        VoiceProfile::Baritone
    } else if s == "bass"@ {
        VoiceProfile::Bass
    } else {
        VoiceProfile::NoProfile
    }
}

/// The request string for a profile.
pub open spec fn spec_profile_as_str(p: VoiceProfile) -> Seq<char> {
    match p {
        VoiceProfile::NoProfile => "no_profile"@,
        VoiceProfile::Soprano => "soprano"@,
        VoiceProfile::Mezzo => "mezzo"@,
        VoiceProfile::Alto => "alto"@,
        VoiceProfile::Tenor => "tenor"@,
        VoiceProfile::Baritone => "baritone"@,
        VoiceProfile::Bass => "bass"@,
    }
}

impl VoiceProfile {
    /// The vocal range of this profile in milli-hertz, or `None` when no
    /// profile is selected.
    pub fn freq_range(self) -> (r: Option<(u64, u64)>)
        ensures
            r == spec_freq_range(self),
    {
        match self {
            VoiceProfile::NoProfile => None,
            VoiceProfile::Soprano => Some((261630, 1046500)),
            VoiceProfile::Mezzo => Some((220000, 880000)),
            VoiceProfile::Alto => Some((174610, 698460)),
            VoiceProfile::Tenor => Some((130810, 523250)),
            VoiceProfile::Baritone => Some((110000, 440000)),
            VoiceProfile::Bass => Some((65410, 261630)),
        }
    }

    /// All request strings a caller may select from.
    pub fn all_profiles() -> (r: Vec<&'static str>)
        ensures
            r@.len() == 7,
            r@[0]@ == "no_profile"@,
            r@[1]@ == "soprano"@,
            r@[2]@ == "mezzo"@,
            r@[3]@ == "alto"@,
            r@[4]@ == "tenor"@,
            r@[5]@ == "baritone"@,
            r@[6]@ == "bass"@,
    {
        let mut v: Vec<&'static str> = Vec::new();
        v.push("no_profile");
        v.push("soprano");
        v.push("mezzo");
        v.push("alto");
        v.push("tenor");
        v.push("baritone");
        v.push("bass");
        v
    }

    /// Parse a request string; unrecognised strings select `NoProfile`.
    pub fn from_str(s: &str) -> (r: Self)
        ensures
            r == spec_profile_from_str(s@),
    {
        if str_eq(s, "soprano") {
            VoiceProfile::Soprano
        } else if str_eq(s, "mezzo") {
            VoiceProfile::Mezzo
        } else if str_eq(s, "alto") {
            VoiceProfile::Alto
        } else if str_eq(s, "tenor") {
            VoiceProfile::Tenor
        } else if str_eq(s, "baritone") {
            VoiceProfile::Baritone
        } else if str_eq(s, "bass") {
            VoiceProfile::Bass
        } else {
            VoiceProfile::NoProfile
        }
    }

    /// The request string of this profile.
    pub fn as_str(self) -> (r: &'static str)
        ensures
            r@ == spec_profile_as_str(self),
    {
        match self {
            VoiceProfile::NoProfile => "no_profile",
            VoiceProfile::Soprano => "soprano",
            VoiceProfile::Mezzo => "mezzo",
            VoiceProfile::Alto => "alto",
            VoiceProfile::Tenor => "tenor",
            VoiceProfile::Baritone => "baritone",
            VoiceProfile::Bass => "bass",
        }
    }
}

impl Default for VoiceProfile {
    fn default() -> (r: Self)
        ensures
            r == VoiceProfile::NoProfile,
    {
        VoiceProfile::NoProfile
    }
}

/// Character-for-character equality of two string slices.
fn str_eq(a: &str, b: &str) -> (r: bool)
    ensures
        r == (a@ == b@),
{
    let alen = a.unicode_len();
    let blen = b.unicode_len();
    if alen != blen {
        assert(a@ != b@) by {
            assert(a@.len() != b@.len());
        }
        return false;
    }
    let mut i: usize = 0;
    while i < alen
        invariant
            alen == a@.len(),
            blen == b@.len(),
            alen == blen,
            i <= alen,
            forall|j: int| 0 <= j < i ==> a@[j] == b@[j],
        decreases alen - i,
    {
        if a.get_char(i) != b.get_char(i) {
            return false;
        }
        i += 1;
    }
    assert(a@ =~= b@);
    true
}

/// Half the note-index span of a profile on a chromatic display running from
/// the octave-2 C upward, `None` when no profile is selected.
pub fn get_profile_range(profile: &str) -> (r: Option<(usize, usize)>)
    ensures
        r == spec_display_range(profile@),
{
    if str_eq(profile, "soprano") {
        Some((24, 48))
    } else if str_eq(profile, "mezzo") {
        Some((21, 45))
    } else if str_eq(profile, "alto") {
        Some((17, 41))
    } else if str_eq(profile, "tenor") {
        Some((12, 36))
    } else if str_eq(profile, "baritone") {
        Some((9, 33))
    } else if str_eq(profile, "bass") {
        Some((0, 24))
    } else {
        None
    }
}

/// The display note-index range that belongs to a profile string.
pub open spec fn spec_display_range(s: Seq<char>) -> Option<(usize, usize)> {
    if s == "soprano"@ {
        Some((24usize, 48usize))
    } else if s == "mezzo"@ {
        Some((21usize, 45usize))
    } else if s == "alto"@ {
        Some((17usize, 41usize))
    } else if s == "tenor"@ {
        Some((12usize, 36usize))
    } else if s == "baritone"@ {
        Some((9usize, 33usize))
    } else if s == "bass"@ {
        Some((0usize, 24usize))
    } else {
        None
    }
}

} // verus!
