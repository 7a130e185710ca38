//! The game versions whose PRIM layouts the library reads and writes.

use vstd::prelude::*;

verus! {

/// A game whose PRIM layout the library reads and writes.
#[derive(Clone, Copy, Debug, PartialEq, Eq, Structural)]
pub enum GameVersion {
    Hma,
    Alpha,
    Hm2016,
    Woa,
}

impl Default for GameVersion {
    fn default() -> (v: GameVersion)
        ensures
            v == GameVersion::Hma,
    {
        GameVersion::Hma
    }
}

/// The version with index `value` in the order HMA, ALPHA, HM2016, WOA.
pub open spec fn version_of_index(value: u8) -> Option<GameVersion> {
    if value == 0 {
        Some(GameVersion::Hma)
    } else if value == 1 {
        Some(GameVersion::Alpha)
    } else if value == 2 {
        Some(GameVersion::Hm2016)
    } else if value == 3 {
        Some(GameVersion::Woa)
    } else {
        None
    }
}

/// The name of a version as the user writes it.
pub open spec fn version_name(v: GameVersion) -> Seq<char> {
    match v {
        GameVersion::Hma => "HMA"@,
        GameVersion::Alpha => "ALPHA"@,
        GameVersion::Hm2016 => "HM2016"@,
        GameVersion::Woa => "WOA"@,
    }
}

impl GameVersion {
    /// The version with index `value` in the order HMA, ALPHA, HM2016, WOA;
    /// any other index gives the error text "Error".
    pub fn try_from(value: u8) -> (r: Result<GameVersion, String>)
        ensures
            version_of_index(value) matches Some(v) ==> r == Ok::<GameVersion, String>(v),
            version_of_index(value) is None ==> (r matches Err(e) && e@ == "Error"@),
    {
        match value {
            0 => Ok(GameVersion::Hma),
            1 => Ok(GameVersion::Alpha),
            2 => Ok(GameVersion::Hm2016),
            3 => Ok(GameVersion::Woa),
            _ => Err("Error".to_owned()),
        }
    }

    /// The name of the version: HMA, ALPHA, HM2016 or WOA. It never fails.
    pub fn try_into(self) -> (r: Result<String, String>)
        ensures
            r matches Ok(s) && s@ == version_name(self),
    {
        match self {
            GameVersion::Hma => Ok("HMA".to_owned()),
            GameVersion::Alpha => Ok("ALPHA".to_owned()),
            GameVersion::Hm2016 => Ok("HM2016".to_owned()),
            GameVersion::Woa => Ok("WOA".to_owned()),
        }
    }
}

} // verus!
