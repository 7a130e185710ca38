//! Choosing the versions and files of a port from the command line.

use crate::version::{version_name, GameVersion};
use vstd::prelude::*;
use vstd::string::*;

verus! {

/// Why a game version name was refused.
pub enum VersionError {
    /// The name is none of HMA, ALPHA, HM2016 and WOA.
    Unknown(String),
}

/// The contents of a [`VersionError`].
pub enum VersionErrorModel {
    Unknown(Seq<char>),
}

impl View for VersionError {
    type V = VersionErrorModel;

    open spec fn view(&self) -> VersionErrorModel {
        match self {
            VersionError::Unknown(s) => VersionErrorModel::Unknown(s@),
        }
    }
}

/// `c` is the lower-case ASCII letter or digit `w`, or `w`'s upper-case letter.
pub open spec fn char_matches(c: char, w: char) -> bool {
    c == w || ('a' <= w && w <= 'z' && (c as u32) + 32 == (w as u32))
}

/// `s` spells the lower-case `word` with any mix of upper and lower case.
pub open spec fn names(s: Seq<char>, word: Seq<char>) -> bool {
    s.len() == word.len() && forall|i: int| 0 <= i < s.len() ==> char_matches(#[trigger] s[i], word[i])
}

/// The version that a name gives, in any case: HMA, ALPHA, HM2016 or WOA;
/// any other name is refused as unknown.
pub open spec fn version_from_name(s: Seq<char>) -> Result<GameVersion, VersionErrorModel> {
    if names(s, "hma"@) {
        Ok(GameVersion::Hma)
    } else if names(s, "alpha"@) {
        Ok(GameVersion::Alpha)
    } else if names(s, "hm2016"@) {
        Ok(GameVersion::Hm2016)
    } else if names(s, "woa"@) {
        Ok(GameVersion::Woa)
    } else {
        Err(VersionErrorModel::Unknown(s))
    }
}

/// The name a version is shown with is read back as that version.
pub proof fn lemma_version_name_read_back(v: GameVersion)
    ensures
        version_from_name(version_name(v)) == Ok::<GameVersion, VersionErrorModel>(v),
{
    reveal_strlit("HMA");
    reveal_strlit("ALPHA");
    reveal_strlit("HM2016");
    reveal_strlit("WOA");
    reveal_strlit("hma");
    reveal_strlit("alpha");
    reveal_strlit("hm2016");
    reveal_strlit("woa");
    let n = version_name(v);
    match v {
        GameVersion::Hma => {
            assert(names(n, "hma"@)) by {
                assert(char_matches(n[0], "hma"@[0]));
                assert(char_matches(n[1], "hma"@[1]));
                assert(char_matches(n[2], "hma"@[2]));
            }
        },
        GameVersion::Alpha => {
            assert(names(n, "alpha"@)) by {
                assert(char_matches(n[0], "alpha"@[0]));
                assert(char_matches(n[1], "alpha"@[1]));
                assert(char_matches(n[2], "alpha"@[2]));
                assert(char_matches(n[3], "alpha"@[3]));
                assert(char_matches(n[4], "alpha"@[4]));
            }
        },
        GameVersion::Hm2016 => {
            assert(names(n, "hm2016"@)) by {
                assert(char_matches(n[0], "hm2016"@[0]));
                assert(char_matches(n[1], "hm2016"@[1]));
            }
        },
        GameVersion::Woa => {
            assert(!char_matches(n[0], "hma"@[0]));
            assert(names(n, "woa"@)) by {
                assert(char_matches(n[0], "woa"@[0]));
                assert(char_matches(n[1], "woa"@[1]));
                assert(char_matches(n[2], "woa"@[2]));
            }
        },
    }
}

/// Whether `s` spells the lower-case `word` in any case. (The names compared
/// against hold no letter that a non-ASCII character lower-cases to, so this
/// is what comparing the lower-cased `s` with `word` gives.)
fn names_word(s: &str, word: &str) -> (r: bool)
    ensures
        r == names(s@, word@),
{
    let n = s.unicode_len();
    if n != word.unicode_len() {
        return false;
    }
    let mut i: usize = 0;
    while i < n
        invariant
            n == s@.len(),
            n == word@.len(),
            i <= n,
            forall|j: int| 0 <= j < i ==> char_matches(#[trigger] s@[j], word@[j]),
        decreases n - i,
    {
        let c = s.get_char(i);
        let w = word.get_char(i);
        if !(c == w || ('a' <= w && w <= 'z' && (c as u32) + 32 == (w as u32))) {
            assert(!char_matches(s@[i as int], word@[i as int]));
            return false;
        }
        i = i + 1;
    }
    true
}

/// The version that `version` names, in any case; a name that is none of
/// HMA, ALPHA, HM2016 and WOA is refused as unknown.
pub fn game_version_check(version: &String) -> (r: Result<GameVersion, VersionError>)
    ensures
        match version_from_name(version@) {
            Ok(v) => r matches Ok(x) && x == v,
            Err(e) => r matches Err(x) && x@ == e,
        },
{
    let s = version.as_str();
    if names_word(s, "hma") {
        Ok(GameVersion::Hma)
    } else if names_word(s, "alpha") {
        Ok(GameVersion::Alpha)
    } else if names_word(s, "hm2016") {
        Ok(GameVersion::Hm2016)
    } else if names_word(s, "woa") {
        Ok(GameVersion::Woa)
    } else {
        Err(VersionError::Unknown(s.to_owned()))
    }
}

/// The command line: flags, then the input file, its version, the output
/// version and the output file, each of which may be missing.
pub struct Cli {
    pub no_cloth: bool,
    pub verbose: bool,
    pub input_prim: Option<String>,
    pub input_version: Option<String>,
    pub output_version: Option<String>,
    pub output_prim: Option<String>,
}

/// What a port does: which file to read in which version, which file to
/// write in which version, whether to drop cloth meshes and print what was
/// read, and whether to ask for all of it in a window instead.
pub struct PrimPort {
    pub input_prim_path: String,
    pub output_prim_path: String,
    pub input_version: GameVersion,
    pub output_version: GameVersion,
    pub no_cloth: bool,
    pub verbose: bool,
    pub use_gui: bool,
}

/// The contents of a [`PrimPort`].
pub struct PrimPortModel {
    pub input_prim_path: Seq<char>,
    pub output_prim_path: Seq<char>,
    pub input_version: GameVersion,
    pub output_version: GameVersion,
    pub no_cloth: bool,
    pub verbose: bool,
    pub use_gui: bool,
}

impl View for PrimPort {
    type V = PrimPortModel;

    open spec fn view(&self) -> PrimPortModel {
        PrimPortModel {
            input_prim_path: self.input_prim_path@,
            output_prim_path: self.output_prim_path@,
            input_version: self.input_version,
            output_version: self.output_version,
            no_cloth: self.no_cloth,
            verbose: self.verbose,
            use_gui: self.use_gui,
        }
    }
}

/// The port that a command line asks for: with any of the two files and two
/// versions missing, the window with empty paths, HMA for both versions and
/// no flags; else the named files and versions (the input version checked
/// first) and the flags.
pub open spec fn port_from(args: Cli) -> Result<PrimPortModel, VersionErrorModel> {
    if args.input_prim is None || args.input_version is None || args.output_version is None
        || args.output_prim is None {
        Ok(
            PrimPortModel {
                input_prim_path: Seq::empty(),
                output_prim_path: Seq::empty(),
                input_version: GameVersion::Hma,
                output_version: GameVersion::Hma,
                no_cloth: false,
                verbose: false,
                use_gui: true,
            },
        )
    } else {
        match version_from_name(args.input_version->Some_0@) {
            Err(e) => Err(e),
            Ok(iv) => match version_from_name(args.output_version->Some_0@) {
                Err(e) => Err(e),
                Ok(ov) => Ok(
                    PrimPortModel {
                        input_prim_path: args.input_prim->Some_0@,
                        output_prim_path: args.output_prim->Some_0@,
                        input_version: iv,
                        output_version: ov,
                        no_cloth: args.no_cloth,
                        verbose: args.verbose,
                        use_gui: false,
                    },
                ),
            },
        }
    }
}

/// A complete command line whose two versions are known asks for a port
/// without the window: of the files it names, between the versions it
/// names, with cloth meshes dropped exactly where -c is given and the
/// verbose output exactly where -v is given. A command line that lacks any
/// of the four asks for the window, with both flags off.
pub proof fn lemma_port_from_flags(args: Cli)
    ensures
        (args.input_prim is Some && args.input_version is Some && args.output_version is Some
            && args.output_prim is Some && version_from_name(args.input_version->Some_0@) is Ok
            && version_from_name(args.output_version->Some_0@) is Ok) ==> {
            &&& port_from(args) is Ok
            &&& port_from(args)->Ok_0.no_cloth == args.no_cloth
            &&& port_from(args)->Ok_0.verbose == args.verbose
            &&& !port_from(args)->Ok_0.use_gui
            &&& port_from(args)->Ok_0.input_prim_path == args.input_prim->Some_0@
            &&& port_from(args)->Ok_0.output_prim_path == args.output_prim->Some_0@
            &&& port_from(args)->Ok_0.input_version == version_from_name(args.input_version->Some_0@)->Ok_0
            &&& port_from(args)->Ok_0.output_version == version_from_name(args.output_version->Some_0@)->Ok_0
        },
        (args.input_prim is None || args.input_version is None || args.output_version is None
            || args.output_prim is None) ==> {
            &&& port_from(args) is Ok
            &&& port_from(args)->Ok_0.use_gui
            &&& !port_from(args)->Ok_0.no_cloth
            &&& !port_from(args)->Ok_0.verbose
        },
{
}

impl PrimPort {
    /// The port that the command line asks for.
    pub fn from(args: Cli) -> (r: Result<PrimPort, VersionError>)
        ensures
            match port_from(args) {
                Ok(p) => r matches Ok(x) && x@ == p,
                Err(e) => r matches Err(x) && x@ == e,
            },
    {
        let ghost a = args;
        match (args.input_prim, args.input_version, args.output_version, args.output_prim) {
            (Some(input_prim), Some(input_version), Some(output_version), Some(output_prim)) => {
                let iv = game_version_check(&input_version)?;
                let ov = game_version_check(&output_version)?;
                Ok(
                    PrimPort {
                        input_prim_path: input_prim,
                        output_prim_path: output_prim,
                        input_version: iv,
                        output_version: ov,
                        no_cloth: args.no_cloth,
                        verbose: args.verbose,
                        use_gui: false,
                    },
                )
            },
            _ => Ok(
                PrimPort {
                    input_prim_path: String::new(),
                    output_prim_path: String::new(),
                    input_version: GameVersion::Hma,
                    output_version: GameVersion::Hma,
                    no_cloth: false,
                    verbose: false,
                    use_gui: true,
                },
            ),
        }
    }
}

} // verus!
