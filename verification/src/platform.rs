//! The closed set of platforms that an alias can vary over.

use vstd::prelude::*;
use crate::text::same_text;

verus! {

/// The platform on which commands are run.
#[derive(Clone, Copy, Debug, PartialEq, Eq, Structural)]
pub enum Platform {
    Windows,
    Linux,
    Mac,
    Bsd,
}

/// The identifier under which a platform is written in a configuration.
pub open spec fn platform_id(platform: Platform) -> Seq<char> {
    match platform {
        Platform::Windows => "windows"@,
        Platform::Linux => "linux"@,
        Platform::Mac => "mac"@,
        Platform::Bsd => "bsd"@,
    }
}

/// The platform that an identifier names, if it names one.
pub open spec fn platform_of(id: Seq<char>) -> Option<Platform> {
    if id == "windows"@ {
        Some(Platform::Windows)
    } else if id == "linux"@ {
        Some(Platform::Linux)
    } else if id == "mac"@ {
        Some(Platform::Mac)
    } else if id == "bsd"@ {
        Some(Platform::Bsd)
    } else {
        None
    }
}

/// Every platform is found again from its own identifier.
pub proof fn law_platform_id_round_trips(platform: Platform)
    ensures
        platform_of(platform_id(platform)) == Some(platform),
{
    reveal_strlit("windows");
    reveal_strlit("linux");
    reveal_strlit("mac");
    reveal_strlit("bsd");
    assert("windows"@.len() == 7);
    assert("linux"@.len() == 5);
    assert("mac"@[0] == 'm');
    assert("bsd"@[0] == 'b');
}

impl Platform {
    /// Reads a platform identifier: `windows`, `linux`, `mac` or `bsd`.
    pub fn from_id(id: &str) -> (r: Option<Platform>)
        ensures
            r == platform_of(id@),
    {
        if same_text(id, "windows") {
            Some(Platform::Windows)
        } else if same_text(id, "linux") {
            Some(Platform::Linux)
        } else if same_text(id, "mac") {
            Some(Platform::Mac)
        } else if same_text(id, "bsd") {
            Some(Platform::Bsd)
        } else {
            None
        }
    }

    /// The identifier of this platform.
    pub fn id(self) -> (r: &'static str)
        ensures
            r@ == platform_id(self),
    {
        match self {
            Platform::Windows => "windows",
            Platform::Linux => "linux",
            Platform::Mac => "mac",
            Platform::Bsd => "bsd",
        }
    }
}

} // verus!
