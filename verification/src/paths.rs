//! Road tiers of the path network.

use vstd::prelude::*;
use crate::biomes::same_text;

verus! {

/// Width class of a road.
#[derive(Debug, Clone, Copy, PartialEq, Eq, Hash, Structural)]
pub enum RoadTier {
    /// Main road between major points of interest.
    Primary,
    /// Secondary path.
    Secondary,
    /// Minor trail or shortcut.
    Trail,
    /// Paved street inside or out of a village.
    Urban,
}

/// The tier that a data file names; unknown names read as Secondary.
pub open spec fn tier_of_name(s: Seq<char>) -> RoadTier {
    if s == "primary"@ {
        RoadTier::Primary
    } else if s == "secondary"@ {
        RoadTier::Secondary
    } else if s == "trail"@ {
        RoadTier::Trail
    } else if s == "urban"@ {
        RoadTier::Urban
    } else {
        RoadTier::Secondary
    }
}

impl RoadTier {
    /// Parses a tier name from a data file (exact, lower-case names);
    /// anything else falls back to Secondary.
    pub fn from_tier_name(s: &str) -> (t: Self)
        ensures
            t == tier_of_name(s@),
    {
        let name = s.to_owned();
        if same_text(&name, "primary") {
            RoadTier::Primary
        } else if same_text(&name, "secondary") {
            RoadTier::Secondary
        } else if same_text(&name, "trail") {
            RoadTier::Trail
        } else if same_text(&name, "urban") {
            RoadTier::Urban
        } else {
            RoadTier::Secondary
        }
    }
}

} // verus!
