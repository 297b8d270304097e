//! Subscription tiers.

use vstd::prelude::*;
use crate::text::same_text;

verus! {

/// What a project is subscribed to.
#[derive(Debug, Clone, Copy, PartialEq, Eq, Structural)]
pub enum Tier {
    Hobby,
    Pro,
    Scale,
    Enterprise,
}

/// The number of devices that a tier allows.
pub open spec fn device_limit(t: Tier) -> u64 {
    match t {
        Tier::Hobby => 100,
        Tier::Pro => 1_000,
        Tier::Scale => 10_000,
        Tier::Enterprise => u64::MAX,
    }
}

/// The stored spelling of a tier.
pub open spec fn tier_name(t: Tier) -> Seq<char> {
    match t {
        Tier::Hobby => "hobby"@,
        Tier::Pro => "pro"@,
        Tier::Scale => "scale"@,
        Tier::Enterprise => "enterprise"@,
    }
}

/// The tier with the given spelling; any other spelling is the lowest tier.
pub open spec fn tier_named(s: Seq<char>) -> Tier {
    if s == "pro"@ {
        Tier::Pro
    } else if s == "scale"@ {
        Tier::Scale
    } else if s == "enterprise"@ {
        Tier::Enterprise
    } else {
        Tier::Hobby
    }
}

impl Tier {
    /// The number of devices that the tier allows.
    pub fn device_cap(self) -> (r: u64)
        ensures
            r == device_limit(self),
    {
        match self {
            Tier::Hobby => 100,
            Tier::Pro => 1_000,
            Tier::Scale => 10_000,
            Tier::Enterprise => u64::MAX,
        }
    }
}

impl Default for Tier {
    fn default() -> (r: Self)
        ensures
            r == Tier::Hobby,
    {
        Tier::Hobby
    }
}

/// The stored spelling of a tier.
pub fn tier_str(t: Tier) -> (r: &'static str)
    ensures
        r@ == tier_name(t),
{
    match t {
        Tier::Hobby => "hobby",
        Tier::Pro => "pro",
        Tier::Scale => "scale",
        Tier::Enterprise => "enterprise",
    }
}

/// The tier with the given stored spelling.
pub fn tier_from_str(s: &str) -> (r: Tier)
    ensures
        r == tier_named(s@),
{
    if same_text(s, "pro") {
        Tier::Pro
    } else if same_text(s, "scale") {
        Tier::Scale
    } else if same_text(s, "enterprise") {
        Tier::Enterprise
    } else {
        Tier::Hobby
    }
}

/// What is stored of a tier reads back as that tier.
pub proof fn law_tier_round_trip(t: Tier)
    ensures
        tier_named(tier_name(t)) == t,
{
    reveal_strlit("hobby");
    reveal_strlit("pro");
    reveal_strlit("scale");
    reveal_strlit("enterprise");
    assert("hobby"@[0] == 'h' && "pro"@[0] == 'p' && "scale"@[0] == 's' && "enterprise"@[0] == 'e');
}

/// A higher tier allows more devices.
pub proof fn law_caps_ascend()
    ensures
        device_limit(Tier::Hobby) < device_limit(Tier::Pro),
        device_limit(Tier::Pro) < device_limit(Tier::Scale),
        device_limit(Tier::Scale) < device_limit(Tier::Enterprise),
{
}

} // verus!
