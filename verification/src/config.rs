//! The settings of the control plane.

use vstd::prelude::*;
use crate::tier::Tier;

verus! {

/// The settings.
#[derive(Debug, Clone)]
pub struct Config {
    /// Where to listen.
    pub bind: String,
    /// The secret that licenses are signed with.
    pub license_secret: String,
    /// Where the database is.
    pub db: String,
    /// The secret of the payment provider.
    pub stripe_secret_key: Option<String>,
    /// The secret that its messages are signed with.
    pub stripe_webhook_secret: Option<String>,
    /// The price of the tier `Pro`.
    pub price_pro: Option<String>,
    /// The price of the tier `Scale`.
    pub price_scale: Option<String>,
    /// The price of the tier `Enterprise`.
    pub price_enterprise: Option<String>,
    /// The address under which the control plane is reached.
    pub public_base_url: String,
    /// The secret that tokens are signed with.
    pub supabase_jwt_secret: Option<String>,
    /// What is logged.
    pub log: String,
}

/// The price of a tier, where it is set.
pub open spec fn priced(tier: Tier, price: Option<String>) -> Seq<(Tier, Seq<char>)> {
    match price {
        Some(p) => seq![(tier, p@)],
        None => seq![],
    }
}

/// The prices by their characters.
pub open spec fn price_views(s: Seq<(Tier, String)>) -> Seq<(Tier, Seq<char>)> {
    Seq::new(s.len(), |i: int| (s[i].0, s[i].1@))
}

/// Adds the price of a tier, where it is set.
fn add_price(prices: &mut Vec<(Tier, String)>, tier: Tier, price: &Option<String>)
    ensures
        price_views(final(prices)@) == price_views(old(prices)@) + priced(tier, *price),
{
    let ghost before = price_views(prices@);
    match price {
        Some(p) => {
            prices.push((tier, p.clone()));
        },
        None => {},
    }
    assert(price_views(prices@) =~= before + priced(tier, *price));
}

impl Config {
    /// The prices that are set, from the lowest tier up.
    pub fn price_ids(&self) -> (r: Vec<(Tier, String)>)
        ensures
            price_views(r@) == priced(Tier::Pro, self.price_pro) + priced(
                Tier::Scale,
                self.price_scale,
            ) + priced(Tier::Enterprise, self.price_enterprise),
    {
        let mut prices: Vec<(Tier, String)> = Vec::new();
        assert(price_views(prices@) =~= seq![]);
        add_price(&mut prices, Tier::Pro, &self.price_pro);
        assert(price_views(prices@) =~= priced(Tier::Pro, self.price_pro));
        add_price(&mut prices, Tier::Scale, &self.price_scale);
        add_price(&mut prices, Tier::Enterprise, &self.price_enterprise);
        prices
    }
}

} // verus!
