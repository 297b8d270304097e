//! Providers of hosted checkouts.

use vstd::prelude::*;
use crate::stripe::{stripe_error_text, CheckoutSession, CreateCheckout, StripeError};
use crate::tier::Tier;

verus! {

/// A checkout that was started.
#[derive(Debug, Clone)]
pub struct Checkout {
    /// Where the buyer goes.
    pub url: String,
    /// The provider's id of the checkout.
    pub id: String,
}

/// A checkout to be started.
#[derive(Debug, Clone)]
pub struct CheckoutRequest<'a> {
    pub tier: Tier,
    /// The provider's id of the price of the tier.
    pub price_id: &'a str,
    pub success_url: &'a str,
    pub cancel_url: &'a str,
    pub client_reference_id: &'a str,
}

/// Why a checkout could not be started.
#[derive(Debug)]
pub enum PaymentError {
    /// The provider is known, but nothing is written for it.
    Unsupported { provider: &'static str },
    /// The provider failed.
    Other(String),
}

/// The text of an error.
pub open spec fn payment_error_text(e: PaymentError) -> Seq<char> {
    match e {
        PaymentError::Unsupported { provider } => "the "@ + provider@
            + " provider is configured but not yet implemented"@,
        PaymentError::Other(s) => "payment provider error: "@ + s@,
    }
}

impl PaymentError {
    /// The error as text.
    pub fn to_text(&self) -> (r: String)
        ensures
            r@ == payment_error_text(*self),
    {
        match self {
            PaymentError::Unsupported { provider } => {
                let mut out: String = "the ".to_owned();
                out.append(provider);
                out.append(" provider is configured but not yet implemented");
                out
            },
            PaymentError::Other(s) => {
                let mut out: String = "payment provider error: ".to_owned();
                out.append(s.as_str());
                out
            },
        }
    }
}

/// A provider of hosted checkouts.
pub trait PaymentProvider: Send + Sync {
    /// The name of the provider.
    fn name(&self) -> &'static str;

    /// Starts a checkout.
    fn create_checkout(&self, req: &CheckoutRequest<'_>) -> Result<Checkout, PaymentError>;
}

/// The provider PayPal, for which nothing is written yet.
pub struct PaypalProvider;

impl PaymentProvider for PaypalProvider {
    fn name(&self) -> (r: &'static str)
        ensures
            r@ == "paypal"@,
    {
        "paypal"
    }

    fn create_checkout(&self, req: &CheckoutRequest<'_>) -> (r: Result<Checkout, PaymentError>)
        ensures
            r matches Err(PaymentError::Unsupported { provider }) && provider@ == "paypal"@,
    {
        Err(PaymentError::Unsupported { provider: "paypal" })
    }
}

/// What is asked of Stripe for a checkout.
pub fn stripe_request<'a>(req: &CheckoutRequest<'a>) -> (r: CreateCheckout<'a>)
    ensures
        r.price_id@ == req.price_id@,
        r.success_url@ == req.success_url@,
        r.cancel_url@ == req.cancel_url@,
        r.client_reference_id@ == req.client_reference_id@,
{
    CreateCheckout {
        price_id: req.price_id,
        success_url: req.success_url,
        cancel_url: req.cancel_url,
        client_reference_id: req.client_reference_id,
    }
}

/// What came of a checkout with Stripe.
pub fn stripe_outcome(answer: Result<CheckoutSession, StripeError>) -> (r: Result<
    Checkout,
    PaymentError,
>)
    ensures
        match answer {
            Ok(s) => r matches Ok(c) && c.url@ == s.url@ && c.id@ == s.id@,
            Err(e) => r matches Err(PaymentError::Other(t)) && t@ == stripe_error_text(e),
        },
{
    match answer {
        Ok(s) => Ok(Checkout { url: s.url, id: s.id }),
        Err(e) => Err(PaymentError::Other(e.to_text())),
    }
}

} // verus!
