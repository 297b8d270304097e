//! Providers of hosted checkouts.

use nostos::payments::{Checkout, CheckoutRequest, PaymentError, PaymentProvider};
use nostos::tier::Tier;

#[test]
fn paypal_stub_is_unsupported() {
    struct Stub;
    impl PaymentProvider for Stub {
        fn name(&self) -> &'static str {
            "paypal"
        }
        fn create_checkout(
            &self,
            _req: &CheckoutRequest<'_>,
        ) -> Result<Checkout, PaymentError> {
            Err(PaymentError::Unsupported { provider: "paypal" })
        }
    }
    let p = Stub;
    let req = CheckoutRequest {
        tier: Tier::Pro,
        price_id: "p",
        success_url: "s",
        cancel_url: "c",
        client_reference_id: "r",
    };
    let err = p.create_checkout(&req).unwrap_err();
    assert!(matches!(err, PaymentError::Unsupported { provider: "paypal" }));
}
