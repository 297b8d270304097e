//! Sync sessions: one for each connected client.

use vstd::prelude::*;
use crate::numbers::hex_char;
use crate::predicate::Predicate;
use crate::principal::Principal;

verus! {

/// The id of a session: the 128 bits of a random UUID.
#[derive(Debug, Clone, Copy, PartialEq, Eq, Hash, Structural)]
pub struct SessionId(pub u128);

/// The four bits of `n` at place `i`, counted from the highest.
pub open spec fn nibble(n: u128, i: int) -> int {
    (n as int / vstd::arithmetic::power::pow(16, (31 - i) as nat)) % 16
}

/// The text of an id: 32 lower case hexadecimal digits in groups of 8, 4, 4, 4 and 12.
pub open spec fn id_text(n: u128) -> Seq<char> {
    Seq::new(
        36,
        |i: int|
            if i == 8 || i == 13 || i == 18 || i == 23 {
                '-'
            } else {
                hex_char(
                    nibble(
                        n,
                        i - (if i > 23 {
                            4int
                        } else if i > 18 {
                            3
                        } else if i > 13 {
                            2
                        } else if i > 8 {
                            1
                        } else {
                            0
                        }),
                    ) as nat,
                )
            },
    )
}

/// `uuid::Uuid::new_v4`, as its 128 bits: random, but for the version, which is 4,
/// and the variant, whose two highest bits are one and zero.
#[verifier::external_body]
fn random_uuid() -> (r: u128)
    ensures
        nibble(r, 12) == 4,
        8 <= nibble(r, 16) <= 11,
{
    uuid::Uuid::new_v4().as_u128()
}

/// The text that `uuid::Uuid` displays: hyphenated lower case hexadecimal digits.
#[verifier::external_body]
fn uuid_text(n: u128) -> (r: String)
    ensures
        r@ == id_text(n),
{
    uuid::Uuid::from_u128(n).to_string()
}

/// Whether a random UUID was drawn as these bits.
pub closed spec fn uuid_drawn(n: u128) -> bool {
    call_ensures(random_uuid, (), n)
}

impl SessionId {
    /// A random id.
    pub fn new() -> (r: Self)
        ensures
            nibble(r.0, 12) == 4,
            8 <= nibble(r.0, 16) <= 11,
            uuid_drawn(r.0),
    {
        SessionId(random_uuid())
    }

    /// The text of the id.
    pub fn to_text(self) -> (r: String)
        ensures
            r@ == id_text(self.0),
    {
        uuid_text(self.0)
    }
}

impl Default for SessionId {
    fn default() -> (r: Self)
        ensures
            nibble(r.0, 12) == 4,
            8 <= nibble(r.0, 16) <= 11,
            uuid_drawn(r.0),
    {
        SessionId::new()
    }
}

/// The subscription of a connected client.
#[derive(Clone, PartialEq, Eq)]
pub struct SyncSession {
    pub id: SessionId,
    /// The rows that the client asked for.
    pub predicate: Predicate,
    /// Who the client is; nobody where it did not say.
    pub principal: Option<Principal>,
}

impl SyncSession {
    /// The session under the given id.
    pub fn with_id(id: SessionId, predicate: Predicate, principal: Option<Principal>) -> (r: Self)
        ensures
            r.id == id,
            r.predicate == predicate,
            r.principal == principal,
    {
        SyncSession { id, predicate, principal }
    }

    /// The session of a client that did not say who it is.
    pub fn new(predicate: Predicate) -> (r: Self)
        ensures
            r.predicate == predicate,
            r.principal is None,
            nibble(r.id.0, 12) == 4,
            8 <= nibble(r.id.0, 16) <= 11,
            uuid_drawn(r.id.0),
    {
        SyncSession::with_id(SessionId::new(), predicate, None)
    }

    /// The session of an account.
    pub fn new_authenticated(predicate: Predicate, principal: Principal) -> (r: Self)
        ensures
            r.predicate == predicate,
            r.principal == Some(principal),
            nibble(r.id.0, 12) == 4,
            8 <= nibble(r.id.0, 16) <= 11,
            uuid_drawn(r.id.0),
    {
        SyncSession::with_id(SessionId::new(), predicate, Some(principal))
    }

    /// The table that the client subscribed to.
    pub fn table(&self) -> (r: &str)
        ensures
            r@ == self.predicate.table@,
    {
        self.predicate.table.as_str()
    }

    /// Who the client is.
    pub fn principal(&self) -> (r: Option<&Principal>)
        ensures
            r is Some <==> self.principal is Some,
            r is Some ==> *r->0 == self.principal->0,
    {
        match &self.principal {
            Some(p) => Some(p),
            None => None,
        }
    }
}

} // verus!
