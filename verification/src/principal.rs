//! Who is connected: an account, its tenant, and the further claims of its token.

use vstd::prelude::*;
use crate::ordered::{listing, pairs, OrderedMap};
use crate::text::{debug_quoted, quoted, same_text};

verus! {

/// A connected account. An empty account id is nobody in particular.
#[derive(PartialEq, Eq, Hash)]
pub struct Principal {
    pub account_id: String,
    pub tenant_id: String,
    /// The further claims of the token, by name.
    pub extra: OrderedMap<String, String>,
}

/// A column, and the value that rows of the tenant have in it.
#[derive(Debug, Clone, Copy, PartialEq, Eq)]
pub struct TenantScope<'a> {
    pub column: &'a str,
    pub value: &'a str,
}

/// The value of the claim `field`: the account for `sub`, the tenant for
/// `tenant_id`, each where it is not empty; a further claim for any other name.
pub open spec fn claim_value(p: Principal, field: Seq<char>) -> Option<Seq<char>> {
    if field == "sub"@ {
        if p.account_id@.len() > 0 {
            Some(p.account_id@)
        } else {
            None
        }
    } else if field == "tenant_id"@ {
        if p.tenant_id@.len() > 0 {
            Some(p.tenant_id@)
        } else {
            None
        }
    } else if p.extra@.contains_key(field) {
        Some(p.extra@[field]@)
    } else {
        None
    }
}

/// The quoted names, with a comma and a space between them.
pub open spec fn quoted_list(names: Seq<Seq<char>>) -> Seq<char>
    decreases names.len(),
{
    if names.len() == 0 {
        seq![]
    } else if names.len() == 1 {
        debug_quoted(names[0])
    } else {
        quoted_list(names.drop_last()) + ", "@ + debug_quoted(names.last())
    }
}

/// The names of the claims, in order.
pub open spec fn claim_names(m: Map<Seq<char>, String>) -> Seq<Seq<char>> {
    Seq::new(listing(m).len(), |i: int| listing(m)[i].0)
}

/// The text of a principal for a log: of the further claims, only their names.
pub open spec fn principal_text(p: Principal) -> Seq<char> {
    "Principal { account_id: "@ + debug_quoted(p.account_id@) + ", tenant_id: "@ + debug_quoted(
        p.tenant_id@,
    ) + ", extra_claim_names: ["@ + quoted_list(claim_names(p.extra@)) + "] }"@
}

impl Principal {
    /// The account `account_id` of the tenant `tenant_id`.
    pub fn new(account_id: &str, tenant_id: &str) -> (r: Self)
        ensures
            r.account_id@ == account_id@,
            r.tenant_id@ == tenant_id@,
            r.extra@ == Map::<Seq<char>, String>::empty(),
    {
        Principal {
            account_id: account_id.to_owned(),
            tenant_id: tenant_id.to_owned(),
            extra: OrderedMap::new(),
        }
    }

    /// The same with further claims.
    pub fn with_claims(
        account_id: &str,
        tenant_id: &str,
        extra: OrderedMap<String, String>,
    ) -> (r: Self)
        ensures
            r.account_id@ == account_id@,
            r.tenant_id@ == tenant_id@,
            r.extra == extra,
    {
        Principal { account_id: account_id.to_owned(), tenant_id: tenant_id.to_owned(), extra }
    }

    /// Nobody in particular.
    pub fn anonymous() -> (r: Self)
        ensures
            r.account_id@.len() == 0,
            r.tenant_id@.len() == 0,
            r.extra@ == Map::<Seq<char>, String>::empty(),
    {
        Principal {
            account_id: String::new(),
            tenant_id: String::new(),
            extra: OrderedMap::new(),
        }
    }

    /// Whether this is nobody in particular.
    pub fn is_anonymous(&self) -> (r: bool)
        ensures
            r == (self.account_id@.len() == 0),
    {
        self.account_id.as_str().is_empty()
    }

    /// The value of the claim `field`.
    pub fn claim(&self, field: &str) -> (r: Option<&str>)
        ensures
            r is Some <==> claim_value(*self, field@) is Some,
            r is Some ==> r->0@ == claim_value(*self, field@)->0,
    {
        if same_text(field, "sub") {
            if self.account_id.as_str().is_empty() {
                None
            } else {
                Some(self.account_id.as_str())
            }
        } else if same_text(field, "tenant_id") {
            if self.tenant_id.as_str().is_empty() {
                None
            } else {
                Some(self.tenant_id.as_str())
            }
        } else {
            match self.extra.get(&field.to_owned()) {
                Some(value) => Some(value.as_str()),
                None => None,
            }
        }
    }

    /// What confines this account to its tenant: none without a column, and none
    /// for nobody in particular.
    pub fn tenant_scope<'a>(&'a self, tenant_column: Option<&'a str>) -> (r: Option<
        TenantScope<'a>,
    >)
        ensures
            r is Some <==> tenant_column is Some && self.account_id@.len() > 0,
            r is Some ==> r->0.column@ == tenant_column->0@ && r->0.value@ == self.tenant_id@,
    {
        match tenant_column {
            None => None,
            Some(column) => if self.is_anonymous() {
                None
            } else {
                Some(TenantScope::new(column, self.tenant_id.as_str()))
            },
        }
    }

    /// The text of this principal for a log.
    pub fn debug_text(&self) -> (r: String)
        ensures
            r@ == principal_text(*self),
    {
        let mut out: String = "Principal { account_id: ".to_owned();
        out.append(quoted(self.account_id.as_str()).as_str());
        out.append(", tenant_id: ");
        out.append(quoted(self.tenant_id.as_str()).as_str());
        out.append(", extra_claim_names: [");
        let ghost head = out@;
        let entries = self.extra.listed();
        let ghost names = claim_names(self.extra@);
        let mut i: usize = 0;
        assert(head + quoted_list(names.take(0)) =~= head);
        while i < entries.len()
            invariant
                i <= entries@.len(),
                names == claim_names(self.extra@),
                pairs(entries@) == listing(self.extra@),
                out@ == head + quoted_list(names.take(i as int)),
            decreases entries@.len() - i,
        {
            assert(pairs(entries@)[i as int].0 == entries@[i as int].0@);
            assert(names.take(i + 1).drop_last() == names.take(i as int));
            assert(names.take(i + 1).last() == names[i as int]);
            let ghost before = out@;
            if i > 0 {
                out.append(", ");
            }
            out.append(quoted(entries[i].0.as_str()).as_str());
            assert(out@ =~= head + quoted_list(names.take(i + 1)));
            i += 1;
        }
        assert(names.take(i as int) == names);
        out.append("] }");
        out
    }
}

impl<'a> TenantScope<'a> {
    /// The scope of `value` in `column`.
    pub fn new(column: &'a str, value: &'a str) -> (r: Self)
        ensures
            r.column@ == column@,
            r.value@ == value@,
    {
        TenantScope { column, value }
    }
}

impl Clone for Principal {
    fn clone(&self) -> (r: Self)
        ensures
            r.account_id@ == self.account_id@,
            r.tenant_id@ == self.tenant_id@,
            r.extra@ == self.extra@,
    {
        let mut extra: OrderedMap<String, String> = OrderedMap::new();
        let entries = self.extra.listed();
        let ghost s = pairs(entries@);
        let mut i: usize = 0;
        while i < entries.len()
            invariant
                i <= entries@.len(),
                s == pairs(entries@),
                crate::ordered::lists(s, self.extra@),
                forall|n: Seq<char>| #[trigger]
                    extra@.contains_key(n) ==> self.extra@.contains_key(n) && extra@[n]
                        == self.extra@[n],
                forall|k: int| 0 <= k < i ==> extra@.contains_key((#[trigger] s[k]).0),
            decreases entries@.len() - i,
        {
            assert(s[i as int] == (entries@[i as int].0@, entries@[i as int].1));
            extra.insert(entries[i].0.clone(), entries[i].1.clone());
            i += 1;
        }
        assert(extra@ =~= self.extra@) by {
            assert forall|n: Seq<char>| #[trigger] self.extra@.contains_key(n) implies extra@
                .contains_key(n) by {
                let k = choose|k: int| 0 <= k < s.len() && (#[trigger] s[k]).0 == n;
                assert(extra@.contains_key(s[k].0));
            }
        }
        Principal { account_id: self.account_id.clone(), tenant_id: self.tenant_id.clone(), extra }
    }
}

/// What is logged of a principal does not depend on the values of its claims.
pub proof fn law_claim_values_stay_out_of_logs(p: Principal, q: Principal)
    requires
        p.account_id@ == q.account_id@,
        p.tenant_id@ == q.tenant_id@,
        claim_names(p.extra@) == claim_names(q.extra@),
    ensures
        principal_text(p) == principal_text(q),
{
}

/// Nobody in particular has no claims.
pub proof fn law_anonymous_has_no_claims(p: Principal, field: Seq<char>)
    requires
        p.account_id@.len() == 0,
        p.tenant_id@.len() == 0,
        p.extra@ == Map::<Seq<char>, String>::empty(),
    ensures
        claim_value(p, field) is None,
{
}

} // verus!
