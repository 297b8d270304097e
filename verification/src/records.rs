//! What the control plane keeps: accounts, their projects, keys and subscriptions.

use vstd::prelude::*;
use crate::digest::{clock, clock_read};
use crate::identity::{is_drawn_id, is_random_id, random_id};
use crate::text::same_text;
use crate::tier::Tier;

verus! {

/// What an account may do.
#[derive(Debug, Clone, Copy, PartialEq, Eq, Structural)]
pub enum Role {
    Founder,
    Member,
}

/// The stored spelling of a role.
pub open spec fn role_name(r: Role) -> Seq<char> {
    match r {
        Role::Founder => "founder"@,
        Role::Member => "member"@,
    }
}

/// The role with the given spelling.
pub open spec fn role_named(s: Seq<char>) -> Option<Role> {
    if s == "founder"@ {
        Some(Role::Founder)
    } else if s == "member"@ {
        Some(Role::Member)
    } else {
        None
    }
}

impl Role {
    /// The stored spelling of the role.
    pub fn as_str(self) -> (r: &'static str)
        ensures
            r@ == role_name(self),
    {
        match self {
            Role::Founder => "founder",
            Role::Member => "member",
        }
    }

    /// The role with the given spelling.
    pub fn parse(s: &str) -> (r: Option<Self>)
        ensures
            r == role_named(s@),
    {
        if same_text(s, "founder") {
            Some(Role::Founder)
        } else if same_text(s, "member") {
            Some(Role::Member)
        } else {
            None
        }
    }

    /// The role that was stored; any other spelling is a member.
    pub fn stored(s: &str) -> (r: Self)
        ensures
            r == (match role_named(s@) {
                Some(role) => role,
                None => Role::Member,
            }),
    {
        match Role::parse(s) {
            Some(role) => role,
            None => Role::Member,
        }
    }
}

/// The first account is the founder's, every other a member's.
pub fn role_for_signup(accounts: usize) -> (r: Role)
    ensures
        r == (if accounts == 0 {
            Role::Founder
        } else {
            Role::Member
        }),
{
    if accounts == 0 {
        Role::Founder
    } else {
        Role::Member
    }
}

/// What is stored of a role reads back as that role.
pub proof fn law_role_round_trip(r: Role)
    ensures
        role_named(role_name(r)) == Some(r),
{
    reveal_strlit("founder");
    reveal_strlit("member");
    if r == Role::Member {
        assert("member"@[0] != "founder"@[0]);
    }
}

/// An account.
#[derive(Debug, Clone)]
pub struct Account {
    pub id: String,
    pub email: String,
    /// What is stored of the password.
    pub password_hash: String,
    pub role: Role,
    /// When it was made, in seconds since the start of 1970.
    pub created_at: i64,
}

/// A project of an account.
#[derive(Debug, Clone)]
pub struct Project {
    pub id: String,
    pub account_id: String,
    pub name: String,
    /// Where its sync server is, once there is one.
    pub sync_url: Option<String>,
    pub created_at: i64,
}

/// A key of a project.
#[derive(Debug, Clone)]
pub struct ApiKey {
    pub id: String,
    pub project_id: String,
    /// The key itself, which is shown once: when it is made.
    pub key: String,
    pub created_at: i64,
}

/// A key of a project as a list shows it: without the key itself.
#[derive(Debug, Clone, PartialEq, Eq)]
pub struct ListedKey {
    pub id: String,
    pub project_id: String,
    pub created_at: i64,
}

/// A subscription of a project.
#[derive(Debug, Clone)]
pub struct Subscription {
    pub id: String,
    pub project_id: String,
    pub stripe_customer_id: String,
    pub stripe_subscription_id: String,
    pub tier: Tier,
    /// The provider's word for how it stands; `active` where it is paid.
    pub status: String,
    pub created_at: i64,
}

/// Whether a text is a prefix and a random id that was drawn.
pub open spec fn is_id(s: Seq<char>, prefix: Seq<char>) -> bool {
    exists|id: Seq<char>| #[trigger] is_random_id(id) && is_drawn_id(id) && s == prefix + id
}

/// A prefix and a random id.
fn fresh_id(prefix: &str) -> (r: String)
    ensures
        is_id(r@, prefix@),
{
    let id = random_id();
    let mut out: String = prefix.to_owned();
    out.append(id.as_str());
    assert(is_random_id(id@) && is_drawn_id(id@) && out@ == prefix@ + id@);
    out
}

impl Account {
    /// A new account, under a fresh id.
    pub fn create(email: &str, password_hash: &str, role: Role) -> (r: Self)
        ensures
            is_id(r.id@, "acc_"@),
            r.email@ == email@,
            r.password_hash@ == password_hash@,
            r.role == role,
            clock_read(r.created_at),
    {
        Account {
            id: fresh_id("acc_"),
            email: email.to_owned(),
            password_hash: password_hash.to_owned(),
            role,
            created_at: clock(),
        }
    }
}

impl Project {
    /// A new project, under a fresh id, without a sync server.
    pub fn create(account_id: &str, name: &str) -> (r: Self)
        ensures
            is_id(r.id@, "proj_"@),
            r.account_id@ == account_id@,
            r.name@ == name@,
            r.sync_url is None,
            clock_read(r.created_at),
    {
        Project {
            id: fresh_id("proj_"),
            account_id: account_id.to_owned(),
            name: name.to_owned(),
            sync_url: None,
            created_at: clock(),
        }
    }
}

impl ApiKey {
    /// A new key, under a fresh id.
    pub fn create(project_id: &str) -> (r: Self)
        ensures
            is_id(r.id@, "key_"@),
            is_id(r.key@, "cak_"@),
            r.project_id@ == project_id@,
            clock_read(r.created_at),
    {
        ApiKey {
            id: fresh_id("key_"),
            project_id: project_id.to_owned(),
            key: fresh_id("cak_"),
            created_at: clock(),
        }
    }
}

/// Whether `l` is what a list shows of the key `k`.
pub open spec fn lists_key(l: ListedKey, k: ApiKey) -> bool {
    &&& l.id@ == k.id@
    &&& l.project_id@ == k.project_id@
    &&& l.created_at == k.created_at
}

/// What a list shows of the keys, in their order.
pub fn listed_keys(keys: &Vec<ApiKey>) -> (r: Vec<ListedKey>)
    ensures
        r@.len() == keys@.len(),
        forall|i: int| 0 <= i < keys@.len() ==> lists_key(#[trigger] r@[i], keys@[i]),
{
    let mut out: Vec<ListedKey> = Vec::new();
    let mut i: usize = 0;
    while i < keys.len()
        invariant
            i <= keys@.len(),
            out@.len() == i,
            forall|k: int| 0 <= k < i ==> lists_key(#[trigger] out@[k], keys@[k]),
        decreases keys@.len() - i,
    {
        out.push(
            ListedKey {
                id: keys[i].id.clone(),
                project_id: keys[i].project_id.clone(),
                created_at: keys[i].created_at,
            },
        );
        i += 1;
    }
    out
}

/// The place of the first account with the given id, or the number of accounts.
pub open spec fn account_place(accounts: Seq<Account>, id: Seq<char>, from: int) -> int
    decreases accounts.len() - from,
{
    if from < 0 || from >= accounts.len() {
        accounts.len() as int
    } else if accounts[from].id@ == id {
        from
    } else {
        account_place(accounts, id, from + 1)
    }
}

/// The first account with the given id.
pub fn find_account<'a>(accounts: &'a Vec<Account>, id: &str) -> (r: Option<&'a Account>)
    ensures
        ({
            let i = account_place(accounts@, id@, 0);
            &&& r is Some <==> i < accounts@.len()
            &&& r is Some ==> *r->0 == accounts@[i] && accounts@[i].id@ == id@
        }),
{
    let mut i: usize = 0;
    while i < accounts.len()
        invariant
            i <= accounts@.len(),
            account_place(accounts@, id@, 0) == account_place(accounts@, id@, i as int),
        decreases accounts@.len() - i,
    {
        if same_text(accounts[i].id.as_str(), id) {
            return Some(&accounts[i]);
        }
        i += 1;
    }
    None
}

} // verus!
