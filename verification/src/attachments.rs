//! The life of an attachment: what is to be done with its bytes, what comes of it,
//! and when a failed transfer is tried again. The bytes themselves never pass
//! through here.

use vstd::arithmetic::power2::{lemma2_to64, lemma_pow2_strictly_increases, lemma_pow2_unfold, pow2};
use vstd::prelude::*;
use crate::text::same_text;

pub mod cols;

verus! {

/// The table of attachments.
pub const ATTACHMENTS_TABLE: &'static str = "attachments";

/// How often a transfer is tried before it is given up.
pub const DEFAULT_MAX_ATTEMPTS: u32 = 5;

/// The longest wait before another try, in seconds.
pub const MAX_DELAY_SECS: u64 = 60;

/// The state of an attachment.
#[derive(Debug, Clone, Copy, PartialEq, Eq, Hash, Structural)]
pub enum AttachmentState {
    /// The bytes are here and go to the bucket.
    QueuedUpload,
    /// The bytes are in the bucket and come here.
    QueuedDownload,
    /// The bytes are to leave the bucket.
    QueuedDelete,
    /// Nothing is left to do.
    Synced,
    /// The bytes left the bucket, or the transfer was given up.
    Archived,
}

/// What is done with the bytes.
#[derive(Debug, Clone, Copy, PartialEq, Eq, Structural)]
pub enum AttachmentOp {
    Upload,
    Download,
    Delete,
}

/// The spelling of a state.
pub open spec fn state_name(s: AttachmentState) -> Seq<char> {
    match s {
        AttachmentState::QueuedUpload => "queued_upload"@,
        AttachmentState::QueuedDownload => "queued_download"@,
        AttachmentState::QueuedDelete => "queued_delete"@,
        AttachmentState::Synced => "synced"@,
        AttachmentState::Archived => "archived"@,
    }
}

/// The state with the given spelling.
pub open spec fn state_named(s: Seq<char>) -> Option<AttachmentState> {
    if s == "queued_upload"@ {
        Some(AttachmentState::QueuedUpload)
    } else if s == "queued_download"@ {
        Some(AttachmentState::QueuedDownload)
    } else if s == "queued_delete"@ {
        Some(AttachmentState::QueuedDelete)
    } else if s == "synced"@ {
        Some(AttachmentState::Synced)
    } else if s == "archived"@ {
        Some(AttachmentState::Archived)
    } else {
        None
    }
}

/// What is to be done for an attachment in a state.
pub open spec fn op_for(s: AttachmentState) -> Option<AttachmentOp> {
    match s {
        AttachmentState::QueuedUpload => Some(AttachmentOp::Upload),
        AttachmentState::QueuedDownload => Some(AttachmentOp::Download),
        AttachmentState::QueuedDelete => Some(AttachmentOp::Delete),
        _ => None,
    }
}

/// The state after that was done.
pub open spec fn done_state(s: AttachmentState) -> AttachmentState {
    match s {
        AttachmentState::QueuedUpload => AttachmentState::Synced,
        AttachmentState::QueuedDownload => AttachmentState::Synced,
        AttachmentState::QueuedDelete => AttachmentState::Archived,
        other => other,
    }
}

/// How long to wait after the given number of failures, in milliseconds: two to the
/// power of their number in seconds, and a minute at most.
pub open spec fn delay_ms(attempts: nat) -> int {
    if pow2(attempts) <= MAX_DELAY_SECS {
        pow2(attempts) as int * 1000
    } else {
        MAX_DELAY_SECS * 1000
    }
}

impl AttachmentState {
    /// The spelling of the state.
    pub fn as_wire_str(self) -> (r: &'static str)
        ensures
            r@ == state_name(self),
    {
        match self {
            AttachmentState::QueuedUpload => "queued_upload",
            AttachmentState::QueuedDownload => "queued_download",
            AttachmentState::QueuedDelete => "queued_delete",
            AttachmentState::Synced => "synced",
            AttachmentState::Archived => "archived",
        }
    }

    /// The state with the given spelling.
    pub fn from_wire_str(s: &str) -> (r: Option<Self>)
        ensures
            r == state_named(s@),
    {
        if same_text(s, "queued_upload") {
            Some(AttachmentState::QueuedUpload)
        } else if same_text(s, "queued_download") {
            Some(AttachmentState::QueuedDownload)
        } else if same_text(s, "queued_delete") {
            Some(AttachmentState::QueuedDelete)
        } else if same_text(s, "synced") {
            Some(AttachmentState::Synced)
        } else if same_text(s, "archived") {
            Some(AttachmentState::Archived)
        } else {
            None
        }
    }

    /// What is to be done, or nothing where the attachment is at rest.
    pub fn pending_op(self) -> (r: Option<AttachmentOp>)
        ensures
            r == op_for(self),
    {
        match self {
            AttachmentState::QueuedUpload => Some(AttachmentOp::Upload),
            AttachmentState::QueuedDownload => Some(AttachmentOp::Download),
            AttachmentState::QueuedDelete => Some(AttachmentOp::Delete),
            AttachmentState::Synced => None,
            AttachmentState::Archived => None,
        }
    }

    /// The state after that was done.
    pub fn on_success(self) -> (r: Self)
        ensures
            r == done_state(self),
    {
        match self {
            AttachmentState::QueuedUpload => AttachmentState::Synced,
            AttachmentState::QueuedDownload => AttachmentState::Synced,
            AttachmentState::QueuedDelete => AttachmentState::Archived,
            other => other,
        }
    }

    /// Whether something is to be done.
    pub fn is_queued(self) -> (r: bool)
        ensures
            r == (op_for(self) is Some),
    {
        match self {
            AttachmentState::QueuedUpload => true,
            AttachmentState::QueuedDownload => true,
            AttachmentState::QueuedDelete => true,
            AttachmentState::Synced => false,
            AttachmentState::Archived => false,
        }
    }
}

/// How long to wait before another try, in milliseconds, after `attempts` failures.
/// Nothing once there were `max_attempts`: the transfer is given up.
pub fn retry_after_ms(attempts: u32, max_attempts: u32) -> (r: Option<u64>)
    ensures
        r is None <==> attempts >= max_attempts,
        r is Some ==> r->0 == delay_ms(attempts as nat),
{
    if attempts >= max_attempts {
        return None;
    }
    let mut secs: u64 = 1;
    let mut i: u32 = 0;
    proof {
        lemma2_to64();
    }
    while i < attempts && i < 6
        invariant
            i <= attempts,
            i <= 6,
            secs == pow2(i as nat),
            secs <= 64,
            pow2(6) == 64,
        ensures
            secs == pow2(i as nat),
            i == attempts || (i == 6 && attempts > 6),
        decreases attempts - i,
    {
        proof {
            lemma_pow2_unfold((i + 1) as nat);
            if i < 5 {
                lemma_pow2_strictly_increases((i + 1) as nat, 6);
            }
        }
        secs = secs * 2;
        i += 1;
    }
    proof {
        if attempts > 6 {
            lemma_pow2_strictly_increases(6, attempts as nat);
        }
    }
    if secs <= MAX_DELAY_SECS {
        Some(secs * 1_000)
    } else {
        Some(MAX_DELAY_SECS * 1_000)
    }
}

/// What is written of a state reads back as that state.
pub proof fn law_state_round_trip(s: AttachmentState)
    ensures
        state_named(state_name(s)) == Some(s),
{
    reveal_strlit("queued_upload");
    reveal_strlit("queued_download");
    reveal_strlit("queued_delete");
    reveal_strlit("synced");
    reveal_strlit("archived");
    assert("queued_upload"@.len() == 13 && "queued_delete"@.len() == 13 && "queued_download"@.len()
        == 15 && "synced"@.len() == 6 && "archived"@.len() == 8);
    assert("queued_upload"@[7] == 'u' && "queued_delete"@[7] == 'd');
}

/// A success brings every attachment to rest, and leaves one at rest as it is.
pub proof fn law_success_comes_to_rest(s: AttachmentState)
    ensures
        op_for(done_state(s)) is None,
        op_for(s) is None ==> done_state(s) == s,
{
}

/// The waits double with every failure up to a minute, and never fall.
pub proof fn law_waits_double(attempts: nat)
    ensures
        delay_ms(0) == 1_000,
        delay_ms(attempts) <= delay_ms(attempts + 1) <= 60_000,
        delay_ms(attempts + 1) < 60_000 ==> delay_ms(attempts + 1) == 2 * delay_ms(attempts),
{
    lemma2_to64();
    lemma_pow2_unfold(attempts + 1);
}

} // verus!
