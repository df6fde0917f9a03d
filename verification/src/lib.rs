//! Server-side core for a collaborative text editor.
//!
//! Documents are edited concurrently by many clients through operational
//! transformation (OT): each client sends edits relative to a possibly stale
//! revision, and the server rebases them against the committed history before
//! applying them. This crate holds the verified heart of that server: the
//! per-document session state machine, the OT model and cursor mapping, the
//! message types, and the small decision rules used by the background
//! persistence and garbage-collection loops. The surrounding I/O (sockets,
//! database, timers) lives outside the library and only calls into it.

use vstd::prelude::*;
use vstd::string::StrSliceExecFns;
use vstd::string::StringExecFns;

pub mod database;
pub mod ot;
pub mod rustpad;

verus! {

/// Number of characters in a generated document identifier.
pub const DOC_ID_LEN: usize = 6;

/// The alphabet that generated document identifiers draw from: ASCII
/// letters and digits.
pub open spec fn id_alphabet() -> Seq<char> {
    "abcdefghijklmnopqrstuvwxyzABCDEFGHIJKLMNOPQRSTUVWXYZ0123456789"@
}

/// Relies on `rand::random` for a uniformly sampled value; nothing is
/// assumed about which value comes back.
#[verifier::external_body]
fn random_u32() -> u32 {
    rand::random()
}

/// Generates a random document identifier: [`DOC_ID_LEN`] characters, each
/// drawn from [`id_alphabet`].
pub fn generate_document_id() -> (r: String)
    ensures
        r@.len() == DOC_ID_LEN as nat,
        forall|i: int| 0 <= i < r@.len() ==> id_alphabet().contains(#[trigger] r@[i]),
{
    let charset = "abcdefghijklmnopqrstuvwxyzABCDEFGHIJKLMNOPQRSTUVWXYZ0123456789";
    let mut out = String::new();
    let mut k: usize = 0;
    while k < DOC_ID_LEN
        invariant
            charset@ == id_alphabet(),
            0 <= k <= DOC_ID_LEN,
            out@.len() == k,
            forall|i: int| 0 <= i < out@.len() ==> id_alphabet().contains(#[trigger] out@[i]),
        decreases DOC_ID_LEN - k,
    {
        proof {
            reveal_strlit("abcdefghijklmnopqrstuvwxyzABCDEFGHIJKLMNOPQRSTUVWXYZ0123456789");
        }
        let idx = (random_u32() % 62) as usize;
        let piece = charset.substring_char(idx, idx + 1);
        out.append(piece);
        proof {
            assert(piece@[0] == charset@[idx as int]);
            assert(id_alphabet().contains(charset@[idx as int]));
        }
        k = k + 1;
    }
    out
}

/// Decides whether an idle document should be evicted from memory: true
/// exactly when more than `expiry_days` days have passed since the last
/// access. Times are in seconds.
pub fn should_evict(now_secs: u64, last_accessed_secs: u64, expiry_days: u32) -> (r: bool)
    ensures
        r <==> last_accessed_secs + (expiry_days as u64) * 86400 < now_secs,
{
    proof {
        assert((expiry_days as u64) * 86400 <= 0xffff_ffffu64 * 86400) by (nonlinear_arith);
    }
    let expiry_secs: u64 = (expiry_days as u64) * 86400;
    last_accessed_secs < now_secs && now_secs - last_accessed_secs > expiry_secs
}

/// Decides whether the persister should write a snapshot: true exactly when
/// the revision has advanced past the last successfully persisted one.
pub fn needs_persist(last_persisted: usize, revision: usize) -> (r: bool)
    ensures
        r <==> revision > last_persisted,
{
    revision > last_persisted
}

} // verus!
