//! The names of the collections that a host keeps for the library, and the keys under which
//! it keeps them.

use vstd::prelude::*;
use vstd::bytes::{spec_u64_to_le_bytes, u64_to_le_bytes};
use crate::types::PoolId;

verus! {

/// The collections a host keeps for the escrow engine.
#[derive(Clone, Copy, Debug, PartialEq, Eq, Structural)]
pub enum LaunchpadStorageKey {
    AllPoolId,
    PoolMetadataById,
    UserRecordsMap,
    UserRecordsById { pool_id: PoolId },
}

/// The collections a host keeps for the sponsors' book.
#[derive(Clone, Copy, Debug, PartialEq, Eq, Structural)]
pub enum CourseStorageKey {
    CourseById,
    AllCourseId,
}

/// The collections a host keeps for the treasury.
#[derive(Clone, Copy, Debug, PartialEq, Eq, Structural)]
pub enum PaymentStorageKey {
    RecordUserById,
    AllUserId,
}

/// The four bytes that every ledger key starts with: `user`.
pub open spec fn user_tag() -> Seq<u8> {
    seq![117u8, 115u8, 101u8, 114u8]
}

impl LaunchpadStorageKey {
    /// The key of the ledger of one pool: the tag `user`, then the pool id in eight bytes,
    /// lowest byte first.
    pub fn user_records_prefix(pool_id: PoolId) -> (prefix: Vec<u8>)
        ensures
            prefix@ == user_tag() + spec_u64_to_le_bytes(pool_id),
            prefix@.len() == 12,
    {
        let mut prefix: Vec<u8> = Vec::with_capacity(12);
        prefix.push(117u8);
        prefix.push(115u8);
        prefix.push(101u8);
        prefix.push(114u8);
        assert(prefix@ =~= user_tag());
        let mut id = u64_to_le_bytes(pool_id);
        prefix.append(&mut id);
        prefix
    }
}

} // verus!
