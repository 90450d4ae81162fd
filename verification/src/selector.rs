//! Turning a chosen entry id into the payload of a "next boot" write.
//!
//! The selector only validates the id against the catalog and encodes the
//! payload; the write to the platform variable is the caller's, and nothing
//! here assumes it succeeds.

use vstd::prelude::*;
use crate::catalog::{entries_view, BootEntry, EntryModel};
use crate::error::BootError;
use crate::wire::{le16_at, le16_bytes, lemma_le16_bytes_round_trip, write_le16};

verus! {

/// The payload's target variable may survive power cycles.
pub const ATTR_NON_VOLATILE: u32 = 0x1;

/// The payload's target variable is visible to boot services.
pub const ATTR_BOOT_SERVICE_ACCESS: u32 = 0x2;

/// The payload's target variable is visible at runtime.
pub const ATTR_RUNTIME_ACCESS: u32 = 0x4;

/// Whether some entry of the catalog carries the id.
pub open spec fn catalog_has_id(es: Seq<EntryModel>, id: u16) -> bool {
    exists|i: int| 0 <= i < es.len() && es[i].id == id
}

/// The well-known name of the variable that picks the next boot.
pub fn boot_next_name() -> (r: &'static str)
    ensures
        r@ == "BootNext"@,
{
    "BootNext"
}

/// The attributes a "next boot" write carries: non-volatile, visible to
/// boot services, visible at runtime.
pub fn boot_next_attributes() -> (r: u32)
    ensures
        r == ATTR_NON_VOLATILE + ATTR_BOOT_SERVICE_ACCESS + ATTR_RUNTIME_ACCESS,
{
    ATTR_NON_VOLATILE + ATTR_BOOT_SERVICE_ACCESS + ATTR_RUNTIME_ACCESS
}

/// Checks a chosen id against the catalog and encodes it as the two-byte
/// little-endian payload for the "next boot" variable; an id no entry
/// carries is reported as `NoSuchEntry`, and nothing is written.
pub fn select_boot_id(catalog: &Vec<BootEntry>, id: u16) -> (r: Result<Vec<u8>, BootError>)
    ensures
        catalog_has_id(entries_view(catalog@), id) ==> (r matches Ok(p) && p@ == le16_bytes(id)
            && p@.len() == 2 && le16_at(p@, 0) == id),
        !catalog_has_id(entries_view(catalog@), id) ==> r == Err::<Vec<u8>, BootError>(
            BootError::NoSuchEntry,
        ),
{
    proof {
        lemma_le16_bytes_round_trip(id);
    }
    let ghost es = entries_view(catalog@);
    let mut i: usize = 0;
    while i < catalog.len()
        invariant
            i <= catalog@.len(),
            es == entries_view(catalog@),
            forall|j: int| 0 <= j < i ==> (#[trigger] es[j]).id != id,
        decreases catalog@.len() - i,
    {
        if catalog[i].id == id {
            proof {
                assert(es[i as int].id == id);
            }
            return Ok(write_le16(id));
        }
        proof {
            assert(es[i as int].id == catalog@[i as int].id);
        }
        i = i + 1;
    }
    Err(BootError::NoSuchEntry)
}

} // verus!
