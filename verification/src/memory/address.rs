//! Addresses: what makes a virtual address canonical, and the translation
//! from physical to kernel-visible virtual addresses by a fixed offset.
use vstd::prelude::*;
use x86_64::VirtAddr;

verus! {

/// The canonical form of a 64-bit virtual address, if it has one. Bits 47
/// to 63 must be all clear or all set; an address with bit 47 set and the
/// bits above it clear is completed by setting them. Any other value is no
/// address.
pub open spec fn canonical(addr: u64) -> Option<u64> {
    let top = addr as int / 0x8000_0000_0000;
    if top == 0 || top == 0x1_ffff {
        Some(addr)
    } else if top == 1 {
        Some((addr + 0xffff_0000_0000_0000) as u64)
    } else {
        None
    }
}

/// `VirtAddr::try_new` followed by `VirtAddr::as_u64`: the canonical form of
/// `addr`, or `None` where `try_new` returns its error.
#[verifier::external_body]
fn virt_addr_try_new(addr: u64) -> (r: Option<u64>)
    ensures
        r == canonical(addr),
{
    match VirtAddr::try_new(addr) {
        Ok(v) => Some(v.as_u64()),
        Err(_) => None,
    }
}

/// Why a physical address has no virtual counterpart.
#[derive(Clone, Copy, Debug, PartialEq, Eq, Structural)]
pub enum AddressError {
    /// Physical address plus offset lies beyond the last address.
    Overflow,
    /// The sum is not a canonical virtual address.
    NotCanonical,
    /// The sum is the null address.
    Null,
}

/// What `phys_to_virt` returns.
pub open spec fn translated(offset: u64, physical: u64) -> Result<u64, AddressError> {
    if offset + physical > u64::MAX {
        Err(AddressError::Overflow)
    } else if offset + physical == 0 {
        Err(AddressError::Null)
    } else {
        match canonical((offset + physical) as u64) {
            Some(v) => Ok(v),
            None => Err(AddressError::NotCanonical),
        }
    }
}

/// The kernel-visible virtual address of the physical address `physical`,
/// given the offset at which all physical memory is mapped.
pub fn phys_to_virt(offset: u64, physical: u64) -> (r: Result<u64, AddressError>)
    ensures
        r == translated(offset, physical),
{
    if physical > u64::MAX - offset {
        return Err(AddressError::Overflow);
    }
    let sum: u64 = offset + physical;
    if sum == 0 {
        return Err(AddressError::Null);
    }
    match virt_addr_try_new(sum) {
        Some(v) => Ok(v),
        None => Err(AddressError::NotCanonical),
    }
}

} // verus!
