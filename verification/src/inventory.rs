//! Per-commodity stock ledger: capacity, stored amount, reserved amount.

use vstd::prelude::*;

verus! {

/// Default storage ceiling of a freshly created inventory.
pub const DEFAULT_INVENTORY_CAPACITY: u32 = 100;

/// Default starting stock of a freshly created inventory.
pub const DEFAULT_INVENTORY_AMOUNT: u32 = 10;

/// A violated guard on an inventory mutation. Reaching one of these means the
/// caller authorized a mutation its own pre-check did not cover: a
/// programming error, not a recoverable scarcity condition.
#[derive(Debug, Clone, Copy, PartialEq, Eq, Structural)]
pub enum InventoryError {
    /// `add` was asked to store more than the free room.
    CapacityExceeded,
    /// `remove` was asked to take more than the stored amount.
    InsufficientStock,
    /// `reserve` was asked to earmark more than the unreserved stock.
    OverReservation,
    /// `unreserve` was asked to release more than is reserved.
    UnderReservation,
}

/// The inventory every newly configured commodity starts with: default
/// starting stock under the default capacity, nothing reserved.
pub open spec fn default_inventory() -> Inventory {
    Inventory {
        capacity: DEFAULT_INVENTORY_CAPACITY,
        amount: DEFAULT_INVENTORY_AMOUNT,
        ideal_amount: DEFAULT_INVENTORY_AMOUNT,
        reserved: 0u32,
    }
}

/// Stock ledger for one commodity. Always satisfies
/// `reserved <= amount <= capacity` (see [`Inventory::wf`]): every mutating
/// operation checks its guard first and refuses, unchanged, when it fails.
#[derive(Debug, Clone, Copy)]
pub struct Inventory {
    /// Maximum storable amount.
    pub capacity: u32,
    /// Currently stored amount.
    pub amount: u32,
    /// Desired stock level; kept for the trade subsystem, unused here.
    pub ideal_amount: u32,
    /// Portion of `amount` earmarked for in-flight production inputs.
    pub reserved: u32,
}

impl Inventory {
    /// The inventory invariant: `reserved <= amount <= capacity`.
    pub open spec fn wf(self) -> bool {
        self.reserved <= self.amount <= self.capacity
    }

    /// Room left to add: `capacity - amount`.
    pub open spec fn spec_free(self) -> u32
        recommends
            self.wf(),
    {
        (self.capacity - self.amount) as u32
    }

    /// Stock available to consume or reserve further: `amount - reserved`.
    pub open spec fn spec_unreserved(self) -> u32
        recommends
            self.wf(),
    {
        (self.amount - self.reserved) as u32
    }

    /// A fresh inventory holding the default starting stock, nothing
    /// reserved.
    pub fn new(capacity: u32) -> (r: Self)
        requires
            capacity >= DEFAULT_INVENTORY_AMOUNT,
        ensures
            r == (Inventory {
                capacity,
                amount: DEFAULT_INVENTORY_AMOUNT,
                ideal_amount: DEFAULT_INVENTORY_AMOUNT,
                reserved: 0u32,
            }),
            r.wf(),
    {
        Self {
            amount: DEFAULT_INVENTORY_AMOUNT,
            capacity,
            reserved: 0,
            ideal_amount: DEFAULT_INVENTORY_AMOUNT,
        }
    }

    /// Room left to add, recomputed from the stored fields on every call.
    pub fn free(&self) -> (r: u32)
        requires
            self.wf(),
        ensures
            r == self.spec_free(),
    {
        self.capacity - self.amount
    }

    /// Stock available to consume or reserve further, recomputed on every
    /// call.
    pub fn unreserved(&self) -> (r: u32)
        requires
            self.wf(),
        ensures
            r == self.spec_unreserved(),
    {
        self.amount - self.reserved
    }

    /// Store `amount` more units; refused with `CapacityExceeded` when the
    /// free room is smaller.
    pub fn add(&mut self, amount: u32) -> (r: Result<(), InventoryError>)
        requires
            old(self).wf(),
        ensures
            final(self).wf(),
            amount <= old(self).spec_free() ==> r is Ok && *final(self) == (Inventory {
                amount: (old(self).amount + amount) as u32,
                ..*old(self)
            }),
            amount > old(self).spec_free() ==> r == Err::<(), InventoryError>(
                InventoryError::CapacityExceeded,
            ) && *final(self) == *old(self),
    {
        if amount > self.free() {
            return Err(InventoryError::CapacityExceeded);
        }
        self.amount = self.amount + amount;
        Ok(())
    }

    /// Take `amount` units out of stock; refused with `InsufficientStock`
    /// when less than that is stored.
    pub fn remove(&mut self, amount: u32) -> (r: Result<(), InventoryError>)
        requires
            old(self).wf(),
        ensures
            amount <= old(self).amount && old(self).reserved <= old(self).amount - amount
                ==> final(self).wf(),
            amount <= old(self).amount ==> r is Ok && *final(self) == (Inventory {
                amount: (old(self).amount - amount) as u32,
                ..*old(self)
            }),
            amount > old(self).amount ==> r == Err::<(), InventoryError>(
                InventoryError::InsufficientStock,
            ) && *final(self) == *old(self),
    {
        if amount > self.amount {
            return Err(InventoryError::InsufficientStock);
        }
        self.amount = self.amount - amount;
        Ok(())
    }

    /// Earmark `amount` more units for an in-flight job's inputs; refused
    /// with `OverReservation` when less than that is unreserved.
    pub fn reserve(&mut self, amount: u32) -> (r: Result<(), InventoryError>)
        requires
            old(self).wf(),
        ensures
            final(self).wf(),
            amount <= old(self).spec_unreserved() ==> r is Ok && *final(self) == (Inventory {
                reserved: (old(self).reserved + amount) as u32,
                ..*old(self)
            }),
            amount > old(self).spec_unreserved() ==> r == Err::<(), InventoryError>(
                InventoryError::OverReservation,
            ) && *final(self) == *old(self),
    {
        if amount > self.unreserved() {
            return Err(InventoryError::OverReservation);
        }
        self.reserved = self.reserved + amount;
        Ok(())
    }

    /// Release `amount` units of reservation; refused with
    /// `UnderReservation` when less than that is reserved.
    pub fn unreserve(&mut self, amount: u32) -> (r: Result<(), InventoryError>)
        requires
            old(self).wf(),
        ensures
            final(self).wf(),
            amount <= old(self).reserved ==> r is Ok && *final(self) == (Inventory {
                reserved: (old(self).reserved - amount) as u32,
                ..*old(self)
            }),
            amount > old(self).reserved ==> r == Err::<(), InventoryError>(
                InventoryError::UnderReservation,
            ) && *final(self) == *old(self),
    {
        if amount > self.reserved {
            return Err(InventoryError::UnderReservation);
        }
        self.reserved = self.reserved - amount;
        Ok(())
    }
}

} // verus!
