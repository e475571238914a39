//! PCI slot addresses and the allocator that hands them out.

use vstd::prelude::*;
use crate::error::FormatError;
use crate::numeric::{dec_u8_spec, parse_u8};
use crate::text::{concat, dec_text, decimal, owned, split_char, split_spec};
use crate::util::vec_sequence_map;

verus! {

/// A PCI address `bus:slot:func`.
#[derive(Debug, Clone, Copy, PartialEq, Eq, Structural, PartialOrd, Ord, Hash)]
pub struct PciSlot {
    pub bus: u8,
    pub slot: u8,
    pub func: u8,
}

/// The slot written as one, two or three `:`-separated decimal numbers:
/// `slot`, `slot:func` or `bus:slot:func`, missing parts being 0.
pub open spec fn slot_repr_spec(s: Seq<char>) -> Option<PciSlot> {
    let c = split_spec(s, ':');
    if c.len() == 1 {
        match dec_u8_spec(c[0]) {
            Some(a) => Some(PciSlot { bus: 0, slot: a, func: 0 }),
            None => None,
        }
    } else if c.len() == 2 {
        match (dec_u8_spec(c[0]), dec_u8_spec(c[1])) {
            (Some(a), Some(b)) => Some(PciSlot { bus: 0, slot: a, func: b }),
            _ => None,
        }
    } else if c.len() == 3 {
        match (dec_u8_spec(c[0]), dec_u8_spec(c[1]), dec_u8_spec(c[2])) {
            (Some(a), Some(b), Some(d)) => Some(PciSlot { bus: a, slot: b, func: d }),
            _ => None,
        }
    } else {
        None
    }
}

/// `bus<sep>slot<sep>func` in decimal.
pub open spec fn slot_text(p: PciSlot, sep: Seq<char>) -> Seq<char> {
    dec_text(p.bus as nat) + sep + dec_text(p.slot as nat) + sep + dec_text(p.func as nat)
}

/// One decimal component of a slot.
fn parse_component(m: &String) -> (r: Result<u8, FormatError>)
    ensures
        match r {
            Ok(v) => dec_u8_spec(m@) == Some(v),
            Err(_) => dec_u8_spec(m@) is None,
        },
{
    match parse_u8(m.as_str()) {
        Some(v) => Ok(v),
        None => Err(FormatError::InvalidValue(owned(m.as_str()))),
    }
}

impl PciSlot {
    /// Reads a slot written as `bus:slot:func`, `slot:func` or `slot`.
    pub fn parse(s: &str) -> (r: Result<PciSlot, FormatError>)
        ensures
            match r {
                Ok(p) => slot_repr_spec(s@) == Some(p),
                Err(FormatError::InvalidPciSlotRepr(t)) => slot_repr_spec(s@) is None && t@
                    == s@,
                Err(_) => false,
            },
    {
        let comps = split_char(s, ':');
        proof {
            assert(comps@.len() == split_spec(s@, ':').len());
        }
        if comps.len() > 3 || comps.len() < 1 {
            return Err(FormatError::InvalidPciSlotRepr(owned(s)));
        }
        let nums = match vec_sequence_map(
            comps.as_slice(),
            parse_component,
        ) {
            Ok(v) => v,
            Err(_) => {
                proof {
                    assert(forall|i: int| 0 <= i < comps@.len() ==> comps@[i]@ == split_spec(s@, ':')[i]);
                }
                return Err(FormatError::InvalidPciSlotRepr(owned(s)));
            },
        };
        proof {
            assert(forall|i: int| 0 <= i < comps@.len() ==> comps@[i]@ == split_spec(s@, ':')[i]);
        }
        if nums.len() == 1 {
            Ok(PciSlot { bus: 0, slot: nums[0], func: 0 })
        } else if nums.len() == 2 {
            Ok(PciSlot { bus: 0, slot: nums[0], func: nums[1] })
        } else {
            Ok(PciSlot { bus: nums[0], slot: nums[1], func: nums[2] })
        }
    }

    /// Reads a slot as `parse` does, then checks `slot <= 31` and `func <= 7`.
    pub fn from_bhyve_vpci_slot(s: &str) -> (r: Result<PciSlot, FormatError>)
        ensures
            match slot_repr_spec(s@) {
                None => r matches Err(FormatError::InvalidPciSlotRepr(t)) && t@ == s@,
                Some(p) => if p.slot > 31 {
                    r matches Err(FormatError::PciSlotValueOverflow { component, value, max })
                        && component@ == "slot"@ && value == p.slot && max == 31
                } else if p.func > 7 {
                    r matches Err(FormatError::PciSlotValueOverflow { component, value, max })
                        && component@ == "func"@ && value == p.func && max == 7
                } else {
                    r == Ok::<PciSlot, FormatError>(p)
                },
            },
    {
        let pci = PciSlot::parse(s)?;
        if pci.slot > 31 {
            Err(
                FormatError::PciSlotValueOverflow {
                    component: owned("slot"),
                    value: pci.slot,
                    max: 31,
                },
            )
        } else if pci.func > 7 {
            Err(
                FormatError::PciSlotValueOverflow {
                    component: owned("func"),
                    value: pci.func,
                    max: 7,
                },
            )
        } else {
            Ok(pci)
        }
    }

    /// `bus:slot:func`, as the `-s` option writes it.
    pub fn as_bhyve_arg(&self) -> (r: String)
        ensures
            r@ == slot_text(*self, ":"@),
    {
        self.joined(":")
    }

    /// `bus/slot/func`, as a pass-through device is named.
    pub fn as_passthru_arg(&self) -> (r: String)
        ensures
            r@ == slot_text(*self, "/"@),
    {
        self.joined("/")
    }

    fn joined(&self, sep: &str) -> (r: String)
        ensures
            r@ == slot_text(*self, sep@),
    {
        let s = concat(decimal(self.bus as u64), sep);
        let s = concat(s, decimal(self.slot as u64).as_str());
        let s = concat(s, sep);
        concat(s, decimal(self.func as u64).as_str())
    }
}

impl std::str::FromStr for PciSlot {
    type Err = FormatError;

    fn from_str(s: &str) -> Result<PciSlot, FormatError> {
        PciSlot::parse(s)
    }
}

/// Position of `(bus, slot)` in the allocator's walking order.
pub open spec fn lex_pos(bus: int, slot: int) -> int {
    bus * 32 + slot
}

/// The last position of the walk: `(255, 31)`.
pub open spec fn end_pos() -> int {
    lex_pos(255, 31)
}

/// The slot with function 0 at `(bus, slot)`.
pub open spec fn slot_of(bus: int, slot: int) -> PciSlot {
    PciSlot { bus: bus as u8, slot: slot as u8, func: 0 }
}

/// `next_slot` may issue `(bus, slot)`: it is a real position other than the
/// last slot of a bus, and no reserved entry equals it.
pub open spec fn free_at(skip: Seq<PciSlot>, bus: int, slot: int) -> bool {
    &&& 0 <= bus <= 255
    &&& 0 <= slot < 31
    &&& !skip.contains(slot_of(bus, slot))
}

/// No position in `[lo, hi)` may be issued.
pub open spec fn none_free_between(skip: Seq<PciSlot>, lo: int, hi: int) -> bool {
    forall|b: int, s: int|
        0 <= s <= 31 && lo <= lex_pos(b, s) < hi ==> !#[trigger] free_at(skip, b, s)
}

/// Some entry of `skip` sits at `(bus, slot)`, whatever its function.
pub open spec fn reserves_bus_slot(skip: Seq<PciSlot>, bus: u8, slot: u8) -> bool {
    exists|i: int| 0 <= i < skip.len() && #[trigger] skip[i].bus == bus && skip[i].slot == slot
}

/// Returns whether `v` holds `s`.
pub fn slot_listed(v: &Vec<PciSlot>, s: PciSlot) -> (r: bool)
    ensures
        r == v@.contains(s),
{
    let mut i: usize = 0;
    while i < v.len()
        invariant
            i <= v.len(),
            forall|j: int| 0 <= j < i ==> v@[j] != s,
        decreases v.len() - i,
    {
        if v[i] == s {
            assert(v@[i as int] == s);
            return true;
        }
        i = i + 1;
    }
    proof {
        assert forall|j: int| 0 <= j < v@.len() implies v@[j] != s by {}
    }
    false
}

/// Returns whether some entry of `v` sits at `(bus, slot)`.
fn bus_slot_listed(v: &Vec<PciSlot>, bus: u8, slot: u8) -> (r: bool)
    ensures
        r == reserves_bus_slot(v@, bus, slot),
{
    let mut i: usize = 0;
    while i < v.len()
        invariant
            i <= v.len(),
            forall|j: int| 0 <= j < i ==> !(v@[j].bus == bus && v@[j].slot == slot),
        decreases v.len() - i,
    {
        if v[i].bus == bus && v[i].slot == slot {
            return true;
        }
        i = i + 1;
    }
    false
}

/// Issues PCI slots in order, skipping those reserved.
#[derive(Debug)]
pub struct PciSlotGenerator {
    bus: u8,
    slot: u8,
    skip: Vec<PciSlot>,
}

impl PciSlotGenerator {
    /// Bus of the cursor.
    pub closed spec fn cur_bus(&self) -> int {
        self.bus as int
    }

    /// Slot of the cursor.
    pub closed spec fn cur_slot(&self) -> int {
        self.slot as int
    }

    /// The reserved slots: declared up front, or issued ahead of the cursor.
    pub closed spec fn reserved(&self) -> Seq<PciSlot> {
        self.skip@
    }

    pub open spec fn cur_pos(&self) -> int {
        lex_pos(self.cur_bus(), self.cur_slot())
    }

    pub open spec fn wf(&self) -> bool {
        &&& 0 <= self.cur_bus() <= 255
        &&& 0 <= self.cur_slot() <= 31
    }

    pub fn build(bus: u8, slot: u8, skip: Vec<PciSlot>) -> (r: PciSlotGenerator)
        requires
            slot <= 31,
        ensures
            r.wf(),
            r.cur_bus() == bus,
            r.cur_slot() == slot,
            r.reserved() == skip@,
    {
        PciSlotGenerator { bus, slot, skip }
    }

    /// Issues the first free position at or after the cursor, and moves the
    /// cursor past it; `None` once the walk reaches `(255, 31)`.
    pub fn next_slot(&mut self) -> (r: Option<PciSlot>)
        requires
            old(self).wf(),
        ensures
            final(self).wf(),
            final(self).reserved() == old(self).reserved(),
            match r {
                Some(x) => {
                    &&& x == slot_of(x.bus as int, x.slot as int)
                    &&& free_at(old(self).reserved(), x.bus as int, x.slot as int)
                    &&& old(self).cur_pos() <= lex_pos(x.bus as int, x.slot as int)
                    &&& none_free_between(
                        old(self).reserved(),
                        old(self).cur_pos(),
                        lex_pos(x.bus as int, x.slot as int),
                    )
                    &&& final(self).cur_pos() == lex_pos(x.bus as int, x.slot as int) + 1
                },
                None => {
                    &&& none_free_between(old(self).reserved(), old(self).cur_pos(), end_pos())
                    &&& final(self).cur_bus() == 255
                    &&& final(self).cur_slot() == 31
                },
            },
    {
        loop
            invariant
                self.wf(),
                self.reserved() == old(self).reserved(),
                old(self).cur_pos() <= self.cur_pos(),
                none_free_between(self.reserved(), old(self).cur_pos(), self.cur_pos()),
            decreases end_pos() - self.cur_pos(),
        {
            if self.bus == 255 && self.slot == 31 {
                return None;
            }
            if self.slot == 31 {
                self.bus = self.bus + 1;
                self.slot = 0;
            } else {
                let ret = PciSlot { bus: self.bus, slot: self.slot, func: 0 };
                self.slot = self.slot + 1;
                if !slot_listed(&self.skip, ret) {
                    return Some(ret);
                }
            }
        }
    }

    /// Issues the lowest free slot of `bus`; when the cursor is on `bus`,
    /// this is `next_slot`, and once the cursor has passed it, `None`.
    pub fn try_take_specific_bus(&mut self, bus: u8) -> (r: Option<PciSlot>)
        requires
            old(self).wf(),
        ensures
            final(self).wf(),
            old(self).cur_bus() > bus ==> r is None && *final(self) == *old(self),
            old(self).cur_bus() == bus ==> match r {
                Some(x) => {
                    &&& x == slot_of(x.bus as int, x.slot as int)
                    &&& free_at(old(self).reserved(), x.bus as int, x.slot as int)
                    &&& old(self).cur_pos() <= lex_pos(x.bus as int, x.slot as int)
                    &&& none_free_between(
                        old(self).reserved(),
                        old(self).cur_pos(),
                        lex_pos(x.bus as int, x.slot as int),
                    )
                    &&& final(self).cur_pos() == lex_pos(x.bus as int, x.slot as int) + 1
                    &&& final(self).reserved() == old(self).reserved()
                },
                None => {
                    &&& none_free_between(old(self).reserved(), old(self).cur_pos(), end_pos())
                    &&& final(self).cur_bus() == 255
                    &&& final(self).cur_slot() == 31
                    &&& final(self).reserved() == old(self).reserved()
                },
            },
            old(self).cur_bus() < bus ==> match r {
                Some(x) => {
                    &&& x.bus == bus
                    &&& x.func == 0
                    &&& x.slot <= 31
                    &&& !old(self).reserved().contains(x)
                    &&& forall|s: int|
                        0 <= s < x.slot ==> old(self).reserved().contains(
                            #[trigger] slot_of(bus as int, s),
                        )
                    &&& final(self).reserved() == old(self).reserved().push(x)
                    &&& final(self).cur_bus() == old(self).cur_bus()
                    &&& final(self).cur_slot() == old(self).cur_slot()
                },
                None => {
                    &&& forall|s: int|
                        0 <= s <= 31 ==> old(self).reserved().contains(
                            #[trigger] slot_of(bus as int, s),
                        )
                    &&& *final(self) == *old(self)
                },
            },
    {
        if self.bus > bus {
            None
        } else if self.bus == bus {
            self.next_slot()
        } else {
            let mut slot = PciSlot { bus, slot: 0, func: 0 };
            while slot_listed(&self.skip, slot)
                invariant
                    slot.bus == bus,
                    slot.func == 0,
                    slot.slot <= 31,
                    forall|s: int|
                        0 <= s < slot.slot ==> self.skip@.contains(#[trigger] slot_of(bus as int, s)),
                    *self == *old(self),
                    old(self).wf(),
                    old(self).cur_bus() < bus,
                decreases 31 - slot.slot,
            {
                assert(slot == slot_of(bus as int, slot.slot as int));
                if slot.slot == 31 {
                    return None;
                }
                slot.slot = slot.slot + 1;
            }
            self.skip.push(slot);
            Some(slot)
        }
    }

    /// Issues `(bus, slot, 0)` unless it is reserved or the cursor has
    /// passed it; when the cursor stands on it, this is `next_slot`.
    pub fn try_take_specific_bus_slot(&mut self, bus: u8, slot: u8) -> (r: Option<PciSlot>)
        requires
            old(self).wf(),
        ensures
            final(self).wf(),
            ({
                let passed = reserves_bus_slot(old(self).reserved(), bus, slot) || old(
                    self,
                ).cur_bus() > bus || (old(self).cur_bus() == bus && old(self).cur_slot()
                    > slot);
                let on_cursor = old(self).cur_bus() == bus && old(self).cur_slot() == slot;
                &&& passed ==> r is None && *final(self) == *old(self)
                &&& !passed && on_cursor ==> match r {
                    Some(x) => {
                        &&& x == slot_of(x.bus as int, x.slot as int)
                        &&& free_at(old(self).reserved(), x.bus as int, x.slot as int)
                        &&& old(self).cur_pos() <= lex_pos(x.bus as int, x.slot as int)
                        &&& none_free_between(
                            old(self).reserved(),
                            old(self).cur_pos(),
                            lex_pos(x.bus as int, x.slot as int),
                        )
                        &&& final(self).cur_pos() == lex_pos(x.bus as int, x.slot as int) + 1
                        &&& final(self).reserved() == old(self).reserved()
                    },
                    None => {
                        &&& none_free_between(
                            old(self).reserved(),
                            old(self).cur_pos(),
                            end_pos(),
                        )
                        &&& final(self).cur_bus() == 255
                        &&& final(self).cur_slot() == 31
                        &&& final(self).reserved() == old(self).reserved()
                    },
                }
                &&& !passed && !on_cursor ==> {
                    &&& r == Some(PciSlot { bus, slot, func: 0 })
                    &&& final(self).reserved() == old(self).reserved().push(
                        PciSlot { bus, slot, func: 0 },
                    )
                    &&& final(self).cur_bus() == old(self).cur_bus()
                    &&& final(self).cur_slot() == old(self).cur_slot()
                }
            }),
    {
        if bus_slot_listed(&self.skip, bus, slot) || self.bus > bus || (self.bus == bus
            && self.slot > slot) {
            None
        } else if self.bus == bus && self.slot == slot {
            self.next_slot()
        } else {
            let s = PciSlot { bus, slot, func: 0 };
            self.skip.push(s);
            Some(s)
        }
    }
}

} // verus!
