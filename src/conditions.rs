//! Conditions that a host must meet before the hypervisor starts. A
//! condition is data; checking it against a `HostView` yields `Ok` or the
//! `Assertion` that says what is wrong and whether a repair can clear it.

use vstd::prelude::*;
use crate::assertion::{Assertion, RepairAction};
use crate::host::{keyed, lemma_pci_index_bounds, pci_index, FsKind, HostView, lookup};
use crate::slot::{slot_text, PciSlot};
use crate::text::{concat, dec_text, decimal, is_prefix, owned, starts_with};
use crate::vm::NetBackend;

verus! {

/// An entry of the file system, by the kind it must have.
#[derive(Debug, Clone, PartialEq, Eq)]
pub enum FsEntity {
    /// A regular file.
    File(String),
    /// A directory.
    Directory(String),
    /// A device node; checked as a regular file is.
    Node(String),
    /// Anything that can be reached.
    FsItem(String),
}

pub open spec fn entity_path(e: FsEntity) -> Seq<char> {
    match e {
        FsEntity::File(p) => p@,
        FsEntity::Directory(p) => p@,
        FsEntity::Node(p) => p@,
        FsEntity::FsItem(p) => p@,
    }
}

pub open spec fn missing_text(p: Seq<char>) -> Seq<char> {
    "Entity at \""@ + p + "\" does not exists or do not have permission to access"@
}

pub open spec fn wrong_kind_text(p: Seq<char>, what: Seq<char>) -> Seq<char> {
    "Entity \""@ + p + "\" exists but is not a "@ + what
}

/// Why `e` is not met when its path names `k`; `None` when it is met.
pub open spec fn entity_failure(e: FsEntity, k: FsKind) -> Option<Seq<char>> {
    match e {
        FsEntity::File(p) => if k == FsKind::File {
            None
        } else if k == FsKind::Absent {
            Some(missing_text(p@))
        } else {
            Some(wrong_kind_text(p@, "regular file"@))
        },
        FsEntity::Node(p) => if k == FsKind::File {
            None
        } else if k == FsKind::Absent {
            Some(missing_text(p@))
        } else {
            Some(wrong_kind_text(p@, "regular file"@))
        },
        FsEntity::Directory(p) => if k == FsKind::Directory {
            None
        } else if k == FsKind::Absent {
            Some(missing_text(p@))
        } else {
            Some(wrong_kind_text(p@, "directory"@))
        },
        FsEntity::FsItem(_) => if k == FsKind::Absent {
            Some("Entity does not exists or do not have permission to access"@)
        } else {
            None
        },
    }
}

impl FsEntity {
    pub fn path(&self) -> (r: &String)
        ensures
            r@ == entity_path(*self),
            *r == entity_string(*self),
    {
        match self {
            FsEntity::File(p) => p,
            FsEntity::Directory(p) => p,
            FsEntity::Node(p) => p,
            FsEntity::FsItem(p) => p,
        }
    }

    /// Whether the entity is there, given what its path names.
    pub fn entity_exists(&self, kind: FsKind) -> (r: Result<(), String>)
        ensures
            match entity_failure(*self, kind) {
                None => r is Ok,
                Some(why) => r matches Err(w) && w@ == why,
            },
    {
        match self {
            FsEntity::File(p) | FsEntity::Node(p) => {
                if kind == FsKind::File {
                    Ok(())
                } else if kind == FsKind::Absent {
                    Err(missing(p))
                } else {
                    Err(wrong_kind(p, "regular file"))
                }
            },
            FsEntity::Directory(p) => {
                if kind == FsKind::Directory {
                    Ok(())
                } else if kind == FsKind::Absent {
                    Err(missing(p))
                } else {
                    Err(wrong_kind(p, "directory"))
                }
            },
            FsEntity::FsItem(_) => {
                if kind == FsKind::Absent {
                    Err(owned("Entity does not exists or do not have permission to access"))
                } else {
                    Ok(())
                }
            },
        }
    }
}

fn missing(p: &String) -> (r: String)
    ensures
        r@ == missing_text(p@),
{
    let s = concat(owned("Entity at \""), p.as_str());
    concat(s, "\" does not exists or do not have permission to access")
}

fn wrong_kind(p: &String, what: &str) -> (r: String)
    ensures
        r@ == wrong_kind_text(p@, what@),
{
    let s = concat(owned("Entity \""), p.as_str());
    let s = concat(s, "\" exists but is not a ");
    concat(s, what)
}

/// Always met.
#[derive(Debug)]
pub struct NoCond {}

/// Never met: a misconfiguration found while compiling.
#[derive(Debug)]
pub struct GenericFatalCondition {
    pub name: String,
    pub message: String,
}

/// Never met: an I/O error met while preparing the run.
#[derive(Debug)]
pub struct FatalIoError {
    pub inner: String,
}

/// The entity must exist.
#[derive(Debug)]
pub struct Existence {
    pub resource: FsEntity,
}

/// The entity must not exist, so that the hypervisor can create it.
#[derive(Debug)]
pub struct Absence {
    pub resource: FsEntity,
}

/// A virtual PCI slot that bhyve can emulate: slot at most 31, function
/// at most 7.
#[derive(Debug)]
pub struct ValidBhyveVPciSlot {
    pub slot: PciSlot,
}

/// The host device at `slot` can be passed through to the guest.
#[derive(Debug)]
pub struct ValidPassthruDevice {
    pub slot: PciSlot,
}

/// The network back-end can be opened; only tap interfaces are looked at.
#[derive(Debug)]
pub struct NetworkBackendAvailable {
    pub backend: NetBackend,
    pub name: String,
}

/// The LPC bridge must be on bus 0.
#[derive(Debug)]
pub struct LpcSlotAssignment {
    pub slot: PciSlot,
}

/// A frame buffer resolution: both sides or neither, within 640x480 to
/// 1920x1200.
#[derive(Debug)]
pub struct ValidResolution {
    pub h: Option<u32>,
    pub w: Option<u32>,
}

/// The kernel module must be loaded.
#[derive(Debug)]
pub struct KernelFeature {
    pub kmod: String,
}

/// All of the conditions, under one name.
#[derive(Debug)]
pub struct NestedConditions {
    pub name: String,
    pub conditions: Vec<Condition>,
}

#[derive(Debug)]
pub enum Condition {
    NoCond(NoCond),
    GenericFatal(GenericFatalCondition),
    FatalIoError(FatalIoError),
    Existence(Existence),
    Absence(Absence),
    ValidBhyveVPciSlot(ValidBhyveVPciSlot),
    ValidPassthruDevice(ValidPassthruDevice),
    NetworkBackendAvailable(NetworkBackendAvailable),
    LpcSlotAssignment(LpcSlotAssignment),
    ValidResolution(ValidResolution),
    KernelFeature(KernelFeature),
    Nested(NestedConditions),
}

/// What checking a condition that is no group yields.
pub enum Outcome {
    Pass,
    Fail(Seq<char>, Seq<char>),
    Repairable(Seq<char>, Seq<char>, RepairAction),
}

pub open spec fn cond_name(c: Condition) -> Seq<char> {
    match c {
        Condition::NoCond(_) => "nop"@,
        Condition::GenericFatal(g) => g.name@,
        Condition::FatalIoError(_) => "std::io::error"@,
        Condition::Existence(_) => "exists"@,
        Condition::Absence(_) => "absence"@,
        Condition::ValidBhyveVPciSlot(_) => "valid_bhyve_vpci_slot"@,
        Condition::ValidPassthruDevice(d) => "pci0:"@ + slot_text(d.slot, ":"@),
        Condition::NetworkBackendAvailable(_) => "network-backend-available"@,
        Condition::LpcSlotAssignment(_) => "lpc_bus"@,
        Condition::ValidResolution(_) => "fbuf_resolution"@,
        Condition::KernelFeature(k) => "kmod:"@ + k.kmod@,
        Condition::Nested(n) => n.name@,
    }
}

pub open spec fn resolution_text(w: u32, h: u32) -> Seq<char> {
    dec_text(w as nat) + "x"@ + dec_text(h as nat)
}

pub open spec fn sriov_text() -> Seq<char> {
    "This device has invalid HDR of 0x7f, if this is a SR-IOV VF, please check if the motherboard you are using supports and enabled SR-IOV"@
}

/// The outcome of a condition that is no group, on the host `h`.
pub open spec fn leaf_outcome(c: Condition, h: HostView) -> Outcome {
    let name = cond_name(c);
    match c {
        Condition::NoCond(_) => Outcome::Pass,
        Condition::GenericFatal(g) => Outcome::Fail(name, g.message@),
        Condition::FatalIoError(e) => Outcome::Fail(name, e.inner@),
        Condition::Existence(e) => match entity_failure(
            e.resource,
            h.fs_kind(entity_path(e.resource)),
        ) {
            None => Outcome::Pass,
            Some(why) => Outcome::Fail(name, why),
        },
        Condition::Absence(a) => match entity_failure(
            a.resource,
            h.fs_kind(entity_path(a.resource)),
        ) {
            None => Outcome::Fail(name, "Resource already exists"@),
            Some(_) => Outcome::Pass,
        },
        Condition::ValidBhyveVPciSlot(v) => if v.slot.slot > 31 {
            Outcome::Fail(name, "Invalid vPCI slot. Allowed values are between 0 to 31"@)
        } else if v.slot.func > 7 {
            Outcome::Fail(name, "Invalid vPCI function. Allowed values are between 0 to 7"@)
        } else {
            Outcome::Pass
        },
        Condition::ValidPassthruDevice(d) => {
            let i = pci_index(h.pci@, d.slot);
            if i >= h.pci@.len() {
                Outcome::Fail(name, "Invalid PCI device"@)
            } else {
                let dev = h.pci@[i];
                if dev.header_type == 0x7f {
                    Outcome::Fail(name, sriov_text())
                } else if dev.header_type != 0 {
                    Outcome::Fail(
                        name,
                        "cannot passthru non-endpoint device, header type: "@ + dec_text(
                            dev.header_type as nat,
                        ),
                    )
                } else if is_prefix("ppt"@, dev.device_name@) {
                    Outcome::Pass
                } else {
                    Outcome::Repairable(name, "pci-attach-ppt"@, RepairAction::AttachPpt(d.slot))
                }
            }
        },
        Condition::NetworkBackendAvailable(n) => if n.backend != NetBackend::Tap {
            Outcome::Pass
        } else {
            match h.taps {
                Err(e) => Outcome::Fail(name, e@),
                Ok(taps) => if views_contain(taps@, n.name@) {
                    match keyed(h.opened_taps@, n.name@, None) {
                        Some(true) => Outcome::Fail(
                            name,
                            "Tap device exists but is already opened by another process"@,
                        ),
                        Some(false) => Outcome::Pass,
                        None => Outcome::Fail(name, "cannot inspect tap interface "@ + n.name@),
                    }
                } else {
                    Outcome::Repairable(
                        "tap-iface"@,
                        "create-tap"@,
                        RepairAction::CreateTap(n.name),
                    )
                },
            }
        },
        Condition::LpcSlotAssignment(l) => if l.slot.bus != 0 {
            Outcome::Fail(name, "Lpc device can only configure on bus 0"@)
        } else {
            Outcome::Pass
        },
        Condition::ValidResolution(r) => match (r.w, r.h) {
            (Some(w), Some(hh)) => if w > 1920 || hh > 1200 {
                Outcome::Fail(name, "Maximum resolution is 1920x1200, got "@ + resolution_text(w, hh))
            } else if w < 640 || hh < 480 {
                Outcome::Fail(name, "Minimum resolution is 640x480, got "@ + resolution_text(w, hh))
            } else {
                Outcome::Pass
            },
            (None, None) => Outcome::Pass,
            _ => Outcome::Fail(name, "w and h must either both specified or both unspecified"@),
        },
        Condition::KernelFeature(k) => match keyed(h.kmods@, k.kmod@, None) {
            Some(true) => Outcome::Pass,
            Some(false) => Outcome::Fail(name, "kernel module "@ + k.kmod@ + " has not loaded"@),
            None => Outcome::Fail(name, "invalid kmod "@ + k.kmod@),
        },
        Condition::Nested(_) => Outcome::Pass,
    }
}

pub open spec fn views_contain(v: Seq<String>, x: Seq<char>) -> bool {
    exists|i: int| 0 <= i < v.len() && #[trigger] v[i]@ == x
}

/// `r` is what the outcome `o` says.
pub open spec fn matches_outcome(r: Result<(), Assertion>, o: Outcome) -> bool {
    match o {
        Outcome::Pass => r is Ok,
        Outcome::Fail(s, w) => r matches Err(Assertion::Fatal(a, b)) && a@ == s && b@ == w,
        Outcome::Repairable(s, w, act) => r matches Err(Assertion::Recoverable(a, b, c)) && a@
            == s && b@ == w && c == act,
    }
}

/// `c` is met on `h`.
pub open spec fn check_ok(c: Condition, h: HostView) -> bool
    decreases c,
{
    match c {
        Condition::Nested(n) => all_ok(n.conditions@, h),
        _ => leaf_outcome(c, h) is Pass,
    }
}

pub open spec fn all_ok(cs: Seq<Condition>, h: HostView) -> bool
    decreases cs,
{
    if cs.len() == 0 {
        true
    } else {
        all_ok(cs.drop_last(), h) && check_ok(cs.last(), h)
    }
}

/// `r` is the result of checking `c` on `h`: for a group, `Ok` when every
/// member is met, else a container of the members that are not, each
/// under its name, in order.
pub open spec fn check_rel(c: Condition, h: HostView, r: Result<(), Assertion>) -> bool
    decreases c,
{
    match c {
        Condition::Nested(n) => if all_ok(n.conditions@, h) {
            r is Ok
        } else {
            r matches Err(Assertion::Container(items)) && items_rel(n.conditions@, h, items@)
        },
        _ => matches_outcome(r, leaf_outcome(c, h)),
    }
}

pub open spec fn items_rel(
    cs: Seq<Condition>,
    h: HostView,
    items: Seq<(String, Assertion)>,
) -> bool
    decreases cs,
{
    if cs.len() == 0 {
        items.len() == 0
    } else if check_ok(cs.last(), h) {
        items_rel(cs.drop_last(), h, items)
    } else {
        &&& items.len() > 0
        &&& items.last().0@ == cond_name(cs.last())
        &&& check_rel(cs.last(), h, Err(items.last().1))
        &&& items_rel(cs.drop_last(), h, items.drop_last())
    }
}

proof fn lemma_member_decreases(c: Condition, n: NestedConditions, i: int)
    requires
        c == Condition::Nested(n),
        0 <= i < n.conditions@.len(),
    ensures
        decreases_to!(c => n.conditions@[i]),
{
    assert(decreases_to!(c => c->Nested_0));
    assert(decreases_to!(n => n.conditions));
    assert(decreases_to!(n.conditions => n.conditions@));
    assert(decreases_to!(n.conditions@ => n.conditions@[i]));
}

proof fn lemma_items_empty(cs: Seq<Condition>, h: HostView)
    requires
        all_ok(cs, h),
    ensures
        items_rel(cs, h, Seq::empty()),
    decreases cs.len(),
{
    if cs.len() > 0 {
        lemma_items_empty(cs.drop_last(), h);
    }
}

fn fatal(name: String, why: String) -> (r: Result<(), Assertion>)
    ensures
        r matches Err(Assertion::Fatal(a, b)) && a@ == name@ && b@ == why@,
{
    Err(Assertion::Fatal(name, why))
}

impl GenericFatalCondition {
    pub fn new_boxed(name: &str, message: &str) -> (r: Condition)
        ensures
            r matches Condition::GenericFatal(g) && g.name@ == name@ && g.message@ == message@,
    {
        Condition::GenericFatal(GenericFatalCondition { name: owned(name), message: owned(message) })
    }
}

impl FatalIoError {
    /// A condition that reports the last error of the operating system,
    /// given as text.
    pub fn boxed_last_os_error(&self, last_os_error: String) -> (r: Condition)
        ensures
            r matches Condition::FatalIoError(e) && e.inner == last_os_error,
    {
        Condition::FatalIoError(FatalIoError { inner: last_os_error })
    }
}

impl KernelFeature {
    pub fn new_boxed(kmod: &str) -> (r: Condition)
        ensures
            r matches Condition::KernelFeature(k) && k.kmod@ == kmod@,
    {
        Condition::KernelFeature(KernelFeature { kmod: owned(kmod) })
    }
}

fn list_contains(v: &Vec<String>, x: &String) -> (r: bool)
    ensures
        r == views_contain(v@, x@),
{
    let mut i: usize = 0;
    while i < v.len()
        invariant
            i <= v@.len(),
            forall|j: int| 0 <= j < i ==> v@[j]@ != x@,
        decreases v@.len() - i,
    {
        if v[i] == *x {
            return true;
        }
        i = i + 1;
    }
    false
}

impl Condition {
    pub fn name(&self) -> (r: String)
        ensures
            r@ == cond_name(*self),
    {
        match self {
            Condition::NoCond(_) => owned("nop"),
            Condition::GenericFatal(g) => owned(g.name.as_str()),
            Condition::FatalIoError(_) => owned("std::io::error"),
            Condition::Existence(_) => owned("exists"),
            Condition::Absence(_) => owned("absence"),
            Condition::ValidBhyveVPciSlot(_) => owned("valid_bhyve_vpci_slot"),
            Condition::ValidPassthruDevice(d) => concat(
                owned("pci0:"),
                d.slot.as_bhyve_arg().as_str(),
            ),
            Condition::NetworkBackendAvailable(_) => owned("network-backend-available"),
            Condition::LpcSlotAssignment(_) => owned("lpc_bus"),
            Condition::ValidResolution(_) => owned("fbuf_resolution"),
            Condition::KernelFeature(k) => concat(owned("kmod:"), k.kmod.as_str()),
            Condition::Nested(n) => owned(n.name.as_str()),
        }
    }

    /// Checks the condition against what was observed of the host.
    pub fn check(&self, host: &HostView) -> (r: Result<(), Assertion>)
        ensures
            check_rel(*self, *host, r),
            r is Ok <==> check_ok(*self, *host),
        decreases self,
    {
        match self {
            Condition::Nested(n) => {
                let mut v: Vec<(String, Assertion)> = Vec::new();
                let mut i: usize = 0;
                while i < n.conditions.len()
                    invariant
                        *self == Condition::Nested(*n),
                        i <= n.conditions@.len(),
                        items_rel(n.conditions@.subrange(0, i as int), *host, v@),
                        (v@.len() == 0) == all_ok(n.conditions@.subrange(0, i as int), *host),
                    decreases n.conditions@.len() - i,
                {
                    let ghost pre = n.conditions@.subrange(0, i + 1);
                    proof {
                        assert(pre.drop_last() == n.conditions@.subrange(0, i as int));
                        lemma_member_decreases(*self, *n, i as int);
                    }
                    match n.conditions[i].check(host) {
                        Ok(()) => {},
                        Err(a) => {
                            let nm = n.conditions[i].name();
                            let ghost old_v = v@;
                            v.push((nm, a));
                            proof {
                                assert(v@.drop_last() == old_v);
                            }
                        },
                    }
                    i = i + 1;
                }
                proof {
                    assert(n.conditions@.subrange(0, n.conditions@.len() as int) == n.conditions@);
                }
                if v.len() == 0 {
                    Ok(())
                } else {
                    Err(Assertion::Container(v))
                }
            },
            _ => self.check_leaf(host),
        }
    }

    fn check_leaf(&self, host: &HostView) -> (r: Result<(), Assertion>)
        requires
            !(*self is Nested),
        ensures
            matches_outcome(r, leaf_outcome(*self, *host)),
    {
        match self {
            Condition::NoCond(_) => Ok(()),
            Condition::GenericFatal(g) => fatal(self.name(), owned(g.message.as_str())),
            Condition::FatalIoError(e) => fatal(self.name(), owned(e.inner.as_str())),
            Condition::Existence(e) => {
                let kind = lookup(&host.fs, e.resource.path().as_str(), FsKind::Absent);
                match e.resource.entity_exists(kind) {
                    Ok(()) => Ok(()),
                    Err(why) => fatal(self.name(), why),
                }
            },
            Condition::Absence(a) => {
                let kind = lookup(&host.fs, a.resource.path().as_str(), FsKind::Absent);
                match a.resource.entity_exists(kind) {
                    Err(_) => Ok(()),
                    Ok(()) => fatal(self.name(), owned("Resource already exists")),
                }
            },
            Condition::ValidBhyveVPciSlot(v) => {
                if v.slot.slot > 31 {
                    fatal(self.name(), owned("Invalid vPCI slot. Allowed values are between 0 to 31"))
                } else if v.slot.func > 7 {
                    fatal(
                        self.name(),
                        owned("Invalid vPCI function. Allowed values are between 0 to 7"),
                    )
                } else {
                    Ok(())
                }
            },
            Condition::ValidPassthruDevice(d) => {
                let i = host.find_pci(d.slot);
                proof {
                    lemma_pci_index_bounds(host.pci@, d.slot);
                }
                if i >= host.pci.len() {
                    fatal(self.name(), owned("Invalid PCI device"))
                } else {
                    let dev = &host.pci[i];
                    if dev.header_type == 0x7f {
                        fatal(
                            self.name(),
                            owned(
                                "This device has invalid HDR of 0x7f, if this is a SR-IOV VF, please check if the motherboard you are using supports and enabled SR-IOV",
                            ),
                        )
                    } else if dev.header_type != 0 {
                        fatal(
                            self.name(),
                            concat(
                                owned("cannot passthru non-endpoint device, header type: "),
                                decimal(dev.header_type as u64).as_str(),
                            ),
                        )
                    } else if starts_with(dev.device_name.as_str(), "ppt") {
                        Ok(())
                    } else {
                        Err(
                            Assertion::Recoverable(
                                self.name(),
                                owned("pci-attach-ppt"),
                                RepairAction::AttachPpt(d.slot),
                            ),
                        )
                    }
                }
            },
            Condition::NetworkBackendAvailable(n) => {
                if n.backend != NetBackend::Tap {
                    return Ok(());
                }
                match &host.taps {
                    Err(e) => fatal(self.name(), owned(e.as_str())),
                    Ok(taps) => {
                        if list_contains(taps, &n.name) {
                            match lookup(&host.opened_taps, n.name.as_str(), None) {
                                Some(true) => fatal(
                                    self.name(),
                                    owned(
                                        "Tap device exists but is already opened by another process",
                                    ),
                                ),
                                Some(false) => Ok(()),
                                None => fatal(
                                    self.name(),
                                    concat(owned("cannot inspect tap interface "), n.name.as_str()),
                                ),
                            }
                        } else {
                            Err(
                                Assertion::Recoverable(
                                    owned("tap-iface"),
                                    owned("create-tap"),
                                    RepairAction::CreateTap(n.name.clone()),
                                ),
                            )
                        }
                    },
                }
            },
            Condition::LpcSlotAssignment(l) => {
                if l.slot.bus != 0 {
                    fatal(self.name(), owned("Lpc device can only configure on bus 0"))
                } else {
                    Ok(())
                }
            },
            Condition::ValidResolution(r) => {
                match (r.w, r.h) {
                    (Some(w), Some(h)) => {
                        if w > 1920 || h > 1200 {
                            fatal(
                                self.name(),
                                concat(owned("Maximum resolution is 1920x1200, got "), resolution(w, h).as_str()),
                            )
                        } else if w < 640 || h < 480 {
                            fatal(
                                self.name(),
                                concat(owned("Minimum resolution is 640x480, got "), resolution(w, h).as_str()),
                            )
                        } else {
                            Ok(())
                        }
                    },
                    (None, None) => Ok(()),
                    _ => fatal(
                        self.name(),
                        owned("w and h must either both specified or both unspecified"),
                    ),
                }
            },
            Condition::KernelFeature(k) => {
                match lookup(&host.kmods, k.kmod.as_str(), None) {
                    Some(true) => Ok(()),
                    Some(false) => fatal(
                        self.name(),
                        concat(concat(owned("kernel module "), k.kmod.as_str()), " has not loaded"),
                    ),
                    None => fatal(self.name(), concat(owned("invalid kmod "), k.kmod.as_str())),
                }
            },
            Condition::Nested(_) => Ok(()),
        }
    }
}

fn resolution(w: u32, h: u32) -> (r: String)
    ensures
        r@ == resolution_text(w, h),
{
    concat(concat(decimal(w as u64), "x"), decimal(h as u64).as_str())
}

} // verus!

verus! {

/// Something to look at on the host before the conditions are checked.
#[derive(Debug, PartialEq, Eq)]
pub enum Probe {
    /// What this path names.
    Path(String),
    /// Whether this tap interface is opened by a process.
    TapOpened(String),
    /// Whether this kernel module is loaded.
    Kmod(String),
}

pub open spec fn entity_string(e: FsEntity) -> String {
    match e {
        FsEntity::File(p) => p,
        FsEntity::Directory(p) => p,
        FsEntity::Node(p) => p,
        FsEntity::FsItem(p) => p,
    }
}

/// What checking `c` looks at, in order.
pub open spec fn probes_spec(c: Condition) -> Seq<Probe>
    decreases c,
{
    match c {
        Condition::Existence(e) => seq![Probe::Path(entity_string(e.resource))],
        Condition::Absence(a) => seq![Probe::Path(entity_string(a.resource))],
        Condition::NetworkBackendAvailable(n) => if n.backend == NetBackend::Tap {
            seq![Probe::TapOpened(n.name)]
        } else {
            Seq::empty()
        },
        Condition::KernelFeature(k) => seq![Probe::Kmod(k.kmod)],
        Condition::Nested(n) => probes_list(n.conditions@),
        _ => Seq::empty(),
    }
}

pub open spec fn probes_list(cs: Seq<Condition>) -> Seq<Probe>
    decreases cs,
{
    if cs.len() == 0 {
        Seq::empty()
    } else {
        probes_list(cs.drop_last()) + probes_spec(cs.last())
    }
}

impl Condition {
    /// The paths, tap interfaces and kernel modules that checking the
    /// condition looks at; the list of tap interfaces and the PCI devices
    /// are looked at in any case.
    pub fn probes(&self) -> (r: Vec<Probe>)
        ensures
            r@ == probes_spec(*self),
        decreases self,
    {
        match self {
            Condition::Existence(e) => {
                let mut v = Vec::new();
                v.push(Probe::Path(e.resource.path().clone()));
                proof {
                    assert(v@ =~= seq![Probe::Path(entity_string(e.resource))]);
                }
                v
            },
            Condition::Absence(a) => {
                let mut v = Vec::new();
                v.push(Probe::Path(a.resource.path().clone()));
                proof {
                    assert(v@ =~= seq![Probe::Path(entity_string(a.resource))]);
                }
                v
            },
            Condition::NetworkBackendAvailable(n) => {
                let mut v = Vec::new();
                if n.backend == NetBackend::Tap {
                    v.push(Probe::TapOpened(n.name.clone()));
                    proof {
                        assert(v@ =~= seq![Probe::TapOpened(n.name)]);
                    }
                }
                v
            },
            Condition::KernelFeature(k) => {
                let mut v = Vec::new();
                v.push(Probe::Kmod(k.kmod.clone()));
                proof {
                    assert(v@ =~= seq![Probe::Kmod(k.kmod)]);
                }
                v
            },
            Condition::Nested(n) => {
                let mut out: Vec<Probe> = Vec::new();
                let mut i: usize = 0;
                while i < n.conditions.len()
                    invariant
                        *self == Condition::Nested(*n),
                        i <= n.conditions@.len(),
                        out@ == probes_list(n.conditions@.subrange(0, i as int)),
                    decreases n.conditions@.len() - i,
                {
                    proof {
                        assert(n.conditions@.subrange(0, i + 1).drop_last() == n.conditions@.subrange(0, i as int));
                        lemma_member_decreases(*self, *n, i as int);
                    }
                    let mut more = n.conditions[i].probes();
                    out.append(&mut more);
                    i = i + 1;
                }
                proof {
                    assert(n.conditions@.subrange(0, n.conditions@.len() as int) == n.conditions@);
                }
                out
            },
            _ => Vec::new(),
        }
    }
}

} // verus!
