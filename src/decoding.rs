//! Emulation entries as the machine description declares them, and what
//! they become: field sets of a network or NVMe device, and pass-through
//! devices found by their identifiers.

use vstd::prelude::*;
use crate::emulation::{
    clone_opt, AhciCd, AhciHd, EmulatedPci, Nvme, NvmeBackend, PciPassthru, RawEmulatedPci,
    VirtioBlk, VirtioConsole, VirtioNet,
};
use crate::error::FormatError;
use crate::host::PciDevice;
use crate::numeric::{parse_unsigned, unsigned_spec};
use crate::slot::PciSlot;
use crate::text::{concat, is_prefix, owned, starts_with, str_eq};
use crate::vm::NetBackend;

verus! {

/// Identifiers of a host device: `vendor` holds the vendor and subvendor,
/// `device` the device and subdevice, each as `0x` and eight hex digits.
#[derive(Debug)]
pub struct PciLookup {
    pub device: String,
    pub vendor: String,
}

/// A pass-through device, given by its host slot or found by identifiers.
#[derive(Debug)]
pub struct PciPassthruX {
    pub src: Option<PciSlot>,
    pub lookup: Option<PciLookup>,
    pub rom: Option<String>,
}

/// The device of an emulation entry.
#[derive(Debug)]
pub enum Emulations {
    VirtioConsole(VirtioConsole),
    VirtioNet(VirtioNet),
    VirtioBlk(VirtioBlk),
    AhciHd(AhciHd),
    AhciCd(AhciCd),
    Passthru(PciPassthruX),
    Nvme(Nvme),
    Raw { value: String },
}

/// An emulation entry: an optional slot, consent to repairs, the device.
#[derive(Debug)]
pub struct Emulation {
    pub slot: Option<PciSlot>,
    pub fix: bool,
    pub emulation: Emulations,
}

/// The two 16-bit halves of a decorated identifier such as `0x1234abcd`.
pub open spec fn id_halves(s: Seq<char>) -> Option<(u16, u16)> {
    if s.len() != 10 {
        None
    } else {
        match unsigned_spec(s.subrange(2, 10), 16) {
            Some(v) => if v <= 0xffff_ffff {
                Some(((v / 65536) as u16, (v % 65536) as u16))
            } else {
                None
            },
            None => None,
        }
    }
}

/// Index of the first device with these identifiers, or `s.len()`.
pub open spec fn ids_index(s: Seq<PciDevice>, v: u16, sv: u16, d: u16, sd: u16) -> int
    decreases s.len(),
{
    if s.len() == 0 {
        0
    } else if s[0].vendor == v && s[0].subvendor == sv && s[0].device == d && s[0].subdevice
        == sd {
        0
    } else {
        1 + ids_index(s.drop_first(), v, sv, d, sd)
    }
}

proof fn lemma_ids_index_bounds(s: Seq<PciDevice>, v: u16, sv: u16, d: u16, sd: u16)
    ensures
        0 <= ids_index(s, v, sv, d, sd) <= s.len(),
    decreases s.len(),
{
    if s.len() > 0 {
        lemma_ids_index_bounds(s.drop_first(), v, sv, d, sd);
    }
}

/// The host slot of a pass-through entry: the one given, or that of the
/// first host device whose identifiers match.
pub open spec fn passthru_src(x: PciPassthruX, pci: Seq<PciDevice>) -> Option<PciSlot> {
    match x.src {
        Some(s) => Some(s),
        None => match x.lookup {
            None => None,
            Some(l) => match (id_halves(l.vendor@), id_halves(l.device@)) {
                (Some((v, sv)), Some((d, sd))) => {
                    let i = ids_index(pci, v, sv, d, sd);
                    if i < pci.len() {
                        Some(pci[i].slot)
                    } else {
                        None
                    }
                },
                _ => None,
            },
        },
    }
}

fn id_pair(s: &String) -> (r: Option<(u16, u16)>)
    ensures
        r == id_halves(s@),
{
    if s.as_str().unicode_len() != 10 {
        return None;
    }
    match parse_unsigned(s.as_str().substring_char(2, 10), 16) {
        Some(v) => {
            if v <= 0xffff_ffff {
                Some(((v / 65536) as u16, (v % 65536) as u16))
            } else {
                None
            }
        },
        None => None,
    }
}

impl PciPassthruX {
    /// The pass-through device, with its slot found among the host's
    /// devices `pci` when it is not given.
    pub fn to_pci_passthru(&self, pci: &Vec<PciDevice>) -> (r: Option<PciPassthru>)
        ensures
            match passthru_src(*self, pci@) {
                Some(s) => r matches Some(p) && p.src == s && p.rom == self.rom,
                None => r is None,
            },
    {
        match self.src {
            Some(src) => Some(PciPassthru { src, rom: clone_opt(&self.rom) }),
            None => match &self.lookup {
                None => None,
                Some(l) => {
                    let vendor = id_pair(&l.vendor);
                    let device = id_pair(&l.device);
                    match (vendor, device) {
                        (Some((v1, v2)), Some((d1, d2))) => {
                            proof {
                                lemma_ids_index_bounds(pci@, v1, v2, d1, d2);
                                assert(pci@.subrange(0, pci@.len() as int) == pci@);
                            }
                            let mut i: usize = 0;
                            while i < pci.len()
                                invariant
                                    self.src is None,
                                    self.lookup == Some(*l),
                                    id_halves(l.vendor@) == Some((v1, v2)),
                                    id_halves(l.device@) == Some((d1, d2)),
                                    i <= pci@.len(),
                                    ids_index(pci@, v1, v2, d1, d2) == i + ids_index(
                                        pci@.subrange(i as int, pci@.len() as int),
                                        v1,
                                        v2,
                                        d1,
                                        d2,
                                    ),
                                decreases pci@.len() - i,
                            {
                                let ghost rest = pci@.subrange(i as int, pci@.len() as int);
                                proof {
                                    assert(rest.drop_first() == pci@.subrange(i + 1, pci@.len() as int));
                                    assert(rest[0] == pci@[i as int]);
                                }
                                let dev = &pci[i];
                                if dev.vendor == v1 && dev.subvendor == v2 && dev.device == d1
                                    && dev.subdevice == d2 {
                                    return Some(PciPassthru { src: dev.slot, rom: clone_opt(&self.rom) });
                                }
                                i = i + 1;
                            }
                            None
                        },
                        _ => None,
                    }
                },
            },
        }
    }
}

/// `d` is the device that the entry `e` declares, on a host with the
/// devices `pci`.
pub open spec fn declared_device(e: Emulations, pci: Seq<PciDevice>, d: EmulatedPci) -> bool {
    match e {
        Emulations::VirtioConsole(c) => d matches EmulatedPci::VirtioConsole(x) && x.ports@
            == c.ports@,
        Emulations::VirtioNet(n) => d == EmulatedPci::VirtioNet(n),
        Emulations::VirtioBlk(b) => d == EmulatedPci::VirtioBlk(b),
        Emulations::AhciHd(a) => d == EmulatedPci::AhciHd(a),
        Emulations::AhciCd(a) => d == EmulatedPci::AhciCd(a),
        Emulations::Nvme(n) => d == EmulatedPci::Nvme(n),
        Emulations::Passthru(x) => d matches EmulatedPci::Passthru(p) && passthru_src(x, pci)
            == Some(p.src) && p.rom == x.rom,
        Emulations::Raw { value } => d matches EmulatedPci::Raw(r) && r.value == value,
    }
}

/// The entry can be turned into a device on a host with the devices `pci`.
pub open spec fn resolvable(e: Emulations, pci: Seq<PciDevice>) -> bool {
    match e {
        Emulations::Passthru(x) => passthru_src(x, pci) is Some,
        _ => true,
    }
}

impl Emulation {
    /// The device that the entry declares; a pass-through entry whose
    /// device cannot be found is an error.
    pub fn to_vm_emu(&self, pci: &Vec<PciDevice>) -> (r: Result<EmulatedPci, FormatError>)
        ensures
            resolvable(self.emulation, pci@) ==> (r matches Ok(d) && declared_device(
                self.emulation,
                pci@,
                d,
            )),
            !resolvable(self.emulation, pci@) ==> (r matches Err(FormatError::InvalidUnit(u))
                && u@.len() == 0),
    {
        match &self.emulation {
            Emulations::VirtioBlk(x) => Ok(EmulatedPci::VirtioBlk(x.duplicate())),
            Emulations::VirtioNet(x) => Ok(EmulatedPci::VirtioNet(x.duplicate())),
            Emulations::AhciCd(x) => Ok(EmulatedPci::AhciCd(x.duplicate())),
            Emulations::AhciHd(x) => Ok(EmulatedPci::AhciHd(x.duplicate())),
            Emulations::VirtioConsole(x) => Ok(EmulatedPci::VirtioConsole(x.duplicate())),
            Emulations::Nvme(x) => Ok(EmulatedPci::Nvme(x.duplicate())),
            Emulations::Passthru(x) => match x.to_pci_passthru(pci) {
                None => Err(FormatError::InvalidUnit(String::new())),
                Some(p) => Ok(EmulatedPci::Passthru(p)),
            },
            Emulations::Raw { value } => Ok(EmulatedPci::Raw(RawEmulatedPci { value: value.clone() })),
        }
    }
}

/// The back-end kind named exactly.
pub open spec fn backend_named(t: Seq<char>) -> Option<NetBackend> {
    if t == "tap"@ {
        Some(NetBackend::Tap)
    } else if t == "netgraph"@ {
        Some(NetBackend::Netgraph)
    } else if t == "netmap"@ {
        Some(NetBackend::Netmap)
    } else if t == "vale"@ {
        Some(NetBackend::Vale)
    } else {
        None
    }
}

/// The back-end kind that an interface name starts with.
pub open spec fn backend_of_name(n: Seq<char>) -> Option<NetBackend> {
    if is_prefix("tap"@, n) {
        Some(NetBackend::Tap)
    } else if is_prefix("netgraph"@, n) {
        Some(NetBackend::Netgraph)
    } else if is_prefix("netmap"@, n) {
        Some(NetBackend::Netmap)
    } else if is_prefix("vale"@, n) {
        Some(NetBackend::Vale)
    } else {
        None
    }
}

/// A decimal `u32`, as `str::parse` reads it.
pub open spec fn dec_u32_spec(s: Seq<char>) -> Option<u32> {
    match unsigned_spec(s, 10) {
        Some(v) => if v <= u32::MAX {
            Some(v as u32)
        } else {
            None
        },
        None => None,
    }
}

fn backend_by_name(t: &str) -> (r: Option<NetBackend>)
    ensures
        r == backend_named(t@),
{
    if str_eq(t, "tap") {
        Some(NetBackend::Tap)
    } else if str_eq(t, "netgraph") {
        Some(NetBackend::Netgraph)
    } else if str_eq(t, "netmap") {
        Some(NetBackend::Netmap)
    } else if str_eq(t, "vale") {
        Some(NetBackend::Vale)
    } else {
        None
    }
}

fn backend_by_prefix(n: &str) -> (r: Option<NetBackend>)
    ensures
        r == backend_of_name(n@),
{
    if starts_with(n, "tap") {
        Some(NetBackend::Tap)
    } else if starts_with(n, "netgraph") {
        Some(NetBackend::Netgraph)
    } else if starts_with(n, "netmap") {
        Some(NetBackend::Netmap)
    } else if starts_with(n, "vale") {
        Some(NetBackend::Vale)
    } else {
        None
    }
}

impl VirtioNet {
    /// A network device from the fields of its entry: the back-end `name`
    /// is required; the kind is `tpe`, or else inferred from the name's
    /// prefix; an `mtu` that is no decimal `u32` is dropped.
    pub fn from_fields(
        name: Option<String>,
        tpe: Option<String>,
        mtu: Option<String>,
        mac: Option<String>,
    ) -> (r: Result<VirtioNet, FormatError>)
        ensures
            match name {
                None => r matches Err(FormatError::IncorrectEmulation(_)),
                Some(n) => {
                    let kind = match tpe {
                        Some(t) => backend_named(t@),
                        None => backend_of_name(n@),
                    };
                    match kind {
                        None => r matches Err(FormatError::IncorrectEmulation(_)),
                        Some(k) => r matches Ok(v) && v.tpe == k && v.name == n && v.mac == mac
                            && v.mtu == match mtu {
                            Some(m) => dec_u32_spec(m@),
                            None => None,
                        },
                    }
                },
            },
    {
        let n = match name {
            None => {
                return Err(FormatError::IncorrectEmulation(owned("missing field `name`")));
            },
            Some(n) => n,
        };
        let kind = match &tpe {
            Some(t) => match backend_by_name(t.as_str()) {
                Some(k) => k,
                None => {
                    let msg = concat(concat(owned("unknown variant `"), t.as_str()),
                        "`, expected one of `tap`, `netgraph`, `netmap`, `vale`");
                    return Err(FormatError::IncorrectEmulation(msg));
                },
            },
            None => match backend_by_prefix(n.as_str()) {
                Some(k) => k,
                None => {
                    let msg = concat(concat(owned("unknown variant `"), n.as_str()),
                        "`, expected one of `tap*`, `netgraph*`, `netmap*`, `vale*`");
                    return Err(FormatError::IncorrectEmulation(msg));
                },
            },
        };
        let m = match &mtu {
            Some(m) => match parse_unsigned(m.as_str(), 10) {
                Some(v) => if v <= 0xffff_ffff {
                    Some(v as u32)
                } else {
                    None
                },
                None => None,
            },
            None => None,
        };
        Ok(VirtioNet { tpe: kind, name: n, mtu: m, mac })
    }
}

impl Nvme {
    /// An NVMe device from the fields of its entry. Numbers are taken
    /// modulo the width of their field. A `ram` size selects a memory
    /// back-end; otherwise `path` is required.
    pub fn from_fields(
        qsz: Option<u64>,
        ioslots: Option<u64>,
        sectsz: Option<u64>,
        ser: Option<String>,
        eui64: Option<u64>,
        dsm: Option<String>,
        ram: Option<u64>,
        path: Option<String>,
    ) -> (r: Result<Nvme, FormatError>)
        ensures
            ram is None && path is None <==> r matches Err(FormatError::IncorrectEmulation(_)),
            ram is Some || path is Some ==> r is Ok,
            r matches Ok(n) ==> {
                &&& n.qsz == narrow_spec(qsz)
                &&& n.ioslots == narrow_spec(ioslots)
                &&& n.sectsz == narrow_spec(sectsz)
                &&& n.eui64 == narrow_spec(eui64)
                &&& n.ser == ser
                &&& n.dsm == dsm
                &&& n.backend == match ram {
                    Some(v) => NvmeBackend::Ram(v as usize),
                    None => NvmeBackend::Path(path->0),
                }
            },
    {
        let backend = match ram {
            Some(v) => NvmeBackend::Ram(v as usize),
            None => match path {
                Some(p) => NvmeBackend::Path(p),
                None => {
                    return Err(FormatError::IncorrectEmulation(owned("missing field `path`")));
                },
            },
        };
        Ok(
            Nvme {
                qsz: narrow(qsz),
                ioslots: narrow(ioslots),
                sectsz: narrow(sectsz),
                ser,
                eui64: narrow(eui64),
                dsm,
                backend,
            },
        )
    }
}

/// `v` taken modulo 2^32.
pub open spec fn narrow_spec(v: Option<u64>) -> Option<u32> {
    match v {
        Some(x) => Some(x as u32),
        None => None,
    }
}

fn narrow(v: Option<u64>) -> (r: Option<u32>)
    ensures
        r == narrow_spec(v),
{
    match v {
        Some(x) => Some(x as u32),
        None => None,
    }
}

} // verus!

verus! {

/// `a` and `b` declare the same device.
pub open spec fn same_decl(a: Emulations, b: Emulations) -> bool {
    match (a, b) {
        (Emulations::VirtioConsole(x), Emulations::VirtioConsole(y)) => x.ports@ == y.ports@,
        (Emulations::VirtioConsole(_), _) => false,
        (_, Emulations::VirtioConsole(_)) => false,
        _ => a == b,
    }
}

/// `a` and `b` are the same entry.
pub open spec fn same_emulation(a: Emulation, b: Emulation) -> bool {
    a.slot == b.slot && a.fix == b.fix && same_decl(a.emulation, b.emulation)
}

/// `a` and `b` are the same entries, in order.
pub open spec fn same_emulations(a: Seq<Emulation>, b: Seq<Emulation>) -> bool {
    a.len() == b.len() && forall|i: int| 0 <= i < a.len() ==> same_emulation(#[trigger] a[i], b[i])
}

pub proof fn lemma_same_emulation_equiv(a: Emulation, b: Emulation, c: Emulation)
    ensures
        same_emulation(a, a),
        same_emulation(a, b) ==> same_emulation(b, a),
        same_emulation(a, b) && same_emulation(b, c) ==> same_emulation(a, c),
{
}

impl PciLookup {
    pub fn duplicate(&self) -> (r: PciLookup)
        ensures
            r == *self,
    {
        PciLookup { device: self.device.clone(), vendor: self.vendor.clone() }
    }
}

impl PciPassthruX {
    pub fn duplicate(&self) -> (r: PciPassthruX)
        ensures
            r == *self,
    {
        PciPassthruX {
            src: self.src,
            lookup: match &self.lookup {
                Some(l) => Some(l.duplicate()),
                None => None,
            },
            rom: clone_opt(&self.rom),
        }
    }
}

impl Emulations {
    pub fn duplicate(&self) -> (r: Emulations)
        ensures
            same_decl(r, *self),
    {
        match self {
            Emulations::VirtioConsole(x) => Emulations::VirtioConsole(x.duplicate()),
            Emulations::VirtioNet(x) => Emulations::VirtioNet(x.duplicate()),
            Emulations::VirtioBlk(x) => Emulations::VirtioBlk(x.duplicate()),
            Emulations::AhciHd(x) => Emulations::AhciHd(x.duplicate()),
            Emulations::AhciCd(x) => Emulations::AhciCd(x.duplicate()),
            Emulations::Passthru(x) => Emulations::Passthru(x.duplicate()),
            Emulations::Nvme(x) => Emulations::Nvme(x.duplicate()),
            Emulations::Raw { value } => Emulations::Raw { value: value.clone() },
        }
    }
}

impl Emulation {
    pub fn duplicate(&self) -> (r: Emulation)
        ensures
            same_emulation(r, *self),
    {
        Emulation { slot: self.slot, fix: self.fix, emulation: self.emulation.duplicate() }
    }
}

/// Copies of the entries `v`, in order.
pub fn duplicate_emulations(v: &Vec<Emulation>) -> (r: Vec<Emulation>)
    ensures
        same_emulations(r@, v@),
{
    let mut out: Vec<Emulation> = Vec::new();
    let mut i: usize = 0;
    while i < v.len()
        invariant
            i <= v@.len(),
            out@.len() == i,
            forall|j: int| 0 <= j < i ==> same_emulation(#[trigger] out@[j], v@[j]),
        decreases v@.len() - i,
    {
        out.push(v[i].duplicate());
        i = i + 1;
    }
    out
}

} // verus!
