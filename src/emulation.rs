//! The emulated PCI devices: what each needs of the host, what it leaves
//! behind, and how bhyve's `-s` option names it.

use vstd::prelude::*;
use crate::conditions::{
    Absence, Condition, Existence, FsEntity, NestedConditions, NetworkBackendAvailable, NoCond,
    ValidPassthruDevice, ValidResolution,
};
use crate::slot::{slot_text, PciSlot};
use crate::text::{concat, dec_text, decimal, owned};
use crate::vm::{backend_text, NetBackend, Resource};

verus! {

/// `,key=value` when `v` is present.
pub open spec fn opt_num(key: Seq<char>, v: Option<u32>) -> Seq<char> {
    match v {
        Some(x) => ","@ + key + "="@ + dec_text(x as nat),
        None => Seq::empty(),
    }
}

/// `,key=value` when `v` is present.
pub open spec fn opt_text(key: Seq<char>, v: Option<String>) -> Seq<char> {
    match v {
        Some(x) => ","@ + key + "="@ + x@,
        None => Seq::empty(),
    }
}

/// `,key` when `on`.
pub open spec fn flag_text(key: Seq<char>, on: bool) -> Seq<char> {
    if on {
        ","@ + key
    } else {
        Seq::empty()
    }
}

fn push_num(s: String, key: &str, v: Option<u32>) -> (r: String)
    ensures
        r@ == s@ + opt_num(key@, v),
{
    match v {
        Some(x) => {
            let t = concat(concat(concat(s, ","), key), "=");
            concat(t, decimal(x as u64).as_str())
        },
        None => s,
    }
}

fn push_text(s: String, key: &str, v: &Option<String>) -> (r: String)
    ensures
        r@ == s@ + opt_text(key@, *v),
{
    match v {
        Some(x) => {
            let t = concat(concat(concat(s, ","), key), "=");
            concat(t, x.as_str())
        },
        None => s,
    }
}

fn push_flag(s: String, key: &str, on: bool) -> (r: String)
    ensures
        r@ == s@ + flag_text(key@, on),
{
    if on {
        concat(concat(s, ","), key)
    } else {
        s
    }
}

pub fn clone_opt(v: &Option<String>) -> (r: Option<String>)
    ensures
        r == *v,
{
    match v {
        Some(x) => Some(x.clone()),
        None => None,
    }
}

/// A copy of `v`, string by string.
pub fn clone_strings(v: &Vec<String>) -> (r: Vec<String>)
    ensures
        r@ == v@,
{
    let mut out: Vec<String> = Vec::new();
    let mut i: usize = 0;
    while i < v.len()
        invariant
            i <= v@.len(),
            out@ == v@.subrange(0, i as int),
        decreases v@.len() - i,
    {
        out.push(v[i].clone());
        proof {
            assert(v@.subrange(0, i + 1) == v@.subrange(0, i as int).push(v@[i as int]));
        }
        i = i + 1;
    }
    proof {
        assert(v@.subrange(0, v@.len() as int) == v@);
    }
    out
}

/// Devices that state what they need of the host.
pub trait BhyveDev {
    /// `c` is the condition that the device needs.
    spec fn precondition_spec(&self, c: Condition) -> bool;

    fn preconditions(&self) -> (r: Condition)
        ensures
            self.precondition_spec(r),
    ;
}

#[derive(Debug)]
pub struct VirtioNet {
    pub tpe: NetBackend,
    pub name: String,
    pub mtu: Option<u32>,
    pub mac: Option<String>,
}

#[derive(Debug)]
pub struct VirtioBlk {
    pub path: String,
    pub nocache: bool,
    pub direct: bool,
    pub ro: bool,
    pub logical_sector_size: Option<u32>,
    pub physical_sector_size: Option<u32>,
    pub nodelete: bool,
}

#[derive(Debug)]
pub struct AhciHd {
    pub path: String,
    pub nmrr: Option<u32>,
    pub ser: Option<String>,
    pub rev: Option<String>,
    pub model: Option<String>,
}

#[derive(Debug)]
pub struct AhciCd {
    pub path: String,
    pub nmrr: Option<u32>,
    pub ser: Option<String>,
    pub rev: Option<String>,
    pub model: Option<String>,
}

#[derive(Debug, PartialEq, Eq)]
pub enum NvmeBackend {
    Ram(usize),
    Path(String),
}

#[derive(Debug)]
pub struct Nvme {
    pub qsz: Option<u32>,
    pub ioslots: Option<u32>,
    pub sectsz: Option<u32>,
    pub ser: Option<String>,
    pub eui64: Option<u32>,
    pub dsm: Option<String>,
    pub backend: NvmeBackend,
}

#[derive(Debug)]
pub struct VirtioConsole {
    pub ports: Vec<String>,
}

#[derive(Debug)]
pub struct PciPassthru {
    pub src: PciSlot,
    pub rom: Option<String>,
}

#[derive(Debug)]
pub struct Framebuffer {
    pub host: String,
    pub port: Option<u16>,
    pub w: Option<u32>,
    pub h: Option<u32>,
    pub vga: Option<String>,
    pub wait: bool,
    pub password: Option<String>,
}

/// A USB tablet, so that the pointer follows the frame buffer.
#[derive(Debug)]
pub struct Xhci {}

/// A device given as bhyve's own text.
#[derive(Debug)]
pub struct RawEmulatedPci {
    pub value: String,
}

/// An emulated PCI device.
#[derive(Debug)]
pub enum EmulatedPci {
    VirtioNet(VirtioNet),
    VirtioBlk(VirtioBlk),
    AhciHd(AhciHd),
    AhciCd(AhciCd),
    Nvme(Nvme),
    VirtioConsole(VirtioConsole),
    Passthru(PciPassthru),
    Framebuffer(Framebuffer),
    Xhci(Xhci),
    Raw(RawEmulatedPci),
}

pub open spec fn ahci_text(kind: Seq<char>, path: String, nmrr: Option<u32>, ser: Option<String>, rev: Option<String>, model: Option<String>) -> Seq<char> {
    kind + ","@ + path@ + opt_num("nmrr"@, nmrr) + opt_text("ser"@, ser) + opt_text("rev"@, rev)
        + opt_text("model"@, model)
}

pub open spec fn sector_text(l: Option<u32>, p: Option<u32>) -> Seq<char> {
    match l {
        None => Seq::empty(),
        Some(x) => ",sectorsize="@ + dec_text(x as nat) + match p {
            Some(y) => "/"@ + dec_text(y as nat),
            None => Seq::empty(),
        },
    }
}

/// The `port1=...,port2=...` list of a console, from its first `n` ports.
pub open spec fn ports_text(ports: Seq<String>, n: int) -> Seq<char>
    decreases n,
{
    if n <= 0 {
        Seq::empty()
    } else {
        ports_text(ports, n - 1) + ",port"@ + dec_text(n as nat) + "="@ + ports[n - 1]@
    }
}

pub open spec fn nvme_backend_text(b: NvmeBackend) -> Seq<char> {
    match b {
        NvmeBackend::Ram(mb) => ",ram="@ + dec_text(mb as nat),
        NvmeBackend::Path(p) => ",path="@ + p@,
    }
}

/// How bhyve's `-s` option names the device, after its slot.
pub open spec fn device_text(e: EmulatedPci) -> Seq<char> {
    match e {
        EmulatedPci::VirtioNet(d) => "virtio-net,"@ + d.name@ + ",type="@ + backend_text(d.tpe)
            + opt_num("mtu"@, d.mtu) + opt_text("mac"@, d.mac),
        EmulatedPci::VirtioBlk(d) => "virtio-blk,"@ + d.path@ + flag_text("direct"@, d.direct)
            + flag_text("nocache"@, d.nocache) + flag_text("ro"@, d.ro) + flag_text(
            "nodelete"@,
            d.nodelete,
        ) + sector_text(d.logical_sector_size, d.physical_sector_size),
        EmulatedPci::AhciHd(d) => ahci_text("ahci-hd"@, d.path, d.nmrr, d.ser, d.rev, d.model),
        EmulatedPci::AhciCd(d) => ahci_text("ahci-cd"@, d.path, d.nmrr, d.ser, d.rev, d.model),
        EmulatedPci::Nvme(d) => "nvme"@ + opt_num("qsz"@, d.qsz) + opt_num("ioslots"@, d.ioslots)
            + opt_num("sectsz"@, d.sectsz) + opt_text("ser"@, d.ser) + opt_num("eui64"@, d.eui64)
            + opt_text("dsm"@, d.dsm) + nvme_backend_text(d.backend),
        EmulatedPci::VirtioConsole(d) => "virtio-console"@ + ports_text(
            d.ports@,
            d.ports@.len() as int,
        ),
        EmulatedPci::Passthru(d) => "passthru,"@ + slot_text(d.src, "/"@) + opt_text(
            "rom"@,
            d.rom,
        ),
        EmulatedPci::Framebuffer(d) => "fbuf,tcp="@ + d.host@ + ":"@ + dec_text(
            match d.port {
                Some(p) => p as nat,
                None => 5900,
            },
        ) + opt_num("w"@, d.w) + opt_num("h"@, d.h) + opt_text("vga"@, d.vga) + opt_text(
            "password"@,
            d.password,
        ) + flag_text("wait"@, d.wait),
        EmulatedPci::Xhci(_) => "xhci,tablet"@,
        EmulatedPci::Raw(d) => d.value@,
    }
}

/// The host objects that a device leaves behind: a console's ports.
pub open spec fn ephemeral_spec(e: EmulatedPci) -> Seq<Resource> {
    match e {
        EmulatedPci::VirtioConsole(d) => d.ports@.map_values(|p: String| Resource::Node(p)),
        _ => Seq::empty(),
    }
}

impl BhyveDev for VirtioNet {
    open spec fn precondition_spec(&self, c: Condition) -> bool {
        c == Condition::NetworkBackendAvailable(
            NetworkBackendAvailable { backend: self.tpe, name: self.name },
        )
    }

    fn preconditions(&self) -> (r: Condition) {
        Condition::NetworkBackendAvailable(
            NetworkBackendAvailable { backend: self.tpe, name: self.name.clone() },
        )
    }
}

impl VirtioNet {
    pub fn duplicate(&self) -> (r: VirtioNet)
        ensures
            r == *self,
    {
        VirtioNet { tpe: self.tpe, name: self.name.clone(), mtu: self.mtu, mac: clone_opt(&self.mac) }
    }

    pub fn as_bhyve_arg(&self) -> (r: String)
        ensures
            r@ == "virtio-net,"@ + self.name@ + ",type="@ + backend_text(self.tpe) + opt_num(
                "mtu"@,
                self.mtu,
            ) + opt_text("mac"@, self.mac),
    {
        let s = concat(owned("virtio-net,"), self.name.as_str());
        let s = concat(concat(s, ",type="), self.tpe.as_str());
        let s = push_num(s, "mtu", self.mtu);
        push_text(s, "mac", &self.mac)
    }
}

impl BhyveDev for VirtioBlk {
    open spec fn precondition_spec(&self, c: Condition) -> bool {
        c == Condition::Existence(Existence { resource: FsEntity::File(self.path) })
    }

    fn preconditions(&self) -> (r: Condition) {
        Condition::Existence(Existence { resource: FsEntity::File(self.path.clone()) })
    }
}

impl VirtioBlk {
    pub fn duplicate(&self) -> (r: VirtioBlk)
        ensures
            r == *self,
    {
        VirtioBlk {
            path: self.path.clone(),
            nocache: self.nocache,
            direct: self.direct,
            ro: self.ro,
            logical_sector_size: self.logical_sector_size,
            physical_sector_size: self.physical_sector_size,
            nodelete: self.nodelete,
        }
    }

    pub fn as_bhyve_arg(&self) -> (r: String)
        ensures
            r@ == "virtio-blk,"@ + self.path@ + flag_text("direct"@, self.direct) + flag_text(
                "nocache"@,
                self.nocache,
            ) + flag_text("ro"@, self.ro) + flag_text("nodelete"@, self.nodelete) + sector_text(
                self.logical_sector_size,
                self.physical_sector_size,
            ),
    {
        let s = concat(owned("virtio-blk,"), self.path.as_str());
        let s = push_flag(s, "direct", self.direct);
        let s = push_flag(s, "nocache", self.nocache);
        let s = push_flag(s, "ro", self.ro);
        let s = push_flag(s, "nodelete", self.nodelete);
        let tail = sector_arg(self.logical_sector_size, self.physical_sector_size);
        concat(s, tail.as_str())
    }
}

fn sector_arg(l: Option<u32>, p: Option<u32>) -> (r: String)
    ensures
        r@ == sector_text(l, p),
{
    match l {
        Some(x) => {
            let s = concat(owned(",sectorsize="), decimal(x as u64).as_str());
            let t = match p {
                Some(y) => concat(owned("/"), decimal(y as u64).as_str()),
                None => String::new(),
            };
            concat(s, t.as_str())
        },
        None => String::new(),
    }
}

fn ahci_arg(kind: &str, path: &String, nmrr: Option<u32>, ser: &Option<String>, rev: &Option<String>, model: &Option<String>) -> (r: String)
    ensures
        r@ == ahci_text(kind@, *path, nmrr, *ser, *rev, *model),
{
    let s = concat(concat(owned(kind), ","), path.as_str());
    let s = push_num(s, "nmrr", nmrr);
    let s = push_text(s, "ser", ser);
    let s = push_text(s, "rev", rev);
    push_text(s, "model", model)
}

impl BhyveDev for AhciHd {
    open spec fn precondition_spec(&self, c: Condition) -> bool {
        c == Condition::Existence(Existence { resource: FsEntity::FsItem(self.path) })
    }

    fn preconditions(&self) -> (r: Condition) {
        Condition::Existence(Existence { resource: FsEntity::FsItem(self.path.clone()) })
    }
}

impl AhciHd {
    pub fn duplicate(&self) -> (r: AhciHd)
        ensures
            r == *self,
    {
        AhciHd {
            path: self.path.clone(),
            nmrr: self.nmrr,
            ser: clone_opt(&self.ser),
            rev: clone_opt(&self.rev),
            model: clone_opt(&self.model),
        }
    }

    pub fn as_bhyve_arg(&self) -> (r: String)
        ensures
            r@ == ahci_text("ahci-hd"@, self.path, self.nmrr, self.ser, self.rev, self.model),
    {
        ahci_arg("ahci-hd", &self.path, self.nmrr, &self.ser, &self.rev, &self.model)
    }
}

impl BhyveDev for AhciCd {
    open spec fn precondition_spec(&self, c: Condition) -> bool {
        c == Condition::Existence(Existence { resource: FsEntity::FsItem(self.path) })
    }

    fn preconditions(&self) -> (r: Condition) {
        Condition::Existence(Existence { resource: FsEntity::FsItem(self.path.clone()) })
    }
}

impl AhciCd {
    pub fn duplicate(&self) -> (r: AhciCd)
        ensures
            r == *self,
    {
        AhciCd {
            path: self.path.clone(),
            nmrr: self.nmrr,
            ser: clone_opt(&self.ser),
            rev: clone_opt(&self.rev),
            model: clone_opt(&self.model),
        }
    }

    pub fn as_bhyve_arg(&self) -> (r: String)
        ensures
            r@ == ahci_text("ahci-cd"@, self.path, self.nmrr, self.ser, self.rev, self.model),
    {
        ahci_arg("ahci-cd", &self.path, self.nmrr, &self.ser, &self.rev, &self.model)
    }
}

impl BhyveDev for Nvme {
    open spec fn precondition_spec(&self, c: Condition) -> bool {
        match self.backend {
            NvmeBackend::Path(p) => c == Condition::Existence(
                Existence { resource: FsEntity::FsItem(p) },
            ),
            NvmeBackend::Ram(_) => c == Condition::NoCond(NoCond {}),
        }
    }

    fn preconditions(&self) -> (r: Condition) {
        match &self.backend {
            NvmeBackend::Path(p) => Condition::Existence(
                Existence { resource: FsEntity::FsItem(p.clone()) },
            ),
            NvmeBackend::Ram(_) => Condition::NoCond(NoCond {}),
        }
    }
}

impl Nvme {
    pub fn duplicate(&self) -> (r: Nvme)
        ensures
            r == *self,
    {
        Nvme {
            qsz: self.qsz,
            ioslots: self.ioslots,
            sectsz: self.sectsz,
            ser: clone_opt(&self.ser),
            eui64: self.eui64,
            dsm: clone_opt(&self.dsm),
            backend: match &self.backend {
                NvmeBackend::Ram(n) => NvmeBackend::Ram(*n),
                NvmeBackend::Path(p) => NvmeBackend::Path(p.clone()),
            },
        }
    }

    /// An NVMe device backed by `mbs` megabytes of memory.
    pub fn from_ram_mb(mbs: usize) -> (r: Nvme)
        ensures
            r.backend == NvmeBackend::Ram(mbs),
            r.qsz is None && r.ioslots is None && r.sectsz is None && r.ser is None && r.eui64 is None && r.dsm is None,
    {
        Nvme {
            backend: NvmeBackend::Ram(mbs),
            qsz: None,
            ioslots: None,
            sectsz: None,
            ser: None,
            eui64: None,
            dsm: None,
        }
    }

    /// An NVMe device backed by the file at `path`.
    pub fn from_file(path: String) -> (r: Nvme)
        ensures
            r.backend == NvmeBackend::Path(path),
            r.qsz is None && r.ioslots is None && r.sectsz is None && r.ser is None && r.eui64 is None && r.dsm is None,
    {
        Nvme {
            backend: NvmeBackend::Path(path),
            qsz: None,
            ioslots: None,
            sectsz: None,
            ser: None,
            eui64: None,
            dsm: None,
        }
    }

    pub fn as_bhyve_arg(&self) -> (r: String)
        ensures
            r@ == "nvme"@ + opt_num("qsz"@, self.qsz) + opt_num("ioslots"@, self.ioslots) + opt_num(
                "sectsz"@,
                self.sectsz,
            ) + opt_text("ser"@, self.ser) + opt_num("eui64"@, self.eui64) + opt_text(
                "dsm"@,
                self.dsm,
            ) + nvme_backend_text(self.backend),
    {
        let s = owned("nvme");
        let s = push_num(s, "qsz", self.qsz);
        let s = push_num(s, "ioslots", self.ioslots);
        let s = push_num(s, "sectsz", self.sectsz);
        let s = push_text(s, "ser", &self.ser);
        let s = push_num(s, "eui64", self.eui64);
        let s = push_text(s, "dsm", &self.dsm);
        let tail = match &self.backend {
            NvmeBackend::Ram(mb) => concat(owned(",ram="), decimal(*mb as u64).as_str()),
            NvmeBackend::Path(p) => concat(owned(",path="), p.as_str()),
        };
        concat(s, tail.as_str())
    }
}

impl BhyveDev for VirtioConsole {
    /// One absence condition for each port, under `virtio-console`.
    open spec fn precondition_spec(&self, c: Condition) -> bool {
        c matches Condition::Nested(n) && n.name@ == "virtio-console"@ && n.conditions@.len()
            == self.ports@.len() && forall|i: int|
            0 <= i < self.ports@.len() ==> #[trigger] n.conditions@[i] == Condition::Absence(
                Absence { resource: FsEntity::FsItem(self.ports@[i]) },
            )
    }

    fn preconditions(&self) -> (r: Condition) {
        let mut cond: Vec<Condition> = Vec::new();
        let mut i: usize = 0;
        while i < self.ports.len()
            invariant
                i <= self.ports@.len(),
                cond@.len() == i,
                forall|j: int|
                    0 <= j < i ==> #[trigger] cond@[j] == Condition::Absence(
                        Absence { resource: FsEntity::FsItem(self.ports@[j]) },
                    ),
            decreases self.ports@.len() - i,
        {
            cond.push(
                Condition::Absence(Absence { resource: FsEntity::FsItem(self.ports[i].clone()) }),
            );
            i = i + 1;
        }
        Condition::Nested(NestedConditions { name: owned("virtio-console"), conditions: cond })
    }
}

impl VirtioConsole {
    pub fn duplicate(&self) -> (r: VirtioConsole)
        ensures
            r.ports@ == self.ports@,
    {
        VirtioConsole { ports: clone_strings(&self.ports) }
    }

    /// Each port becomes a node that the run leaves behind.
    pub fn ephemeral_objects(&self) -> (r: Vec<Resource>)
        ensures
            r@ == ephemeral_spec(EmulatedPci::VirtioConsole(*self)),
    {
        let mut v: Vec<Resource> = Vec::new();
        let mut i: usize = 0;
        while i < self.ports.len()
            invariant
                i <= self.ports@.len(),
                v@ == self.ports@.subrange(0, i as int).map_values(|p: String| Resource::Node(p)),
            decreases self.ports@.len() - i,
        {
            v.push(Resource::Node(self.ports[i].clone()));
            proof {
                assert(self.ports@.subrange(0, i + 1).map_values(|p: String| Resource::Node(p))
                    == self.ports@.subrange(0, i as int).map_values(|p: String| Resource::Node(p)).push(
                    Resource::Node(self.ports@[i as int])));
            }
            i = i + 1;
        }
        proof {
            assert(self.ports@.subrange(0, self.ports@.len() as int) == self.ports@);
        }
        v
    }

    pub fn as_bhyve_arg(&self) -> (r: String)
        ensures
            r@ == "virtio-console"@ + ports_text(self.ports@, self.ports@.len() as int),
    {
        let mut base = owned("virtio-console");
        let mut i: usize = 0;
        while i < self.ports.len()
            invariant
                i <= self.ports@.len(),
                base@ == "virtio-console"@ + ports_text(self.ports@, i as int),
            decreases self.ports@.len() - i,
        {
            base = concat(base, ",port");
            base = concat(base, decimal((i + 1) as u64).as_str());
            base = concat(base, "=");
            base = concat(base, self.ports[i].as_str());
            i = i + 1;
        }
        base
    }
}

impl BhyveDev for PciPassthru {
    /// The device must be fit to pass through, and its ROM, if any, a file.
    open spec fn precondition_spec(&self, c: Condition) -> bool {
        c matches Condition::Nested(n) && n.name@ == "passthru"@ && n.conditions@[0]
            == Condition::ValidPassthruDevice(ValidPassthruDevice { slot: self.src }) && match self.rom {
            None => n.conditions@.len() == 1,
            Some(rom) => n.conditions@.len() == 2 && n.conditions@[1] == Condition::Existence(
                Existence { resource: FsEntity::File(rom) },
            ),
        }
    }

    fn preconditions(&self) -> (r: Condition) {
        let mut base: Vec<Condition> = Vec::new();
        base.push(Condition::ValidPassthruDevice(ValidPassthruDevice { slot: self.src }));
        match &self.rom {
            None => {},
            Some(rom) => {
                base.push(Condition::Existence(Existence { resource: FsEntity::File(rom.clone()) }));
            },
        }
        Condition::Nested(NestedConditions { name: owned("passthru"), conditions: base })
    }
}

impl PciPassthru {
    pub fn as_bhyve_arg(&self) -> (r: String)
        ensures
            r@ == "passthru,"@ + slot_text(self.src, "/"@) + opt_text("rom"@, self.rom),
    {
        let s = concat(owned("passthru,"), self.src.as_passthru_arg().as_str());
        push_text(s, "rom", &self.rom)
    }
}

impl BhyveDev for Framebuffer {
    open spec fn precondition_spec(&self, c: Condition) -> bool {
        c == Condition::ValidResolution(ValidResolution { w: self.w, h: self.h })
    }

    fn preconditions(&self) -> (r: Condition) {
        Condition::ValidResolution(ValidResolution { w: self.w, h: self.h })
    }
}

impl Framebuffer {
    pub fn duplicate(&self) -> (r: Framebuffer)
        ensures
            r == *self,
    {
        Framebuffer {
            host: self.host.clone(),
            port: self.port,
            w: self.w,
            h: self.h,
            vga: clone_opt(&self.vga),
            wait: self.wait,
            password: clone_opt(&self.password),
        }
    }

    pub fn as_bhyve_arg(&self) -> (r: String)
        ensures
            r@ == "fbuf,tcp="@ + self.host@ + ":"@ + dec_text(
                match self.port {
                    Some(p) => p as nat,
                    None => 5900,
                },
            ) + opt_num("w"@, self.w) + opt_num("h"@, self.h) + opt_text("vga"@, self.vga)
                + opt_text("password"@, self.password) + flag_text("wait"@, self.wait),
    {
        let port: u16 = match self.port {
            Some(p) => p,
            None => 5900,
        };
        let s = concat(owned("fbuf,tcp="), self.host.as_str());
        let s = concat(concat(s, ":"), decimal(port as u64).as_str());
        let s = push_num(s, "w", self.w);
        let s = push_num(s, "h", self.h);
        let s = push_text(s, "vga", &self.vga);
        let s = push_text(s, "password", &self.password);
        push_flag(s, "wait", self.wait)
    }
}

impl BhyveDev for Xhci {
    open spec fn precondition_spec(&self, c: Condition) -> bool {
        c == Condition::NoCond(NoCond {})
    }

    fn preconditions(&self) -> (r: Condition) {
        Condition::NoCond(NoCond {})
    }
}

impl Xhci {
    pub fn as_bhyve_arg(&self) -> (r: String)
        ensures
            r@ == "xhci,tablet"@,
    {
        owned("xhci,tablet")
    }
}

impl BhyveDev for RawEmulatedPci {
    open spec fn precondition_spec(&self, c: Condition) -> bool {
        c == Condition::NoCond(NoCond {})
    }

    fn preconditions(&self) -> (r: Condition) {
        Condition::NoCond(NoCond {})
    }
}

impl RawEmulatedPci {
    pub fn as_bhyve_arg(&self) -> (r: String)
        ensures
            r@ == self.value@,
    {
        owned(self.value.as_str())
    }
}

impl BhyveDev for EmulatedPci {
    open spec fn precondition_spec(&self, c: Condition) -> bool {
        match *self {
            EmulatedPci::VirtioNet(d) => d.precondition_spec(c),
            EmulatedPci::VirtioBlk(d) => d.precondition_spec(c),
            EmulatedPci::AhciHd(d) => d.precondition_spec(c),
            EmulatedPci::AhciCd(d) => d.precondition_spec(c),
            EmulatedPci::Nvme(d) => d.precondition_spec(c),
            EmulatedPci::VirtioConsole(d) => d.precondition_spec(c),
            EmulatedPci::Passthru(d) => d.precondition_spec(c),
            EmulatedPci::Framebuffer(d) => d.precondition_spec(c),
            EmulatedPci::Xhci(d) => d.precondition_spec(c),
            EmulatedPci::Raw(d) => d.precondition_spec(c),
        }
    }

    fn preconditions(&self) -> (r: Condition) {
        match self {
            EmulatedPci::VirtioNet(d) => d.preconditions(),
            EmulatedPci::VirtioBlk(d) => d.preconditions(),
            EmulatedPci::AhciHd(d) => d.preconditions(),
            EmulatedPci::AhciCd(d) => d.preconditions(),
            EmulatedPci::Nvme(d) => d.preconditions(),
            EmulatedPci::VirtioConsole(d) => d.preconditions(),
            EmulatedPci::Passthru(d) => d.preconditions(),
            EmulatedPci::Framebuffer(d) => d.preconditions(),
            EmulatedPci::Xhci(d) => d.preconditions(),
            EmulatedPci::Raw(d) => d.preconditions(),
        }
    }
}

impl EmulatedPci {
    pub fn as_bhyve_arg(&self) -> (r: String)
        ensures
            r@ == device_text(*self),
    {
        match self {
            EmulatedPci::VirtioNet(d) => d.as_bhyve_arg(),
            EmulatedPci::VirtioBlk(d) => d.as_bhyve_arg(),
            EmulatedPci::AhciHd(d) => d.as_bhyve_arg(),
            EmulatedPci::AhciCd(d) => d.as_bhyve_arg(),
            EmulatedPci::Nvme(d) => d.as_bhyve_arg(),
            EmulatedPci::VirtioConsole(d) => d.as_bhyve_arg(),
            EmulatedPci::Passthru(d) => d.as_bhyve_arg(),
            EmulatedPci::Framebuffer(d) => d.as_bhyve_arg(),
            EmulatedPci::Xhci(d) => d.as_bhyve_arg(),
            EmulatedPci::Raw(d) => d.as_bhyve_arg(),
        }
    }

    /// What the device leaves on the host after the run.
    pub fn ephemeral_objects(&self) -> (r: Vec<Resource>)
        ensures
            r@ == ephemeral_spec(*self),
    {
        match self {
            EmulatedPci::VirtioConsole(d) => d.ephemeral_objects(),
            _ => Vec::new(),
        }
    }
}

} // verus!
