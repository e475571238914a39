//! The compiled invocation plan of a virtual machine and its parts.

use vstd::prelude::*;
use crate::conditions::{
    Condition, Existence, FsEntity, GenericFatalCondition, KernelFeature, LpcSlotAssignment,
    NestedConditions, NoCond, ValidBhyveVPciSlot,
};
use crate::emulation::{device_text, ephemeral_spec, BhyveDev, EmulatedPci};
use crate::slot::{slot_text, PciSlot};
use crate::text::{concat, dec_text, decimal, is_prefix, owned, starts_with, str_eq, views};

verus! {

/// A network back-end kind.
#[derive(Debug, Clone, Copy, PartialEq, Eq, Structural)]
pub enum NetBackend {
    Tap,
    Netgraph,
    Netmap,
    Vale,
}

pub open spec fn backend_text(b: NetBackend) -> Seq<char> {
    match b {
        NetBackend::Tap => "tap"@,
        NetBackend::Netgraph => "netgraph"@,
        NetBackend::Netmap => "netmap"@,
        NetBackend::Vale => "vale"@,
    }
}

impl NetBackend {
    pub fn as_str(&self) -> (r: &'static str)
        ensures
            r@ == backend_text(*self),
    {
        match self {
            NetBackend::Tap => "tap",
            NetBackend::Netgraph => "netgraph",
            NetBackend::Netmap => "netmap",
            NetBackend::Vale => "vale",
        }
    }

    pub fn to_string(&self) -> (r: String)
        ensures
            r@ == backend_text(*self),
    {
        owned(self.as_str())
    }
}

/// A host object that the hypervisor run leaves behind.
#[derive(Debug, Clone, PartialEq, Eq)]
pub enum Resource {
    Iface(NetBackend, String),
    FsItem(String),
    Node(String),
}

pub open spec fn resource_text(r: Resource) -> Seq<char> {
    match r {
        Resource::Iface(b, name) => "network interface of type ("@ + backend_text(b) + "): ("@
            + name@ + ")"@,
        Resource::FsItem(p) => "file: ("@ + p@ + ")"@,
        Resource::Node(p) => "node: ("@ + p@ + ")"@,
    }
}

impl Resource {
    /// A copy equal to `self`.
    pub fn duplicate(&self) -> (r: Resource)
        ensures
            r == *self,
    {
        match self {
            Resource::Iface(b, n) => Resource::Iface(*b, n.clone()),
            Resource::FsItem(p) => Resource::FsItem(p.clone()),
            Resource::Node(p) => Resource::Node(p.clone()),
        }
    }

    /// The path to delete after the run; interfaces are kept.
    pub fn path_to_release(&self) -> (r: Option<String>)
        ensures
            match *self {
                Resource::FsItem(p) => r == Some(p),
                Resource::Node(p) => r == Some(p),
                Resource::Iface(_, _) => r is None,
            },
    {
        match self {
            Resource::FsItem(p) => Some(p.clone()),
            Resource::Node(p) => Some(p.clone()),
            Resource::Iface(_, _) => None,
        }
    }

    pub fn to_string(&self) -> (r: String)
        ensures
            r@ == resource_text(*self),
    {
        match self {
            Resource::Iface(b, name) => {
                let s = concat(owned("network interface of type ("), b.as_str());
                let s = concat(s, "): (");
                let s = concat(s, name.as_str());
                concat(s, ")")
            },
            Resource::FsItem(p) => concat(concat(owned("file: ("), p.as_str()), ")"),
            Resource::Node(p) => concat(concat(owned("node: ("), p.as_str()), ")"),
        }
    }
}

} // verus!

verus! {

/// A device of the LPC bridge.
#[derive(Debug, Clone, PartialEq, Eq)]
pub enum LpcDevice {
    /// A serial port and what backs it: `stdio` or an `nmdm` device.
    Com(u8, String),
    /// The firmware image and its optional variable store.
    Bootrom(String, Option<String>),
    TestDev,
}

pub open spec fn lpc_identifier(d: LpcDevice) -> Seq<char> {
    match d {
        LpcDevice::Bootrom(_, _) => "bootrom"@,
        LpcDevice::Com(i, _) => "com"@ + dec_text(i as nat),
        LpcDevice::TestDev => "testdev"@,
    }
}

pub open spec fn lpc_text(d: LpcDevice) -> Seq<char> {
    match d {
        LpcDevice::Com(i, v) => "com"@ + dec_text(i as nat) + ","@ + v@,
        LpcDevice::TestDev => "pc-testdev"@,
        LpcDevice::Bootrom(f, None) => "bootrom,"@ + f@,
        LpcDevice::Bootrom(f, Some(v)) => "bootrom,"@ + f@ + ","@ + v@,
    }
}

/// The conditions of a serial port: its number within 1 to 4, and a
/// back-end that is `stdio` or an `nmdm` device, whose module is loaded.
pub open spec fn com_conditions_ok(n: u8, dev: Seq<char>, cs: Seq<Condition>) -> bool {
    let num_bad = !(1 <= n <= 4);
    let k: int = if num_bad { 1 } else { 0 };
    &&& num_bad ==> (cs[0] matches Condition::GenericFatal(g) && g.name@
        == "invalid-com-number"@ && g.message@ == "only com[1-4] are supported"@)
    &&& if dev == "stdio"@ {
        cs.len() == k
    } else if is_prefix("nmdm"@, dev) {
        &&& cs.len() == k + 1
        &&& cs[k] matches Condition::KernelFeature(f) && f.kmod@ == "nmdm"@
    } else {
        &&& cs.len() == k + 1
        &&& cs[k] matches Condition::GenericFatal(g) && g.name@ == "invalid-com-device"@
            && g.message@ == "com device must be either stdio or nmdm device"@
    }
}

impl BhyveDev for LpcDevice {
    open spec fn precondition_spec(&self, c: Condition) -> bool {
        match *self {
            LpcDevice::Bootrom(rom, vars) => c matches Condition::Nested(n) && n.name@ == "lpc"@
                && n.conditions@[0] == Condition::Existence(
                Existence { resource: FsEntity::File(rom) },
            ) && match vars {
                None => n.conditions@.len() == 1,
                Some(v) => n.conditions@.len() == 2 && n.conditions@[1] == Condition::Existence(
                    Existence { resource: FsEntity::File(v) },
                ),
            },
            LpcDevice::Com(i, dev) => c matches Condition::Nested(n) && n.name@ == "lpc"@
                && com_conditions_ok(i, dev@, n.conditions@),
            LpcDevice::TestDev => c == Condition::NoCond(NoCond {}),
        }
    }

    fn preconditions(&self) -> (r: Condition) {
        match self {
            LpcDevice::Bootrom(rom, vars) => {
                let mut base: Vec<Condition> = Vec::new();
                base.push(Condition::Existence(Existence { resource: FsEntity::File(rom.clone()) }));
                match vars {
                    Some(v) => {
                        base.push(
                            Condition::Existence(Existence { resource: FsEntity::File(v.clone()) }),
                        );
                    },
                    None => {},
                }
                Condition::Nested(NestedConditions { name: owned("lpc"), conditions: base })
            },
            LpcDevice::Com(n, device) => {
                let mut conditions: Vec<Condition> = Vec::new();
                if !(1 <= *n && *n <= 4) {
                    conditions.push(
                        GenericFatalCondition::new_boxed(
                            "invalid-com-number",
                            "only com[1-4] are supported",
                        ),
                    );
                }
                if str_eq(device.as_str(), "stdio") {
                } else if starts_with(device.as_str(), "nmdm") {
                    conditions.push(KernelFeature::new_boxed("nmdm"));
                } else {
                    conditions.push(
                        GenericFatalCondition::new_boxed(
                            "invalid-com-device",
                            "com device must be either stdio or nmdm device",
                        ),
                    );
                }
                Condition::Nested(NestedConditions { name: owned("lpc"), conditions })
            },
            LpcDevice::TestDev => Condition::NoCond(NoCond {}),
        }
    }
}

impl LpcDevice {
    /// The name under which duplicates are found.
    pub fn identifier(&self) -> (r: String)
        ensures
            r@ == lpc_identifier(*self),
    {
        match self {
            LpcDevice::Bootrom(_, _) => owned("bootrom"),
            LpcDevice::Com(i, _) => concat(owned("com"), decimal(*i as u64).as_str()),
            LpcDevice::TestDev => owned("testdev"),
        }
    }

    /// How bhyve's `-l` option names the device.
    pub fn to_bhyve_arg(&self) -> (r: String)
        ensures
            r@ == lpc_text(*self),
    {
        match self {
            LpcDevice::Com(i, val) => {
                let s = concat(owned("com"), decimal(*i as u64).as_str());
                concat(concat(s, ","), val.as_str())
            },
            LpcDevice::TestDev => owned("pc-testdev"),
            LpcDevice::Bootrom(firmware, varfile) => {
                let s = concat(owned("bootrom,"), firmware.as_str());
                match varfile {
                    Some(var) => concat(concat(s, ","), var.as_str()),
                    None => s,
                }
            },
        }
    }

    /// A copy equal to `self`.
    pub fn duplicate(&self) -> (r: LpcDevice)
        ensures
            r == *self,
    {
        match self {
            LpcDevice::Com(i, v) => LpcDevice::Com(*i, v.clone()),
            LpcDevice::TestDev => LpcDevice::TestDev,
            LpcDevice::Bootrom(f, v) => LpcDevice::Bootrom(
                f.clone(),
                match v {
                    Some(x) => Some(x.clone()),
                    None => None,
                },
            ),
        }
    }
}

/// UEFI boot: the firmware image and its optional variable store.
#[derive(Debug, Clone, PartialEq, Eq)]
pub struct UefiBoot {
    pub bootrom: String,
    pub varfile: Option<String>,
}

/// The CPU topology.
#[derive(Debug, Clone, Copy, PartialEq, Eq, Structural)]
pub struct CpuSpec {
    pub threads: usize,
    pub cores: usize,
    pub sockets: usize,
}

pub open spec fn cpu_text(c: CpuSpec) -> Seq<char> {
    if c.sockets == 1 && c.cores == 1 {
        dec_text(c.threads as nat)
    } else {
        "sockets="@ + dec_text(c.sockets as nat) + ",threads="@ + dec_text(c.threads as nat)
            + ",cores="@ + dec_text(c.cores as nat)
    }
}

impl CpuSpec {
    /// One socket of one core with `threads` threads.
    pub fn from_flat(threads: usize) -> (r: CpuSpec)
        ensures
            r == (CpuSpec { threads, cores: 1, sockets: 1 }),
    {
        CpuSpec { threads, cores: 1, sockets: 1 }
    }

    /// The value of bhyve's `-c` option.
    pub fn as_bhyve_arg(&self) -> (r: String)
        ensures
            r@ == cpu_text(*self),
    {
        if self.sockets == 1 && self.cores == 1 {
            decimal(self.threads as u64)
        } else {
            let s = concat(owned("sockets="), decimal(self.sockets as u64).as_str());
            let s = concat(concat(s, ",threads="), decimal(self.threads as u64).as_str());
            concat(concat(s, ",cores="), decimal(self.cores as u64).as_str())
        }
    }
}

/// An emulated device at its slot.
#[derive(Debug)]
pub struct EmulatedPciDevice {
    pub slot: PciSlot,
    /// Repairs of its conditions may run without asking.
    pub want_fix: bool,
    pub emulation: EmulatedPci,
}

pub open spec fn emulated_text(d: EmulatedPciDevice) -> Seq<char> {
    slot_text(d.slot, ":"@) + ","@ + device_text(d.emulation)
}

impl BhyveDev for EmulatedPciDevice {
    /// The slot must be one bhyve can emulate, and the device's own
    /// conditions hold, under `pci:bus:slot:func`.
    open spec fn precondition_spec(&self, c: Condition) -> bool {
        c matches Condition::Nested(n) && n.name@ == "pci:"@ + slot_text(self.slot, ":"@)
            && n.conditions@.len() == 2 && n.conditions@[0] == Condition::ValidBhyveVPciSlot(
            ValidBhyveVPciSlot { slot: self.slot },
        ) && self.emulation.precondition_spec(n.conditions@[1])
    }

    fn preconditions(&self) -> (r: Condition) {
        let mut base: Vec<Condition> = Vec::new();
        base.push(Condition::ValidBhyveVPciSlot(ValidBhyveVPciSlot { slot: self.slot }));
        base.push(self.emulation.preconditions());
        let name = concat(owned("pci:"), self.slot.as_bhyve_arg().as_str());
        Condition::Nested(NestedConditions { name, conditions: base })
    }
}

impl EmulatedPciDevice {
    /// The value of the device's `-s` option.
    pub fn to_bhyve_arg(&self) -> (r: String)
        ensures
            r@ == emulated_text(*self),
    {
        let s = concat(self.slot.as_bhyve_arg(), ",");
        concat(s, self.emulation.as_bhyve_arg().as_str())
    }
}

/// The compiled invocation plan: every value concrete, every device at its
/// slot.
#[derive(Debug)]
pub struct VmRun {
    pub cpu: CpuSpec,
    pub mem_kb: usize,
    pub hostbridge_brand: String,
    pub hostbridge_slot: PciSlot,
    pub lpc_slot: PciSlot,
    pub lpc_devices: Vec<LpcDevice>,
    pub emulations: Vec<EmulatedPciDevice>,
    pub name: String,
    pub uuid: Option<String>,
    pub gdb: Option<String>,
    pub utc_clock: bool,
    pub yield_on_hlt: bool,
    pub generate_acpi: bool,
    pub wire_guest_mem: bool,
    pub force_msi: bool,
    pub disable_mptable_gen: bool,
    pub power_off_destroy_vm: bool,
    pub extra_options: Vec<String>,
}

pub open spec fn switch(on: bool, s: Seq<char>) -> Seq<Seq<char>> {
    if on {
        seq![s]
    } else {
        Seq::empty()
    }
}

pub open spec fn opt_pair(key: Seq<char>, v: Option<String>) -> Seq<Seq<char>> {
    match v {
        Some(x) => seq![key, x@],
        None => Seq::empty(),
    }
}

/// `-s` and the text of each device.
pub open spec fn emulation_args(es: Seq<EmulatedPciDevice>) -> Seq<Seq<char>>
    decreases es.len(),
{
    if es.len() == 0 {
        Seq::empty()
    } else {
        emulation_args(es.drop_last()) + seq!["-s"@, emulated_text(es.last())]
    }
}

/// `-l` and the text of each LPC device.
pub open spec fn lpc_args(ds: Seq<LpcDevice>) -> Seq<Seq<char>>
    decreases ds.len(),
{
    if ds.len() == 0 {
        Seq::empty()
    } else {
        lpc_args(ds.drop_last()) + seq!["-l"@, lpc_text(ds.last())]
    }
}

pub open spec fn switch_spec(r: VmRun) -> Seq<Seq<char>> {
    switch(r.generate_acpi, "-A"@) + switch(r.wire_guest_mem, "-S"@) + switch(
        r.yield_on_hlt,
        "-H"@,
    ) + switch(r.force_msi, "-W"@) + switch(r.disable_mptable_gen, "-Y"@) + switch(
        r.utc_clock,
        "-u"@,
    ) + switch(r.power_off_destroy_vm, "-D"@)
}

pub open spec fn placement_spec(r: VmRun) -> Seq<Seq<char>> {
    seq!["-c"@, cpu_text(r.cpu)] + seq!["-m"@, dec_text(r.mem_kb as nat) + "K"@] + opt_pair(
        "-G"@,
        r.gdb,
    ) + opt_pair("-U"@, r.uuid) + seq![
        "-s"@,
        slot_text(r.hostbridge_slot, ":"@) + ","@ + r.hostbridge_brand@,
    ] + seq!["-s"@, slot_text(r.lpc_slot, ":"@) + ",lpc"@]
}

/// The hypervisor's arguments: switches, CPU and memory, debugger and
/// UUID, the host bridge and LPC slots, the devices, the LPC devices, the
/// extra options, and last the machine's name.
pub open spec fn argv_spec(r: VmRun) -> Seq<Seq<char>> {
    switch_spec(r) + placement_spec(r) + emulation_args(r.emulations@) + lpc_args(r.lpc_devices@)
        + views(r.extra_options@) + seq![r.name@]
}

/// Identifiers of `ds`.
pub open spec fn identifiers(ds: Seq<LpcDevice>) -> Seq<Seq<char>> {
    ds.map_values(|d: LpcDevice| lpc_identifier(d))
}

/// `cs` holds, for each device of `ds` in order, a fatal condition when an
/// earlier device has the same identifier, then the device's own
/// conditions.
pub open spec fn lpc_conditions_ok(ds: Seq<LpcDevice>, cs: Seq<Condition>) -> bool
    decreases ds.len(),
{
    if ds.len() == 0 {
        cs.len() == 0
    } else {
        let d = ds.last();
        let prev = ds.drop_last();
        if identifiers(prev).contains(lpc_identifier(d)) {
            &&& cs.len() >= 2
            &&& cs[cs.len() - 2] matches Condition::GenericFatal(g) && g.name@
                == "duplicated_lpc_device"@ && g.message@ == "lpc device "@ + lpc_identifier(d)
                + " are specified more than once"@
            &&& d.precondition_spec(cs.last())
            &&& lpc_conditions_ok(prev, cs.subrange(0, cs.len() - 2))
        } else {
            &&& cs.len() >= 1
            &&& d.precondition_spec(cs.last())
            &&& lpc_conditions_ok(prev, cs.drop_last())
        }
    }
}

fn push_str_vec(v: &mut Vec<String>, s: &str)
    ensures
        views(final(v)@) == views(old(v)@).push(s@),
{
    let ghost before = v@;
    v.push(owned(s));
    proof {
        assert(views(v@) =~= views(before).push(s@));
    }
}

fn push_string_vec(v: &mut Vec<String>, s: String)
    ensures
        views(final(v)@) == views(old(v)@).push(s@),
{
    let ghost before = v@;
    v.push(s);
    proof {
        assert(views(v@) =~= views(before).push(s@));
    }
}

fn switch_into(v: &mut Vec<String>, on: bool, s: &str)
    ensures
        views(final(v)@) == views(old(v)@) + switch(on, s@),
{
    if on {
        push_str_vec(v, s);
        proof {
            assert(views(v@) =~= views(old(v)@) + switch(on, s@));
        }
    } else {
        proof {
            assert(views(v@) =~= views(old(v)@) + switch(on, s@));
        }
    }
}

fn append_views(v: &mut Vec<String>, w: &mut Vec<String>)
    ensures
        views(final(v)@) == views(old(v)@) + views(old(w)@),
{
    let ghost a = v@;
    let ghost b = w@;
    v.append(w);
    proof {
        assert(views(v@) =~= views(a) + views(b));
    }
}

fn names_contain(v: &Vec<String>, x: &String) -> (r: bool)
    ensures
        r == views(v@).contains(x@),
{
    let mut i: usize = 0;
    while i < v.len()
        invariant
            i <= v@.len(),
            forall|j: int| 0 <= j < i ==> v@[j]@ != x@,
        decreases v@.len() - i,
    {
        if v[i] == *x {
            assert(views(v@)[i as int] == x@);
            return true;
        }
        i = i + 1;
    }
    proof {
        if views(v@).contains(x@) {
            let j = choose|j: int| 0 <= j < views(v@).len() && views(v@)[j] == x@;
            assert(v@[j]@ == x@);
        }
    }
    false
}

impl VmRun {
    /// The host objects that the run leaves behind, device by device.
    pub fn ephemeral_objects(&self) -> (r: Vec<Resource>)
        ensures
            r@ == emulations_ephemeral(self.emulations@),
    {
        let mut out: Vec<Resource> = Vec::new();
        let mut i: usize = 0;
        while i < self.emulations.len()
            invariant
                i <= self.emulations@.len(),
                out@ == emulations_ephemeral(self.emulations@.subrange(0, i as int)),
            decreases self.emulations@.len() - i,
        {
            proof {
                assert(self.emulations@.subrange(0, i + 1).drop_last() == self.emulations@.subrange(0, i as int));
            }
            let mut more = self.emulations[i].emulation.ephemeral_objects();
            out.append(&mut more);
            i = i + 1;
        }
        proof {
            assert(self.emulations@.subrange(0, self.emulations@.len() as int) == self.emulations@);
        }
        out
    }

    /// The arguments of the hypervisor, the machine's name last.
    pub fn bhyve_args(&self) -> (r: Vec<String>)
        ensures
            views(r@) == argv_spec(*self),
    {
        let mut argv = self.switch_args();
        let mut more = self.placement_args();
        append_views(&mut argv, &mut more);
        let mut devs = self.device_args();
        append_views(&mut argv, &mut devs);
        let mut lpcs = self.lpc_device_args();
        append_views(&mut argv, &mut lpcs);
        let mut k: usize = 0;
        let ghost p5 = views(argv@);
        while k < self.extra_options.len()
            invariant
                k <= self.extra_options@.len(),
                views(argv@) == p5 + views(self.extra_options@.subrange(0, k as int)),
            decreases self.extra_options@.len() - k,
        {
            push_str_vec(&mut argv, self.extra_options[k].as_str());
            proof {
                assert(views(self.extra_options@.subrange(0, k + 1)) =~= views(
                    self.extra_options@.subrange(0, k as int),
                ).push(self.extra_options@[k as int]@));
            }
            k = k + 1;
        }
        proof {
            assert(self.extra_options@.subrange(0, self.extra_options@.len() as int)
                == self.extra_options@);
        }
        push_str_vec(&mut argv, self.name.as_str());
        argv
    }

    fn switch_args(&self) -> (r: Vec<String>)
        ensures
            views(r@) == switch_spec(*self),
    {
        let mut argv: Vec<String> = Vec::new();
        let ghost e = views(argv@);
        switch_into(&mut argv, self.generate_acpi, "-A");
        let ghost a1 = views(argv@);
        switch_into(&mut argv, self.wire_guest_mem, "-S");
        let ghost a2 = views(argv@);
        switch_into(&mut argv, self.yield_on_hlt, "-H");
        let ghost a3 = views(argv@);
        switch_into(&mut argv, self.force_msi, "-W");
        let ghost a4 = views(argv@);
        switch_into(&mut argv, self.disable_mptable_gen, "-Y");
        let ghost a5 = views(argv@);
        switch_into(&mut argv, self.utc_clock, "-u");
        let ghost a6 = views(argv@);
        switch_into(&mut argv, self.power_off_destroy_vm, "-D");
        proof {
            assert(e =~= Seq::<Seq<char>>::empty());
            assert(a1 =~= switch(self.generate_acpi, "-A"@));
            assert(views(argv@) =~= switch_spec(*self));
        }
        argv
    }

    fn placement_args(&self) -> (r: Vec<String>)
        ensures
            views(r@) == placement_spec(*self),
    {
        let mut argv: Vec<String> = Vec::new();
        push_str_vec(&mut argv, "-c");
        push_string_vec(&mut argv, self.cpu.as_bhyve_arg());
        push_str_vec(&mut argv, "-m");
        push_string_vec(&mut argv, concat(decimal(self.mem_kb as u64), "K"));
        match &self.gdb {
            Some(g) => {
                push_str_vec(&mut argv, "-G");
                push_str_vec(&mut argv, g.as_str());
            },
            None => {},
        }
        match &self.uuid {
            Some(u) => {
                push_str_vec(&mut argv, "-U");
                push_str_vec(&mut argv, u.as_str());
            },
            None => {},
        }
        push_str_vec(&mut argv, "-s");
        push_string_vec(
            &mut argv,
            concat(concat(self.hostbridge_slot.as_bhyve_arg(), ","), self.hostbridge_brand.as_str()),
        );
        push_str_vec(&mut argv, "-s");
        push_string_vec(&mut argv, concat(self.lpc_slot.as_bhyve_arg(), ",lpc"));
        proof {
            assert(views(argv@) =~= placement_spec(*self));
        }
        argv
    }

    fn device_args(&self) -> (r: Vec<String>)
        ensures
            views(r@) == emulation_args(self.emulations@),
    {
        let mut argv: Vec<String> = Vec::new();
        let mut i: usize = 0;
        proof {
            assert(views(argv@) =~= emulation_args(self.emulations@.subrange(0, 0)));
        }
        while i < self.emulations.len()
            invariant
                i <= self.emulations@.len(),
                views(argv@) == emulation_args(self.emulations@.subrange(0, i as int)),
            decreases self.emulations@.len() - i,
        {
            proof {
                assert(self.emulations@.subrange(0, i + 1).drop_last() == self.emulations@.subrange(
                    0,
                    i as int,
                ));
            }
            push_str_vec(&mut argv, "-s");
            push_string_vec(&mut argv, self.emulations[i].to_bhyve_arg());
            proof {
                let e = emulation_args(self.emulations@.subrange(0, i as int));
                assert(e.push("-s"@).push(emulated_text(self.emulations@[i as int])) =~= e + seq![
                    "-s"@,
                    emulated_text(self.emulations@[i as int]),
                ]);
            }
            i = i + 1;
        }
        proof {
            assert(self.emulations@.subrange(0, self.emulations@.len() as int) == self.emulations@);
        }
        argv
    }

    fn lpc_device_args(&self) -> (r: Vec<String>)
        ensures
            views(r@) == lpc_args(self.lpc_devices@),
    {
        let mut argv: Vec<String> = Vec::new();
        let mut j: usize = 0;
        proof {
            assert(views(argv@) =~= lpc_args(self.lpc_devices@.subrange(0, 0)));
        }
        while j < self.lpc_devices.len()
            invariant
                j <= self.lpc_devices@.len(),
                views(argv@) == lpc_args(self.lpc_devices@.subrange(0, j as int)),
            decreases self.lpc_devices@.len() - j,
        {
            proof {
                assert(self.lpc_devices@.subrange(0, j + 1).drop_last() == self.lpc_devices@.subrange(
                    0,
                    j as int,
                ));
            }
            push_str_vec(&mut argv, "-l");
            push_string_vec(&mut argv, self.lpc_devices[j].to_bhyve_arg());
            proof {
                let e = lpc_args(self.lpc_devices@.subrange(0, j as int));
                assert(e.push("-l"@).push(lpc_text(self.lpc_devices@[j as int])) =~= e + seq![
                    "-l"@,
                    lpc_text(self.lpc_devices@[j as int]),
                ]);
            }
            j = j + 1;
        }
        proof {
            assert(self.lpc_devices@.subrange(0, self.lpc_devices@.len() as int) == self.lpc_devices@);
        }
        argv
    }

    /// The conditions of the run: under `vm`, the devices' (`vpci`), and
    /// the LPC bridge's (`lpc`): its slot on bus 0, then per device a fatal
    /// condition for a duplicate and the device's own.
    pub fn preconditions(&self) -> (r: Condition)
        ensures
            run_conditions_ok(*self, r),
    {
        let mut emuc: Vec<Condition> = Vec::new();
        let mut i: usize = 0;
        while i < self.emulations.len()
            invariant
                i <= self.emulations@.len(),
                emuc@.len() == i,
                forall|j: int|
                    0 <= j < i ==> #[trigger] self.emulations@[j].precondition_spec(emuc@[j]),
            decreases self.emulations@.len() - i,
        {
            emuc.push(self.emulations[i].preconditions());
            i = i + 1;
        }
        let mut lpc: Vec<Condition> = Vec::new();
        lpc.push(Condition::LpcSlotAssignment(LpcSlotAssignment { slot: self.lpc_slot }));
        let mut seen: Vec<String> = Vec::new();
        let mut k: usize = 0;
        proof {
            assert(lpc@.subrange(1, lpc@.len() as int).len() == 0);
        }
        while k < self.lpc_devices.len()
            invariant
                k <= self.lpc_devices@.len(),
                lpc@.len() >= 1,
                lpc@[0] == Condition::LpcSlotAssignment(LpcSlotAssignment { slot: self.lpc_slot }),
                views(seen@) == identifiers(self.lpc_devices@.subrange(0, k as int)),
                lpc_conditions_ok(
                    self.lpc_devices@.subrange(0, k as int),
                    lpc@.subrange(1, lpc@.len() as int),
                ),
            decreases self.lpc_devices@.len() - k,
        {
            let ghost pre = self.lpc_devices@.subrange(0, k + 1);
            let ghost before = lpc@;
            proof {
                assert(pre.drop_last() == self.lpc_devices@.subrange(0, k as int));
                assert(pre.last() == self.lpc_devices@[k as int]);
            }
            let id = self.lpc_devices[k].identifier();
            if names_contain(&seen, &id) {
                let msg = concat(concat(owned("lpc device "), id.as_str()), " are specified more than once");
                lpc.push(GenericFatalCondition::new_boxed("duplicated_lpc_device", msg.as_str()));
                lpc.push(self.lpc_devices[k].preconditions());
                proof {
                    let t = lpc@.subrange(1, lpc@.len() as int);
                    assert(t.subrange(0, t.len() - 2) == before.subrange(1, before.len() as int));
                }
            } else {
                lpc.push(self.lpc_devices[k].preconditions());
                proof {
                    let t = lpc@.subrange(1, lpc@.len() as int);
                    assert(t.drop_last() == before.subrange(1, before.len() as int));
                }
            }
            push_string_vec(&mut seen, id);
            proof {
                assert(identifiers(pre) =~= identifiers(pre.drop_last()).push(lpc_identifier(pre.last())));
            }
            k = k + 1;
        }
        proof {
            assert(self.lpc_devices@.subrange(0, self.lpc_devices@.len() as int) == self.lpc_devices@);
        }
        let nc = Condition::Nested(NestedConditions { name: owned("vpci"), conditions: emuc });
        let lc = Condition::Nested(NestedConditions { name: owned("lpc"), conditions: lpc });
        let mut top: Vec<Condition> = Vec::new();
        top.push(nc);
        top.push(lc);
        Condition::Nested(NestedConditions { name: owned("vm"), conditions: top })
    }
}

/// `c` is the condition tree of `run`: under `vm`, the devices' (`vpci`),
/// and the LPC bridge's (`lpc`): its slot on bus 0, then per device a fatal
/// condition for a duplicate and the device's own.
pub open spec fn run_conditions_ok(run: VmRun, c: Condition) -> bool {
    c matches Condition::Nested(vm) && {
        &&& vm.name@ == "vm"@
        &&& vm.conditions@.len() == 2
        &&& vm.conditions@[0] matches Condition::Nested(vpci) && {
            &&& vpci.name@ == "vpci"@
            &&& vpci.conditions@.len() == run.emulations@.len()
            &&& forall|i: int|
                0 <= i < run.emulations@.len() ==> #[trigger] run.emulations@[i].precondition_spec(
                    vpci.conditions@[i],
                )
        }
        &&& vm.conditions@[1] matches Condition::Nested(lpc) && {
            &&& lpc.name@ == "lpc"@
            &&& lpc.conditions@.len() >= 1
            &&& lpc.conditions@[0] == Condition::LpcSlotAssignment(
                LpcSlotAssignment { slot: run.lpc_slot },
            )
            &&& lpc_conditions_ok(
                run.lpc_devices@,
                lpc.conditions@.subrange(1, lpc.conditions@.len() as int),
            )
        }
    }
}

/// The host objects that the devices `es` leave behind, in order.
pub open spec fn emulations_ephemeral(es: Seq<EmulatedPciDevice>) -> Seq<Resource>
    decreases es.len(),
{
    if es.len() == 0 {
        Seq::empty()
    } else {
        emulations_ephemeral(es.drop_last()) + ephemeral_spec(es.last().emulation)
    }
}

} // verus!
