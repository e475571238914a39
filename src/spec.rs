//! The declarative machine description, its named overlays ("targets"),
//! and the compiler that turns it into a `VmRun`.

use vstd::prelude::*;
use crate::decoding::{
    declared_device, duplicate_emulations, lemma_same_emulation_equiv, resolvable, same_emulation,
    same_emulations, Emulation,
};
use crate::emulation::{clone_opt, EmulatedPci, Framebuffer, Xhci};
use crate::error::FormatError;
use crate::host::PciDevice;
use crate::slot::{end_pos, free_at, lex_pos, none_free_between, reserves_bus_slot, slot_of, PciSlot, PciSlotGenerator};
use crate::text::{owned, str_eq, views, words, words_spec};
use crate::vm::{CpuSpec, EmulatedPciDevice, LpcDevice, UefiBoot, VmRun};

verus! {

/// The memory of the guest.
#[derive(Debug, Clone, Copy, PartialEq, Eq, Structural)]
pub struct MemorySpec {
    pub kb: usize,
}

/// How the guest boots.
#[derive(Debug, PartialEq, Eq)]
pub enum BootOptions {
    Uefi(UefiBoot),
}

/// A frame buffer reachable over VNC, and optionally a USB tablet.
#[derive(Debug, PartialEq, Eq)]
pub struct GraphicOption {
    pub host: String,
    pub port: Option<u16>,
    pub vga: Option<String>,
    pub password: Option<String>,
    pub wait: bool,
    pub width: Option<u32>,
    pub height: Option<u32>,
    pub xhci_table: bool,
}

/// The description of a virtual machine.
#[derive(Debug)]
pub struct VmSpec {
    pub cpu: CpuSpec,
    pub mem: MemorySpec,
    pub bootopt: Option<BootOptions>,
    pub emulations: Vec<Emulation>,
    pub name: String,
    pub hostbridge: String,
    pub lpc_slot: Option<PciSlot>,
    pub com1: Option<String>,
    pub com2: Option<String>,
    pub com3: Option<String>,
    pub com4: Option<String>,
    pub gdb: Option<String>,
    pub uuid: Option<String>,
    pub graphic: Option<GraphicOption>,
    pub utc_clock: bool,
    pub yield_on_hlt: bool,
    pub generate_acpi: bool,
    pub wire_guest_mem: bool,
    pub force_msi: bool,
    pub disable_mptable_gen: bool,
    pub power_off_destroy_vm: bool,
    pub extra_options: Option<String>,
    /// Named overlays. Read from a document, the names are unique (they are
    /// the keys of a JSON object); a name is looked up at its first entry.
    pub targets: Vec<(String, VmSpecMod)>,
    pub next_target: Option<String>,
    pub post_start_script: Option<String>,
}

/// An overlay: each field that is present replaces the description's,
/// and the emulation entries are appended.
#[derive(Debug)]
pub struct VmSpecMod {
    pub cpu: Option<CpuSpec>,
    pub mem: Option<MemorySpec>,
    pub bootopt: Option<BootOptions>,
    pub emulations: Vec<Emulation>,
    pub gdb: Option<String>,
    pub com1: Option<String>,
    pub com2: Option<String>,
    pub com3: Option<String>,
    pub com4: Option<String>,
    pub utc_clock: Option<bool>,
    pub yield_on_hlt: Option<bool>,
    pub generate_acpi: Option<bool>,
    pub wire_guest_mem: Option<bool>,
    pub force_msi: Option<bool>,
    pub disable_mptable_gen: Option<bool>,
    pub extra_options: Option<String>,
    pub next_target: Option<String>,
    pub post_start_script: Option<String>,
    pub graphic: Option<GraphicOption>,
}

pub open spec fn default_bootrom() -> Seq<char> {
    "/usr/local/share/uefi-firmware/BHYVE_UEFI.fd"@
}

/// UEFI with the firmware that bhyve's package installs.
pub fn default_bootopt() -> (r: BootOptions)
    ensures
        r matches BootOptions::Uefi(u) && u.bootrom@ == default_bootrom() && u.varfile is None,
{
    BootOptions::Uefi(
        UefiBoot { bootrom: owned("/usr/local/share/uefi-firmware/BHYVE_UEFI.fd"), varfile: None },
    )
}

pub fn default_hostbridge() -> (r: String)
    ensures
        r@ == "hostbridge"@,
{
    owned("hostbridge")
}

pub fn yes() -> (r: bool)
    ensures
        r,
{
    true
}

pub fn no() -> (r: bool)
    ensures
        !r,
{
    false
}

/// No overlays.
pub fn empty_hashmap() -> (r: Vec<(String, VmSpecMod)>)
    ensures
        r@.len() == 0,
{
    Vec::new()
}

/// An entry's consent to repairs, when it gives none.
pub fn serde_default_emulation_fix() -> (r: bool)
    ensures
        !r,
{
    false
}

/// `p` if present, else `o`.
pub open spec fn over<T>(o: T, p: Option<T>) -> T {
    match p {
        Some(v) => v,
        None => o,
    }
}

/// `p` if present, else `o`.
pub open spec fn over_opt<T>(o: Option<T>, p: Option<T>) -> Option<T> {
    if p is Some {
        p
    } else {
        o
    }
}

/// `a` and `b` are the same overlay.
pub open spec fn same_mod(a: VmSpecMod, b: VmSpecMod) -> bool {
    &&& a.cpu == b.cpu
    &&& a.mem == b.mem
    &&& a.bootopt == b.bootopt
    &&& same_emulations(a.emulations@, b.emulations@)
    &&& a.gdb == b.gdb
    &&& a.com1 == b.com1
    &&& a.com2 == b.com2
    &&& a.com3 == b.com3
    &&& a.com4 == b.com4
    &&& a.utc_clock == b.utc_clock
    &&& a.yield_on_hlt == b.yield_on_hlt
    &&& a.generate_acpi == b.generate_acpi
    &&& a.wire_guest_mem == b.wire_guest_mem
    &&& a.force_msi == b.force_msi
    &&& a.disable_mptable_gen == b.disable_mptable_gen
    &&& a.extra_options == b.extra_options
    &&& a.next_target == b.next_target
    &&& a.post_start_script == b.post_start_script
    &&& a.graphic == b.graphic
}

/// `a` and `b` are the same overlays under the same names.
pub open spec fn same_targets(a: Seq<(String, VmSpecMod)>, b: Seq<(String, VmSpecMod)>) -> bool {
    a.len() == b.len() && forall|i: int|
        0 <= i < a.len() ==> #[trigger] a[i].0 == b[i].0 && same_mod(a[i].1, b[i].1)
}

/// The overlay changes nothing.
pub open spec fn is_empty_patch(p: VmSpecMod) -> bool {
    &&& p.cpu is None
    &&& p.mem is None
    &&& p.bootopt is None
    &&& p.emulations@.len() == 0
    &&& p.gdb is None
    &&& p.com1 is None
    &&& p.com2 is None
    &&& p.com3 is None
    &&& p.com4 is None
    &&& p.utc_clock is None
    &&& p.yield_on_hlt is None
    &&& p.generate_acpi is None
    &&& p.wire_guest_mem is None
    &&& p.force_msi is None
    &&& p.disable_mptable_gen is None
    &&& p.extra_options is None
    &&& p.next_target is None
    &&& p.post_start_script is None
    &&& p.graphic is None
}

/// `a` and `b` describe the same machine.
pub open spec fn same_spec(a: VmSpec, b: VmSpec) -> bool {
    &&& a.cpu == b.cpu
    &&& a.mem == b.mem
    &&& a.bootopt == b.bootopt
    &&& same_emulations(a.emulations@, b.emulations@)
    &&& a.name == b.name
    &&& a.hostbridge == b.hostbridge
    &&& a.lpc_slot == b.lpc_slot
    &&& a.com1 == b.com1
    &&& a.com2 == b.com2
    &&& a.com3 == b.com3
    &&& a.com4 == b.com4
    &&& a.gdb == b.gdb
    &&& a.uuid == b.uuid
    &&& a.graphic == b.graphic
    &&& a.utc_clock == b.utc_clock
    &&& a.yield_on_hlt == b.yield_on_hlt
    &&& a.generate_acpi == b.generate_acpi
    &&& a.wire_guest_mem == b.wire_guest_mem
    &&& a.force_msi == b.force_msi
    &&& a.disable_mptable_gen == b.disable_mptable_gen
    &&& a.power_off_destroy_vm == b.power_off_destroy_vm
    &&& a.extra_options == b.extra_options
    &&& same_targets(a.targets@, b.targets@)
    &&& a.next_target == b.next_target
    &&& a.post_start_script == b.post_start_script
}

/// `n` is `o` with the overlay `p` applied: present fields replace, the
/// emulation entries of `p` follow those of `o`, the rest is kept.
pub open spec fn consume_spec(o: VmSpec, p: VmSpecMod, n: VmSpec) -> bool {
    &&& n.cpu == over(o.cpu, p.cpu)
    &&& n.mem == over(o.mem, p.mem)
    &&& n.bootopt == over_opt(o.bootopt, p.bootopt)
    &&& n.gdb == over_opt(o.gdb, p.gdb)
    &&& n.com1 == over_opt(o.com1, p.com1)
    &&& n.com2 == over_opt(o.com2, p.com2)
    &&& n.com3 == over_opt(o.com3, p.com3)
    &&& n.com4 == over_opt(o.com4, p.com4)
    &&& n.utc_clock == over(o.utc_clock, p.utc_clock)
    &&& n.yield_on_hlt == over(o.yield_on_hlt, p.yield_on_hlt)
    &&& n.generate_acpi == over(o.generate_acpi, p.generate_acpi)
    &&& n.wire_guest_mem == over(o.wire_guest_mem, p.wire_guest_mem)
    &&& n.force_msi == over(o.force_msi, p.force_msi)
    &&& n.disable_mptable_gen == over(o.disable_mptable_gen, p.disable_mptable_gen)
    &&& n.extra_options == over_opt(o.extra_options, p.extra_options)
    &&& n.next_target == over_opt(o.next_target, p.next_target)
    &&& n.post_start_script == over_opt(o.post_start_script, p.post_start_script)
    &&& n.graphic == over_opt(o.graphic, p.graphic)
    &&& same_emulations(n.emulations@, o.emulations@ + p.emulations@)
    &&& n.name == o.name
    &&& n.hostbridge == o.hostbridge
    &&& n.lpc_slot == o.lpc_slot
    &&& n.uuid == o.uuid
    &&& n.power_off_destroy_vm == o.power_off_destroy_vm
    &&& same_targets(n.targets@, o.targets@)
}

/// Overlay laws: an empty overlay changes nothing; the emulation entries
/// of the overlay are appended after the existing ones, in order; and an
/// optional field that was present stays present.
pub proof fn lemma_overlay_laws(o: VmSpec, p: VmSpecMod, n: VmSpec)
    requires
        consume_spec(o, p, n),
    ensures
        is_empty_patch(p) ==> same_spec(o, n),
        n.emulations@.len() == o.emulations@.len() + p.emulations@.len(),
        forall|i: int| 0 <= i < o.emulations@.len() ==> same_emulation(#[trigger] n.emulations@[i], o.emulations@[i]),
        forall|j: int|
            0 <= j < p.emulations@.len() ==> same_emulation(
                #[trigger] n.emulations@[o.emulations@.len() + j],
                p.emulations@[j],
            ),
        o.bootopt is Some ==> n.bootopt is Some,
        o.gdb is Some ==> n.gdb is Some,
        o.com1 is Some ==> n.com1 is Some,
        o.com2 is Some ==> n.com2 is Some,
        o.com3 is Some ==> n.com3 is Some,
        o.com4 is Some ==> n.com4 is Some,
        o.extra_options is Some ==> n.extra_options is Some,
        o.next_target is Some ==> n.next_target is Some,
        o.post_start_script is Some ==> n.post_start_script is Some,
        o.graphic is Some ==> n.graphic is Some,
{
    let k = o.emulations@.len();
    assert forall|j: int| 0 <= j < p.emulations@.len() implies same_emulation(
        #[trigger] n.emulations@[k + j],
        p.emulations@[j],
    ) by {
        assert((o.emulations@ + p.emulations@)[k + j] == p.emulations@[j]);
    }
    assert forall|i: int| 0 <= i < k implies same_emulation(
        #[trigger] n.emulations@[i],
        o.emulations@[i],
    ) by {
        assert((o.emulations@ + p.emulations@)[i] == o.emulations@[i]);
    }
    if is_empty_patch(p) {
        assert(o.emulations@ + p.emulations@ == o.emulations@);
        assert forall|i: int| 0 <= i < o.emulations@.len() implies same_emulation(
            #[trigger] o.emulations@[i],
            n.emulations@[i],
        ) by {
            lemma_same_emulation_sym(n.emulations@[i], o.emulations@[i]);
        }
        assert forall|i: int| 0 <= i < o.targets@.len() implies #[trigger] o.targets@[i].0
            == n.targets@[i].0 && same_mod(o.targets@[i].1, n.targets@[i].1) by {
            lemma_same_mod_sym(n.targets@[i].1, o.targets@[i].1);
        }
    }
}

proof fn lemma_same_emulation_sym(a: Emulation, b: Emulation)
    ensures
        same_emulation(a, b) ==> same_emulation(b, a),
{
}

proof fn lemma_same_mod_sym(a: VmSpecMod, b: VmSpecMod)
    ensures
        same_mod(a, b) ==> same_mod(b, a),
{
    if same_mod(a, b) {
        assert forall|i: int| 0 <= i < b.emulations@.len() implies same_emulation(
            #[trigger] b.emulations@[i],
            a.emulations@[i],
        ) by {
            lemma_same_emulation_sym(a.emulations@[i], b.emulations@[i]);
        }
    }
}

fn merge_copy<T: Copy>(field: &mut T, p: Option<T>)
    ensures
        *final(field) == over(*old(field), p),
{
    if let Some(v) = p {
        *field = v;
    }
}

fn merge_text(field: &mut Option<String>, p: &Option<String>)
    ensures
        *final(field) == over_opt(*old(field), *p),
{
    if p.is_some() {
        *field = clone_opt(p);
    }
}

proof fn lemma_same_targets_refl(s: Seq<(String, VmSpecMod)>)
    ensures
        same_targets(s, s),
{
    assert forall|i: int| 0 <= i < s.len() implies #[trigger] s[i].0 == s[i].0 && same_mod(
        s[i].1,
        s[i].1,
    ) by {
        let m = s[i].1;
        assert forall|j: int| 0 <= j < m.emulations@.len() implies same_emulation(
            #[trigger] m.emulations@[j],
            m.emulations@[j],
        ) by {
            lemma_same_emulation_equiv(m.emulations@[j], m.emulations@[j], m.emulations@[j]);
        }
    }
}

fn clone_opt_bool(v: &Option<bool>) -> (r: Option<bool>)
    ensures
        r == *v,
{
    *v
}

impl BootOptions {
    pub fn duplicate(&self) -> (r: BootOptions)
        ensures
            r == *self,
    {
        match self {
            BootOptions::Uefi(u) => BootOptions::Uefi(
                UefiBoot { bootrom: u.bootrom.clone(), varfile: clone_opt(&u.varfile) },
            ),
        }
    }
}

impl GraphicOption {
    pub fn duplicate(&self) -> (r: GraphicOption)
        ensures
            r == *self,
    {
        GraphicOption {
            host: self.host.clone(),
            port: self.port,
            vga: clone_opt(&self.vga),
            password: clone_opt(&self.password),
            wait: self.wait,
            width: self.width,
            height: self.height,
            xhci_table: self.xhci_table,
        }
    }
}

fn clone_boot(v: &Option<BootOptions>) -> (r: Option<BootOptions>)
    ensures
        r == *v,
{
    match v {
        Some(b) => Some(b.duplicate()),
        None => None,
    }
}

fn clone_graphic(v: &Option<GraphicOption>) -> (r: Option<GraphicOption>)
    ensures
        r == *v,
{
    match v {
        Some(g) => Some(g.duplicate()),
        None => None,
    }
}

impl VmSpecMod {
    pub fn duplicate(&self) -> (r: VmSpecMod)
        ensures
            same_mod(r, *self),
    {
        VmSpecMod {
            cpu: self.cpu,
            mem: self.mem,
            bootopt: clone_boot(&self.bootopt),
            emulations: duplicate_emulations(&self.emulations),
            gdb: clone_opt(&self.gdb),
            com1: clone_opt(&self.com1),
            com2: clone_opt(&self.com2),
            com3: clone_opt(&self.com3),
            com4: clone_opt(&self.com4),
            utc_clock: clone_opt_bool(&self.utc_clock),
            yield_on_hlt: clone_opt_bool(&self.yield_on_hlt),
            generate_acpi: clone_opt_bool(&self.generate_acpi),
            wire_guest_mem: clone_opt_bool(&self.wire_guest_mem),
            force_msi: clone_opt_bool(&self.force_msi),
            disable_mptable_gen: clone_opt_bool(&self.disable_mptable_gen),
            extra_options: clone_opt(&self.extra_options),
            next_target: clone_opt(&self.next_target),
            post_start_script: clone_opt(&self.post_start_script),
            graphic: clone_graphic(&self.graphic),
        }
    }
}

fn duplicate_targets(v: &Vec<(String, VmSpecMod)>) -> (r: Vec<(String, VmSpecMod)>)
    ensures
        same_targets(r@, v@),
{
    let mut out: Vec<(String, VmSpecMod)> = Vec::new();
    let mut i: usize = 0;
    while i < v.len()
        invariant
            i <= v@.len(),
            out@.len() == i,
            forall|j: int| 0 <= j < i ==> #[trigger] out@[j].0 == v@[j].0 && same_mod(out@[j].1, v@[j].1),
        decreases v@.len() - i,
    {
        out.push((v[i].0.clone(), v[i].1.duplicate()));
        i = i + 1;
    }
    out
}

/// No two overlays have the same name.
pub open spec fn targets_unique(t: Seq<(String, VmSpecMod)>) -> bool {
    forall|i: int, j: int| 0 <= i < j < t.len() ==> (#[trigger] t[i]).0@ != (#[trigger] t[j]).0@
}

/// With unique names, the overlay found for a name is the only one.
pub proof fn lemma_unique_lookup(t: Seq<(String, VmSpecMod)>, name: Seq<char>, i: int)
    requires
        targets_unique(t),
        0 <= i < t.len(),
        t[i].0@ == name,
    ensures
        target_index(t, name) == i,
{
    lemma_target_index(t, name);
    let k = target_index(t, name);
    if k < i {
        assert(t[k].0@ != t[i].0@);
    }
}

proof fn lemma_same_targets_keep_unique(a: Seq<(String, VmSpecMod)>, b: Seq<(String, VmSpecMod)>)
    requires
        same_targets(a, b),
        targets_unique(b),
    ensures
        targets_unique(a),
{
    assert forall|i: int, j: int| 0 <= i < j < a.len() implies (#[trigger] a[i]).0@ != (#[trigger] a[j]).0@ by {
        assert(a[i].0 == b[i].0 && a[j].0 == b[j].0);
        assert(b[i].0@ != b[j].0@);
    }
}

/// Index of the first overlay named `t`, or `s.len()`.
pub open spec fn target_index(s: Seq<(String, VmSpecMod)>, t: Seq<char>) -> int
    decreases s.len(),
{
    if s.len() == 0 {
        0
    } else if s[0].0@ == t {
        0
    } else {
        1 + target_index(s.drop_first(), t)
    }
}

pub proof fn lemma_target_index(s: Seq<(String, VmSpecMod)>, t: Seq<char>)
    ensures
        0 <= target_index(s, t) <= s.len(),
        target_index(s, t) < s.len() ==> s[target_index(s, t)].0@ == t,
        target_index(s, t) == s.len() ==> forall|i: int| 0 <= i < s.len() ==> #[trigger] s[i].0@ != t,
    decreases s.len(),
{
    if s.len() > 0 && s[0].0@ != t {
        lemma_target_index(s.drop_first(), t);
        assert forall|i: int| 0 <= i < s.len() && target_index(s, t) == s.len() implies #[trigger] s[i].0@ != t by {
            if i > 0 {
                assert(s[i] == s.drop_first()[i - 1]);
            }
        }
    }
}

impl VmSpec {
    /// The description is well formed: its overlays have distinct names,
    /// as the keys of the document's `targets` object are.
    pub open spec fn wf(&self) -> bool {
        targets_unique(self.targets@)
    }

    /// Whether the overlays have distinct names.
    pub fn targets_are_unique(&self) -> (r: bool)
        ensures
            r == self.wf(),
    {
        let n = self.targets.len();
        let mut j: usize = 1;
        while j < n
            invariant
                n == self.targets@.len(),
                1 <= j <= n || n == 0,
                forall|a: int, b: int| 0 <= a < b < j && b < n ==> (#[trigger] self.targets@[a]).0@ != (#[trigger] self.targets@[b]).0@,
            decreases n - j,
        {
            let mut i: usize = 0;
            while i < j
                invariant
                    n == self.targets@.len(),
                    j < n,
                    i <= j,
                    forall|a: int, b: int| 0 <= a < b < j ==> (#[trigger] self.targets@[a]).0@ != (#[trigger] self.targets@[b]).0@,
                    forall|a: int| 0 <= a < i ==> (#[trigger] self.targets@[a]).0@ != self.targets@[j as int].0@,
                decreases j - i,
            {
                if self.targets[i].0 == self.targets[j].0 {
                    assert(self.targets@[i as int].0@ == self.targets@[j as int].0@);
                    return false;
                }
                i = i + 1;
            }
            j = j + 1;
        }
        true
    }

    /// Applies the overlay `patch`.
    pub fn consume(&mut self, patch: &VmSpecMod)
        ensures
            consume_spec(*old(self), *patch, *final(self)),
            old(self).wf() ==> final(self).wf(),
    {
        self.merge_fields(patch);
        self.append_emulations(&patch.emulations);
        proof {
            lemma_same_targets_refl(self.targets@);
        }
    }

    #[verifier::rlimit(40)]
    fn merge_fields(&mut self, patch: &VmSpecMod)
        ensures
            final(self).cpu == over(old(self).cpu, patch.cpu),
            final(self).mem == over(old(self).mem, patch.mem),
            final(self).bootopt == over_opt(old(self).bootopt, patch.bootopt),
            final(self).gdb == over_opt(old(self).gdb, patch.gdb),
            final(self).com1 == over_opt(old(self).com1, patch.com1),
            final(self).com2 == over_opt(old(self).com2, patch.com2),
            final(self).com3 == over_opt(old(self).com3, patch.com3),
            final(self).com4 == over_opt(old(self).com4, patch.com4),
            final(self).utc_clock == over(old(self).utc_clock, patch.utc_clock),
            final(self).yield_on_hlt == over(old(self).yield_on_hlt, patch.yield_on_hlt),
            final(self).generate_acpi == over(old(self).generate_acpi, patch.generate_acpi),
            final(self).wire_guest_mem == over(old(self).wire_guest_mem, patch.wire_guest_mem),
            final(self).force_msi == over(old(self).force_msi, patch.force_msi),
            final(self).disable_mptable_gen == over(old(self).disable_mptable_gen, patch.disable_mptable_gen),
            final(self).extra_options == over_opt(old(self).extra_options, patch.extra_options),
            final(self).next_target == over_opt(old(self).next_target, patch.next_target),
            final(self).post_start_script == over_opt(old(self).post_start_script, patch.post_start_script),
            final(self).graphic == over_opt(old(self).graphic, patch.graphic),
            final(self).emulations == old(self).emulations,
            final(self).name == old(self).name,
            final(self).hostbridge == old(self).hostbridge,
            final(self).lpc_slot == old(self).lpc_slot,
            final(self).uuid == old(self).uuid,
            final(self).power_off_destroy_vm == old(self).power_off_destroy_vm,
            final(self).targets == old(self).targets,
    {
        merge_copy(&mut self.cpu, patch.cpu);
        merge_copy(&mut self.mem, patch.mem);
        if patch.bootopt.is_some() {
            self.bootopt = clone_boot(&patch.bootopt);
        }
        merge_text(&mut self.gdb, &patch.gdb);
        merge_text(&mut self.com1, &patch.com1);
        merge_text(&mut self.com2, &patch.com2);
        merge_text(&mut self.com3, &patch.com3);
        merge_text(&mut self.com4, &patch.com4);
        merge_copy(&mut self.utc_clock, patch.utc_clock);
        merge_copy(&mut self.yield_on_hlt, patch.yield_on_hlt);
        merge_copy(&mut self.generate_acpi, patch.generate_acpi);
        merge_copy(&mut self.wire_guest_mem, patch.wire_guest_mem);
        merge_copy(&mut self.force_msi, patch.force_msi);
        merge_copy(&mut self.disable_mptable_gen, patch.disable_mptable_gen);
        merge_text(&mut self.extra_options, &patch.extra_options);
        merge_text(&mut self.next_target, &patch.next_target);
        merge_text(&mut self.post_start_script, &patch.post_start_script);
        if patch.graphic.is_some() {
            self.graphic = clone_graphic(&patch.graphic);
        }
    }

    fn append_emulations(&mut self, more: &Vec<Emulation>)
        ensures
            same_emulations(final(self).emulations@, old(self).emulations@ + more@),
            final(self).cpu == old(self).cpu,
            final(self).mem == old(self).mem,
            final(self).bootopt == old(self).bootopt,
            final(self).gdb == old(self).gdb,
            final(self).com1 == old(self).com1,
            final(self).com2 == old(self).com2,
            final(self).com3 == old(self).com3,
            final(self).com4 == old(self).com4,
            final(self).utc_clock == old(self).utc_clock,
            final(self).yield_on_hlt == old(self).yield_on_hlt,
            final(self).generate_acpi == old(self).generate_acpi,
            final(self).wire_guest_mem == old(self).wire_guest_mem,
            final(self).force_msi == old(self).force_msi,
            final(self).disable_mptable_gen == old(self).disable_mptable_gen,
            final(self).extra_options == old(self).extra_options,
            final(self).next_target == old(self).next_target,
            final(self).post_start_script == old(self).post_start_script,
            final(self).graphic == old(self).graphic,
            final(self).name == old(self).name,
            final(self).hostbridge == old(self).hostbridge,
            final(self).lpc_slot == old(self).lpc_slot,
            final(self).uuid == old(self).uuid,
            final(self).power_off_destroy_vm == old(self).power_off_destroy_vm,
            final(self).targets == old(self).targets,
    {
        let ghost before = self.emulations@;
        let mut copies = duplicate_emulations(more);
        self.emulations.append(&mut copies);
        proof {
            let k = before.len();
            assert forall|i: int| 0 <= i < self.emulations@.len() implies same_emulation(
                #[trigger] self.emulations@[i],
                (before + more@)[i],
            ) by {
                if i >= k {
                    assert((before + more@)[i] == more@[i - k]);
                } else {
                    lemma_same_emulation_equiv(before[i], before[i], before[i]);
                }
            }
        }
    }

    /// A copy of `self`.
    pub fn duplicate(&self) -> (r: VmSpec)
        ensures
            same_spec(r, *self),
            self.wf() ==> r.wf(),
    {
        let r = VmSpec {
            cpu: self.cpu,
            mem: self.mem,
            bootopt: clone_boot(&self.bootopt),
            emulations: duplicate_emulations(&self.emulations),
            name: self.name.clone(),
            hostbridge: self.hostbridge.clone(),
            lpc_slot: self.lpc_slot,
            com1: clone_opt(&self.com1),
            com2: clone_opt(&self.com2),
            com3: clone_opt(&self.com3),
            com4: clone_opt(&self.com4),
            gdb: clone_opt(&self.gdb),
            uuid: clone_opt(&self.uuid),
            graphic: clone_graphic(&self.graphic),
            utc_clock: self.utc_clock,
            yield_on_hlt: self.yield_on_hlt,
            generate_acpi: self.generate_acpi,
            wire_guest_mem: self.wire_guest_mem,
            force_msi: self.force_msi,
            disable_mptable_gen: self.disable_mptable_gen,
            power_off_destroy_vm: self.power_off_destroy_vm,
            extra_options: clone_opt(&self.extra_options),
            targets: duplicate_targets(&self.targets),
            next_target: clone_opt(&self.next_target),
            post_start_script: clone_opt(&self.post_start_script),
        };
        proof {
            if self.wf() {
                lemma_same_targets_keep_unique(r.targets@, self.targets@);
            }
        }
        r
    }

    /// A copy of `self` with the overlay `patch` applied.
    pub fn consumed(&self, patch: &VmSpecMod) -> (r: VmSpec)
        ensures
            exists|c: VmSpec| same_spec(c, *self) && consume_spec(c, *patch, r),
            self.wf() ==> r.wf(),
    {
        let mut clone = self.duplicate();
        let ghost c = clone;
        clone.consume(patch);
        assert(same_spec(c, *self) && consume_spec(c, *patch, clone));
        clone
    }

    fn find_target(&self, target: &String) -> (r: usize)
        ensures
            r == target_index(self.targets@, target@),
    {
        proof {
            lemma_target_index(self.targets@, target@);
            assert(self.targets@.subrange(0, self.targets@.len() as int) == self.targets@);
        }
        let mut i: usize = 0;
        while i < self.targets.len()
            invariant
                i <= self.targets@.len(),
                target_index(self.targets@, target@) == i + target_index(
                    self.targets@.subrange(i as int, self.targets@.len() as int),
                    target@,
                ),
            decreases self.targets@.len() - i,
        {
            let ghost rest = self.targets@.subrange(i as int, self.targets@.len() as int);
            proof {
                assert(rest.drop_first() == self.targets@.subrange(i + 1, self.targets@.len() as int));
                assert(rest[0] == self.targets@[i as int]);
            }
            if str_eq(self.targets[i].0.as_str(), target.as_str()) {
                return i;
            }
            i = i + 1;
        }
        i
    }

    /// Whether an overlay is named `target`.
    pub fn has_target(&self, target: &String) -> (r: bool)
        ensures
            r == exists|i: int| 0 <= i < self.targets@.len() && #[trigger] self.targets@[i].0@ == target@,
    {
        proof {
            lemma_target_index(self.targets@, target@);
        }
        let i = self.find_target(target);
        i < self.targets.len()
    }

    /// A copy of `self` with the overlay named `target` applied.
    pub fn with_target(&self, target: &String) -> (r: Result<VmSpec, FormatError>)
        ensures
            target_index(self.targets@, target@) == self.targets@.len() <==> r matches Err(FormatError::ProfileNotFound),
            target_index(self.targets@, target@) < self.targets@.len() ==> r is Ok,
            r matches Ok(n) ==> (self.wf() ==> n.wf()),
            r matches Ok(n) ==> exists|c: VmSpec| same_spec(c, *self) && consume_spec(
                c,
                self.targets@[target_index(self.targets@, target@)].1,
                n,
            ),
    {
        proof {
            lemma_target_index(self.targets@, target@);
        }
        let i = self.find_target(target);
        if i >= self.targets.len() {
            return Err(FormatError::ProfileNotFound);
        }
        Ok(self.consumed(&self.targets[i].1))
    }

    /// Applies the overlay named `target`.
    pub fn consume_target(&mut self, target: &String) -> (r: Result<(), FormatError>)
        ensures
            target_index(old(self).targets@, target@) == old(self).targets@.len() ==> (r matches Err(FormatError::ProfileNotFound) && *final(self) == *old(self)),
            target_index(old(self).targets@, target@) < old(self).targets@.len() ==> r is Ok && exists|m: VmSpecMod| same_mod(m, old(self).targets@[target_index(old(self).targets@, target@)].1) && consume_spec(*old(self), m, *final(self)),
            old(self).wf() ==> final(self).wf(),
    {
        proof {
            lemma_target_index(self.targets@, target@);
        }
        let i = self.find_target(target);
        if i >= self.targets.len() {
            return Err(FormatError::ProfileNotFound);
        }
        let modification = self.targets[i].1.duplicate();
        self.consume(&modification);
        Ok(())
    }
}


/// The frame buffer that a graphic block describes.
pub open spec fn fb_of(g: GraphicOption) -> Framebuffer {
    Framebuffer {
        host: g.host,
        port: g.port,
        w: g.width,
        h: g.height,
        vga: g.vga,
        wait: g.wait,
        password: g.password,
    }
}

impl GraphicOption {
    pub fn to_emulated(&self) -> (r: Framebuffer)
        ensures
            r == fb_of(*self),
    {
        Framebuffer {
            host: self.host.clone(),
            port: self.port,
            vga: clone_opt(&self.vga),
            password: clone_opt(&self.password),
            w: self.width,
            h: self.height,
            wait: self.wait,
        }
    }
}

/// `x` is placed explicitly: by an emulation entry or as the LPC slot.
pub open spec fn reserved_slot(s: VmSpec, x: PciSlot) -> bool {
    (exists|j: int| 0 <= j < s.emulations@.len() && s.emulations@[j].slot == Some(x))
        || s.lpc_slot == Some(x)
}

/// Bus 0 has a slot that `next_slot` may issue.
pub open spec fn bus0_free(s: VmSpec) -> bool {
    exists|k: int| 0 <= k < 31 && !reserved_slot(s, #[trigger] slot_of(0, k))
}

/// No two explicit placements name the same slot.
pub open spec fn explicit_distinct(s: VmSpec) -> bool {
    &&& forall|i: int, j: int|
        0 <= i < j < s.emulations@.len() && (#[trigger] s.emulations@[i]).slot is Some && (
        #[trigger] s.emulations@[j]).slot is Some ==> s.emulations@[i].slot != s.emulations@[j].slot
    &&& s.lpc_slot is Some ==> forall|i: int|
        0 <= i < s.emulations@.len() ==> (#[trigger] s.emulations@[i]).slot != s.lpc_slot
}

/// The slots of a run: host bridge, LPC bridge, then each device.
pub open spec fn run_slots(r: VmRun) -> Seq<PciSlot> {
    seq![r.hostbridge_slot, r.lpc_slot] + slots_of(r.emulations@)
}

pub open spec fn slots_of(es: Seq<EmulatedPciDevice>) -> Seq<PciSlot> {
    es.map_values(|e: EmulatedPciDevice| e.slot)
}

/// The serial ports that the description sets, in order.
pub open spec fn coms_spec(s: VmSpec) -> Seq<LpcDevice> {
    (match s.com1 {
        Some(c) => seq![LpcDevice::Com(1, c)],
        None => Seq::empty(),
    }) + (match s.com2 {
        Some(c) => seq![LpcDevice::Com(2, c)],
        None => Seq::empty(),
    }) + (match s.com3 {
        Some(c) => seq![LpcDevice::Com(3, c)],
        None => Seq::empty(),
    }) + (match s.com4 {
        Some(c) => seq![LpcDevice::Com(4, c)],
        None => Seq::empty(),
    })
}

/// `d` is the boot ROM device of `s`: its UEFI firmware, or the default.
pub open spec fn boot_device_ok(s: VmSpec, d: LpcDevice) -> bool {
    match s.bootopt {
        Some(BootOptions::Uefi(u)) => d == LpcDevice::Bootrom(u.bootrom, u.varfile),
        None => d matches LpcDevice::Bootrom(rom, var) && rom@ == default_bootrom() && var is None,
    }
}

pub open spec fn extra_text(s: VmSpec) -> Seq<char> {
    match s.extra_options {
        Some(t) => t@,
        None => Seq::empty(),
    }
}

/// The devices after the declared ones: the frame buffer of a graphic
/// block, then the tablet unless turned off.
pub open spec fn graphic_count(s: VmSpec) -> int {
    match s.graphic {
        Some(g) => if g.xhci_table {
            2
        } else {
            1
        },
        None => 0,
    }
}

/// `run` carries what `s` describes, with `extra` appended to its options
/// and pass-through devices found among `pci`.
pub open spec fn run_ok(s: VmSpec, extra: Seq<String>, pci: Seq<PciDevice>, run: VmRun) -> bool {
    let n = s.emulations@.len() as int;
    &&& run.cpu == s.cpu
    &&& run.mem_kb == s.mem.kb
    &&& run.hostbridge_brand == s.hostbridge
    &&& run.name == s.name
    &&& run.uuid == s.uuid
    &&& run.gdb == s.gdb
    &&& run.utc_clock == s.utc_clock
    &&& run.yield_on_hlt == s.yield_on_hlt
    &&& run.generate_acpi == s.generate_acpi
    &&& run.wire_guest_mem == s.wire_guest_mem
    &&& run.force_msi == s.force_msi
    &&& run.disable_mptable_gen == s.disable_mptable_gen
    &&& run.power_off_destroy_vm == s.power_off_destroy_vm
    &&& run.lpc_devices@.len() >= 1
    &&& boot_device_ok(s, run.lpc_devices@[0])
    &&& run.lpc_devices@.drop_first() == coms_spec(s)
    &&& views(run.extra_options@) == words_spec(extra_text(s), ' ') + views(extra)
    &&& s.lpc_slot matches Some(l) ==> run.lpc_slot == l
    &&& run.emulations@.len() == n + graphic_count(s)
    &&& forall|i: int|
        0 <= i < n ==> {
            &&& (#[trigger] run.emulations@[i]).want_fix == s.emulations@[i].fix
            &&& declared_device(s.emulations@[i].emulation, pci, run.emulations@[i].emulation)
            &&& s.emulations@[i].slot matches Some(x) ==> run.emulations@[i].slot == x
        }
    &&& s.graphic matches Some(g) ==> {
        &&& run.emulations@[n].emulation == EmulatedPci::Framebuffer(fb_of(g))
        &&& !run.emulations@[n].want_fix
        &&& g.xhci_table ==> run.emulations@[n + 1].emulation == EmulatedPci::Xhci(Xhci {})
            && !run.emulations@[n + 1].want_fix
    }
}

/// Devices without an explicit slot get theirs in increasing order, each
/// after `after`; the devices past the declared ones follow them all.
pub open spec fn auto_increasing(s: VmSpec, es: Seq<EmulatedPciDevice>, after: int) -> bool {
    &&& forall|i: int|
        0 <= i < es.len() && i < s.emulations@.len() && (#[trigger] s.emulations@[i]).slot is None
            ==> after < slot_pos(es[i].slot)
    &&& forall|i: int, j: int|
        0 <= i < j < es.len() && i < s.emulations@.len() && (#[trigger] s.emulations@[i]).slot is None
            && (j >= s.emulations@.len() || (#[trigger] s.emulations@[j]).slot is None) ==> slot_pos(
            es[i].slot,
        ) < slot_pos(es[j].slot)
}

pub open spec fn slot_pos(x: PciSlot) -> int {
    lex_pos(x.bus as int, x.slot as int)
}

proof fn lemma_auto_push(
    s: VmSpec,
    es: Seq<EmulatedPciDevice>,
    d: EmulatedPciDevice,
    after: int,
    bound: int,
)
    requires
        auto_increasing(s, es, after),
        forall|j: int|
            0 <= j < es.len() && j < s.emulations@.len() && (#[trigger] s.emulations@[j]).slot is None
                ==> slot_pos(es[j].slot) < bound,
        (es.len() >= s.emulations@.len() || s.emulations@[es.len() as int].slot is None) ==> bound
            <= slot_pos(d.slot),
        (es.len() < s.emulations@.len() && s.emulations@[es.len() as int].slot is None) ==> after
            < slot_pos(d.slot),
    ensures
        auto_increasing(s, es.push(d), after),
{
    let ns = es.push(d);
    assert forall|i: int|
        0 <= i < ns.len() && i < s.emulations@.len() && (#[trigger] s.emulations@[i]).slot is None
            implies after < slot_pos(ns[i].slot) by {
        if i < es.len() {
            assert(ns[i] == es[i]);
        }
    }
    assert forall|i: int, j: int|
        0 <= i < j < ns.len() && i < s.emulations@.len() && (#[trigger] s.emulations@[i]).slot is None
            && (j >= s.emulations@.len() || (#[trigger] s.emulations@[j]).slot is None) implies slot_pos(
        ns[i].slot,
    ) < slot_pos(ns[j].slot) by {
        assert(ns[i] == es[i]);
        if j < es.len() {
            assert(ns[j] == es[j]);
        } else {
            assert(ns[j] == d);
        }
    }
}

/// Some entry cannot be resolved, and every entry before it can.
pub open spec fn first_unresolvable(s: VmSpec, pci: Seq<PciDevice>) -> bool {
    exists|i: int|
        0 <= i < s.emulations@.len() && !resolvable(s.emulations@[i].emulation, pci) && forall|j: int|
            0 <= j < i ==> resolvable(#[trigger] s.emulations@[j].emulation, pci)
}

/// The device at `i` gets its slot from the allocator: it is declared
/// without one, or comes after the declared devices.
pub open spec fn is_auto(s: VmSpec, i: int) -> bool {
    i >= s.emulations@.len() || s.emulations@[i].slot is None
}

/// `(b, k)` is a slot the allocator may issue: slot below 31, function 0,
/// and not placed explicitly.
pub open spec fn open_at(s: VmSpec, b: int, k: int) -> bool {
    0 <= b <= 255 && 0 <= k < 31 && !reserved_slot(s, slot_of(b, k))
}

/// `y` is the LPC slot or that of an allocated device before `i`.
pub open spec fn filled_by(s: VmSpec, es: Seq<EmulatedPciDevice>, lpc: PciSlot, y: PciSlot, i: int) -> bool {
    lpc == y || exists|j: int| 0 <= j < i && is_auto(s, j) && #[trigger] es[j].slot == y
}

/// Every open slot strictly between positions `lo` and `hi` is filled.
pub open spec fn gaps_filled(s: VmSpec, es: Seq<EmulatedPciDevice>, lpc: PciSlot, lo: int, hi: int) -> bool {
    forall|b: int, k: int|
        lo < lex_pos(b, k) < hi && #[trigger] open_at(s, b, k) ==> filled_by(s, es, lpc, slot_of(b, k), es.len() as int)
}

/// First fit: every open slot after `lo` and before an allocated device's
/// is the LPC slot or that of an allocated device before it.
pub open spec fn first_fit(s: VmSpec, es: Seq<EmulatedPciDevice>, lpc: PciSlot, lo: int) -> bool {
    forall|i: int, b: int, k: int|
        #![trigger is_auto(s, i), open_at(s, b, k)]
        0 <= i < es.len() && is_auto(s, i) && lo < lex_pos(b, k) < slot_pos(es[i].slot) && open_at(s, b, k)
            ==> filled_by(s, es, lpc, slot_of(b, k), i)
}

/// Every allocated device sits on an open slot.
pub open spec fn auto_open(s: VmSpec, es: Seq<EmulatedPciDevice>) -> bool {
    forall|i: int|
        0 <= i < es.len() && #[trigger] is_auto(s, i) ==> es[i].slot == slot_of(
            es[i].slot.bus as int,
            es[i].slot.slot as int,
        ) && open_at(s, es[i].slot.bus as int, es[i].slot.slot as int)
}

proof fn lemma_open_push(s: VmSpec, r0: Seq<PciSlot>, es: Seq<EmulatedPciDevice>, d: EmulatedPciDevice)
    requires
        forall|x: PciSlot| r0.contains(x) <==> reserved_slot(s, x),
        auto_open(s, es),
        is_auto(s, es.len() as int) ==> d.slot == slot_of(d.slot.bus as int, d.slot.slot as int)
            && d.slot.slot < 31 && !r0.contains(d.slot),
    ensures
        auto_open(s, es.push(d)),
{
    let ns = es.push(d);
    assert forall|i: int| 0 <= i < ns.len() && #[trigger] is_auto(s, i) implies ns[i].slot == slot_of(
        ns[i].slot.bus as int,
        ns[i].slot.slot as int,
    ) && open_at(s, ns[i].slot.bus as int, ns[i].slot.slot as int) by {
        if i < es.len() {
            assert(ns[i] == es[i]);
        } else {
            assert(ns[i] == d);
            assert(!reserved_slot(s, d.slot));
        }
    }
}

proof fn lemma_open_is_free(s: VmSpec, r0: Seq<PciSlot>, b: int, k: int)
    requires
        forall|x: PciSlot| r0.contains(x) <==> reserved_slot(s, x),
    ensures
        open_at(s, b, k) <==> free_at(r0, b, k),
{
}

proof fn lemma_fit_push_auto(
    s: VmSpec,
    r0: Seq<PciSlot>,
    es: Seq<EmulatedPciDevice>,
    d: EmulatedPciDevice,
    lpc: PciSlot,
    lo: int,
    cur: int,
)
    requires
        forall|x: PciSlot| r0.contains(x) <==> reserved_slot(s, x),
        gaps_filled(s, es, lpc, lo, cur),
        first_fit(s, es, lpc, lo),
        is_auto(s, es.len() as int),
        none_free_between(r0, cur, slot_pos(d.slot)),
        d.slot == slot_of(d.slot.bus as int, d.slot.slot as int),
        d.slot.slot <= 31,
        cur <= slot_pos(d.slot),
    ensures
        gaps_filled(s, es.push(d), lpc, lo, slot_pos(d.slot) + 1),
        first_fit(s, es.push(d), lpc, lo),
{
    let ns = es.push(d);
    let m = es.len() as int;
    assert forall|b: int, k: int|
        lo < lex_pos(b, k) < slot_pos(d.slot) + 1 && #[trigger] open_at(s, b, k) implies filled_by(
        s,
        ns,
        lpc,
        slot_of(b, k),
        ns.len() as int,
    ) by {
        lemma_open_is_free(s, r0, b, k);
        if lex_pos(b, k) < cur {
            if lpc != slot_of(b, k) {
                let j = choose|j: int| 0 <= j < m && is_auto(s, j) && #[trigger] es[j].slot == slot_of(b, k);
                assert(ns[j] == es[j]);
            }
        } else if lex_pos(b, k) < slot_pos(d.slot) {
            assert(!free_at(r0, b, k));
        } else {
            assert(b == d.slot.bus && k == d.slot.slot);
            assert(ns[m] == d);
        }
    }
    assert forall|i: int, b: int, k: int|
        #![trigger is_auto(s, i), open_at(s, b, k)]
        0 <= i < ns.len() && is_auto(s, i) && lo < lex_pos(b, k) < slot_pos(ns[i].slot) && open_at(s, b, k)
            implies filled_by(s, ns, lpc, slot_of(b, k), i) by {
        lemma_open_is_free(s, r0, b, k);
        if i < m {
            assert(ns[i] == es[i]);
            if lpc != slot_of(b, k) {
                let j = choose|j: int| 0 <= j < i && is_auto(s, j) && #[trigger] es[j].slot == slot_of(b, k);
                assert(ns[j] == es[j]);
            }
        } else {
            assert(ns[i] == d);
            if lex_pos(b, k) < cur {
                if lpc != slot_of(b, k) {
                    let j = choose|j: int| 0 <= j < m && is_auto(s, j) && #[trigger] es[j].slot == slot_of(b, k);
                    assert(ns[j] == es[j]);
                }
            } else {
                assert(!free_at(r0, b, k));
            }
        }
    }
}

/// When the allocator finds nothing after `cur`, every open slot after
/// `lo` but the LPC slot is one that devices already hold.
proof fn lemma_out_of_slots(
    s: VmSpec,
    r0: Seq<PciSlot>,
    es: Seq<EmulatedPciDevice>,
    autos: Seq<PciSlot>,
    lpc: PciSlot,
    lo: int,
    cur: int,
)
    requires
        forall|x: PciSlot| r0.contains(x) <==> reserved_slot(s, x),
        gaps_filled(s, es, lpc, lo, cur),
        forall|j: int| 0 <= j < es.len() && is_auto(s, j) ==> autos.contains(#[trigger] es[j].slot),
        none_free_between(r0, cur, end_pos()),
    ensures
        covers(s, autos, lo, lpc),
{
    assert forall|b: int, k: int|
        lo < lex_pos(b, k) && #[trigger] open_at(s, b, k) && slot_of(b, k) != lpc implies autos.contains(
        slot_of(b, k),
    ) by {
        lemma_open_is_free(s, r0, b, k);
        if lex_pos(b, k) < cur {
            let j = choose|j: int| 0 <= j < es.len() && is_auto(s, j) && #[trigger] es[j].slot == slot_of(b, k);
        } else {
            assert(!free_at(r0, b, k));
        }
    }
}

proof fn lemma_fit_push_explicit(
    s: VmSpec,
    es: Seq<EmulatedPciDevice>,
    d: EmulatedPciDevice,
    lpc: PciSlot,
    lo: int,
    cur: int,
)
    requires
        gaps_filled(s, es, lpc, lo, cur),
        first_fit(s, es, lpc, lo),
        !is_auto(s, es.len() as int),
    ensures
        gaps_filled(s, es.push(d), lpc, lo, cur),
        first_fit(s, es.push(d), lpc, lo),
{
    let ns = es.push(d);
    let m = es.len() as int;
    assert forall|b: int, k: int|
        lo < lex_pos(b, k) < cur && #[trigger] open_at(s, b, k) implies filled_by(
        s,
        ns,
        lpc,
        slot_of(b, k),
        ns.len() as int,
    ) by {
        if lpc != slot_of(b, k) {
            let j = choose|j: int| 0 <= j < m && is_auto(s, j) && #[trigger] es[j].slot == slot_of(b, k);
            assert(ns[j] == es[j]);
        }
    }
    assert forall|i: int, b: int, k: int|
        #![trigger is_auto(s, i), open_at(s, b, k)]
        0 <= i < ns.len() && is_auto(s, i) && lo < lex_pos(b, k) < slot_pos(ns[i].slot) && open_at(s, b, k)
            implies filled_by(s, ns, lpc, slot_of(b, k), i) by {
        assert(i < m);
        assert(ns[i] == es[i]);
        if lpc != slot_of(b, k) {
            let j = choose|j: int| 0 <= j < i && is_auto(s, j) && #[trigger] es[j].slot == slot_of(b, k);
            assert(ns[j] == es[j]);
        }
    }
}

/// No explicit placement is at `0:31`, whatever its function.
pub open spec fn slot_31_unreserved(s: VmSpec) -> bool {
    forall|x: PciSlot| reserved_slot(s, x) ==> !(x.bus == 0 && x.slot == 31)
}

/// `h` is the first open slot of bus 0: where the host bridge goes.
pub open spec fn hb_first(s: VmSpec, h: int) -> bool {
    &&& 0 <= h < 31
    &&& open_at(s, 0, h)
    &&& forall|k: int| 0 <= k < h ==> !#[trigger] open_at(s, 0, k)
}

/// `l` is where the LPC bridge goes when the host bridge is on `0:h`: its
/// given slot; else `0:31` when nothing is placed there and the host
/// bridge leaves it to the cursor; else the next open slot of bus 0.
pub open spec fn lpc_chosen(s: VmSpec, h: int, l: PciSlot) -> bool {
    match s.lpc_slot {
        Some(x) => l == x,
        None => if slot_31_unreserved(s) {
            h < 30 && l == slot_of(0, 31)
        } else {
            &&& l == slot_of(0, l.slot as int)
            &&& h < l.slot < 31
            &&& open_at(s, 0, l.slot as int)
            &&& forall|k: int| h < k < l.slot ==> !#[trigger] open_at(s, 0, k)
        },
    }
}

/// The LPC bridge has a place when the host bridge is on `0:h`.
pub open spec fn lpc_room(s: VmSpec, h: int) -> bool {
    exists|l: PciSlot| lpc_chosen(s, h, l)
}

/// The number of the first `n` entries that have no slot.
pub open spec fn count_auto(s: VmSpec, n: int) -> int
    decreases n,
{
    if n <= 0 {
        0
    } else {
        count_auto(s, n - 1) + if s.emulations@[n - 1].slot is None {
            1int
        } else {
            0int
        }
    }
}

pub proof fn lemma_count_auto_mono(s: VmSpec, i: int, n: int)
    requires
        0 <= i <= n,
    ensures
        count_auto(s, i) <= count_auto(s, n),
    decreases n - i,
{
    if i < n {
        lemma_count_auto_mono(s, i, n - 1);
    }
}

/// The slots that the allocator must find for devices.
pub open spec fn auto_needed(s: VmSpec) -> int {
    count_auto(s, s.emulations@.len() as int) + graphic_count(s)
}

/// Fewer open slots are left after the two bridges than devices need: the
/// open slots after the host bridge, but for the LPC bridge's, fit in a
/// list shorter than that need.
pub open spec fn few_open(s: VmSpec) -> bool {
    exists|e: Seq<PciSlot>, h: int, l: PciSlot|
        #![trigger hb_first(s, h), lpc_chosen(s, h, l), e.len()]
        hb_first(s, h) && lpc_chosen(s, h, l) && e.len() < auto_needed(s) && covers(s, e, lex_pos(0, h), l)
}

/// Every open slot after position `lo`, other than `l`, is in `e`.
pub open spec fn covers(s: VmSpec, e: Seq<PciSlot>, lo: int, l: PciSlot) -> bool {
    forall|b: int, k: int|
        lo < lex_pos(b, k) && #[trigger] open_at(s, b, k) && slot_of(b, k) != l ==> e.contains(
            slot_of(b, k),
        )
}

/// Descriptions that compile: bus 0 has room for both bridges, enough open
/// slots remain for the devices, and every entry can be resolved.
pub open spec fn build_owed(s: VmSpec, pci: Seq<PciDevice>) -> bool {
    &&& bus0_free(s)
    &&& forall|h: int| hb_first(s, h) ==> lpc_room(s, h)
    &&& !few_open(s)
    &&& forall|i: int|
        0 <= i < s.emulations@.len() ==> resolvable(#[trigger] s.emulations@[i].emulation, pci)
}

proof fn lemma_hb_first_unique(s: VmSpec, h1: int, h2: int)
    requires
        hb_first(s, h1),
        hb_first(s, h2),
    ensures
        h1 == h2,
{
    if h1 < h2 {
        assert(!open_at(s, 0, h1));
    } else if h2 < h1 {
        assert(!open_at(s, 0, h2));
    }
}

/// What the allocator keeps while compiling: its cursor is sane, the
/// explicit slots `r0` stay reserved, and every slot issued so far is
/// distinct, no explicit one, and reserved or behind the cursor.
pub open spec fn alloc_inv(g: PciSlotGenerator, issued: Seq<PciSlot>, r0: Seq<PciSlot>) -> bool {
    &&& g.wf()
    &&& forall|x: PciSlot| r0.contains(x) ==> g.reserved().contains(x)
    &&& forall|x: PciSlot| g.reserved().contains(x) ==> r0.contains(x) || x.slot == 31
    &&& forall|k: int|
        0 <= k < issued.len() ==> {
            &&& (#[trigger] issued[k]).func == 0
            &&& !r0.contains(issued[k])
            &&& g.reserved().contains(issued[k]) || lex_pos(issued[k].bus as int, issued[k].slot as int)
                < g.cur_pos()
        }
    &&& issued.no_duplicates()
}

proof fn lemma_next_fresh(
    g0: PciSlotGenerator,
    g1: PciSlotGenerator,
    x: PciSlot,
    issued: Seq<PciSlot>,
    r0: Seq<PciSlot>,
)
    requires
        alloc_inv(g0, issued, r0),
        g1.wf(),
        g1.reserved() == g0.reserved(),
        x == slot_of(x.bus as int, x.slot as int),
        free_at(g0.reserved(), x.bus as int, x.slot as int),
        g0.cur_pos() <= lex_pos(x.bus as int, x.slot as int),
        g1.cur_pos() == lex_pos(x.bus as int, x.slot as int) + 1,
    ensures
        alloc_inv(g1, issued.push(x), r0),
        !issued.contains(x),
        !r0.contains(x),
{
    assert(!g0.reserved().contains(x));
    assert forall|k: int| 0 <= k < issued.len() implies issued[k] != x by {
        if g0.reserved().contains(issued[k]) {
        } else {
            assert(lex_pos(issued[k].bus as int, issued[k].slot as int) < g0.cur_pos());
        }
    }
    let ni = issued.push(x);
    assert forall|k: int| 0 <= k < ni.len() implies {
        &&& (#[trigger] ni[k]).func == 0
        &&& !r0.contains(ni[k])
        &&& g1.reserved().contains(ni[k]) || lex_pos(ni[k].bus as int, ni[k].slot as int) < g1.cur_pos()
    } by {
        if k < issued.len() {
            assert(ni[k] == issued[k]);
        }
    }
    assert forall|a: int, b: int| 0 <= a < b < ni.len() implies ni[a] != ni[b] by {
        if b == issued.len() {
            assert(ni[a] == issued[a]);
        } else {
            assert(issued.no_duplicates());
        }
    }
}

proof fn lemma_keeps(g0: PciSlotGenerator, g1: PciSlotGenerator, issued: Seq<PciSlot>, r0: Seq<PciSlot>)
    requires
        alloc_inv(g0, issued, r0),
        g1.wf(),
        g1.reserved() == g0.reserved(),
        g1.cur_pos() >= g0.cur_pos(),
    ensures
        alloc_inv(g1, issued, r0),
{
}

proof fn lemma_push_fresh(
    g0: PciSlotGenerator,
    g1: PciSlotGenerator,
    x: PciSlot,
    issued: Seq<PciSlot>,
    r0: Seq<PciSlot>,
)
    requires
        alloc_inv(g0, issued, r0),
        g1.wf(),
        !g0.reserved().contains(x),
        x.func == 0,
        g1.reserved() == g0.reserved().push(x),
        g1.cur_pos() == g0.cur_pos(),
        lex_pos(x.bus as int, x.slot as int) >= g0.cur_pos(),
        x.slot == 31,
    ensures
        alloc_inv(g1, issued.push(x), r0),
        !issued.contains(x),
        !r0.contains(x),
{
    assert forall|y: PciSlot| g0.reserved().contains(y) implies g1.reserved().contains(y) by {
        let j = choose|j: int| 0 <= j < g0.reserved().len() && g0.reserved()[j] == y;
        assert(g1.reserved()[j] == y);
    }
    assert(g1.reserved()[g0.reserved().len() as int] == x);
    assert forall|y: PciSlot| g1.reserved().contains(y) implies r0.contains(y) || y.slot == 31 by {
        let j = choose|j: int| 0 <= j < g1.reserved().len() && g1.reserved()[j] == y;
        if j < g0.reserved().len() {
            assert(g0.reserved()[j] == y);
            assert(g0.reserved().contains(y));
        }
    }
    assert forall|k: int| 0 <= k < issued.len() implies issued[k] != x by {
        if g0.reserved().contains(issued[k]) {
        } else {
            assert(lex_pos(issued[k].bus as int, issued[k].slot as int) < g0.cur_pos());
        }
    }
    let ni = issued.push(x);
    assert forall|k: int| 0 <= k < ni.len() implies {
        &&& (#[trigger] ni[k]).func == 0
        &&& !r0.contains(ni[k])
        &&& g1.reserved().contains(ni[k]) || lex_pos(ni[k].bus as int, ni[k].slot as int) < g1.cur_pos()
    } by {
        if k < issued.len() {
            assert(ni[k] == issued[k]);
        }
    }
    assert forall|a: int, b: int| 0 <= a < b < ni.len() implies ni[a] != ni[b] by {
        if b == issued.len() {
            assert(ni[a] == issued[a]);
        } else {
            assert(issued.no_duplicates());
        }
    }
}

/// Issues the next free slot, fresh among all issued and explicit ones.
fn next_fresh(
    g: &mut PciSlotGenerator,
    Ghost(issued): Ghost<Seq<PciSlot>>,
    Ghost(r0): Ghost<Seq<PciSlot>>,
) -> (r: Option<PciSlot>)
    requires
        alloc_inv(*old(g), issued, r0),
    ensures
        match r {
            Some(x) => alloc_inv(*final(g), issued.push(x), r0) && !issued.contains(x) && !r0.contains(x)
                && old(g).cur_pos() <= lex_pos(x.bus as int, x.slot as int) && final(g).cur_pos()
                == lex_pos(x.bus as int, x.slot as int) + 1 && x == slot_of(x.bus as int, x.slot as int)
                && none_free_between(r0, old(g).cur_pos(), slot_pos(x)) && x.slot < 31,
            None => alloc_inv(*final(g), issued, r0) && none_free_between(r0, old(g).cur_pos(), end_pos()),
        },
{
    let ghost g0 = *g;
    let r = g.next_slot();
    proof {
        match r {
            Some(x) => {
                lemma_next_fresh(g0, *g, x, issued, r0);
                lemma_fewer_reserved(g0, r0, g0.cur_pos(), slot_pos(x));
            },
            None => {
                lemma_keeps(g0, *g, issued, r0);
                lemma_fewer_reserved(g0, r0, g0.cur_pos(), end_pos());
            },
        }
    }
    r
}

/// Nothing free among the generator's reservations is nothing free among
/// the explicit ones: the others are at slot 31, never issued.
proof fn lemma_fewer_reserved(g: PciSlotGenerator, r0: Seq<PciSlot>, lo: int, hi: int)
    requires
        forall|x: PciSlot| g.reserved().contains(x) ==> r0.contains(x) || x.slot == 31,
        none_free_between(g.reserved(), lo, hi),
    ensures
        none_free_between(r0, lo, hi),
{
    assert forall|b: int, k: int| 0 <= k <= 31 && lo <= lex_pos(b, k) < hi implies !#[trigger] free_at(r0, b, k) by {
        if free_at(r0, b, k) {
            assert(!free_at(g.reserved(), b, k));
            assert(g.reserved().contains(slot_of(b, k)));
        }
    }
}

/// The slots placed so far are distinct when the explicit ones are, and
/// each was issued or is explicit (the LPC slot, or an entry before `i`).
pub open spec fn placed_ok(
    s: VmSpec,
    placed: Seq<PciSlot>,
    issued: Seq<PciSlot>,
    i: int,
) -> bool {
    &&& explicit_distinct(s) ==> placed.no_duplicates()
    &&& forall|k: int|
        0 <= k < placed.len() ==> issued.contains(#[trigger] placed[k]) || s.lpc_slot == Some(
            placed[k],
        ) || exists|j: int| 0 <= j < i && s.emulations@[j].slot == Some(placed[k])
}

proof fn lemma_place_issued(
    s: VmSpec,
    placed: Seq<PciSlot>,
    issued: Seq<PciSlot>,
    r0: Seq<PciSlot>,
    i: int,
    x: PciSlot,
)
    requires
        placed_ok(s, placed, issued, i),
        forall|y: PciSlot| r0.contains(y) <==> reserved_slot(s, y),
        !issued.contains(x),
        !r0.contains(x),
        0 <= i <= s.emulations@.len(),
    ensures
        placed_ok(s, placed.push(x), issued.push(x), i),
{
    let np = placed.push(x);
    let ni = issued.push(x);
    assert(ni[issued.len() as int] == x);
    assert forall|k: int| 0 <= k < np.len() implies ni.contains(#[trigger] np[k]) || s.lpc_slot == Some(
        np[k],
    ) || exists|j: int| 0 <= j < i && s.emulations@[j].slot == Some(np[k]) by {
        if k < placed.len() {
            assert(np[k] == placed[k]);
            if issued.contains(placed[k]) {
                let t = choose|t: int| 0 <= t < issued.len() && issued[t] == placed[k];
                assert(ni[t] == placed[k]);
            }
        }
    }
    if explicit_distinct(s) {
        assert forall|a: int, b: int| 0 <= a < b < np.len() implies np[a] != np[b] by {
            if b == placed.len() {
                let y = placed[a];
                assert(np[a] == y);
                if issued.contains(y) {
                } else if s.lpc_slot == Some(y) {
                    assert(r0.contains(y));
                } else {
                    let j = choose|j: int| 0 <= j < i && s.emulations@[j].slot == Some(y);
                    assert(reserved_slot(s, y));
                }
            } else {
                assert(np[a] == placed[a] && np[b] == placed[b]);
            }
        }
    }
}

proof fn lemma_place_explicit(
    s: VmSpec,
    placed: Seq<PciSlot>,
    issued: Seq<PciSlot>,
    r0: Seq<PciSlot>,
    i: int,
    x: PciSlot,
)
    requires
        placed_ok(s, placed, issued, i),
        forall|y: PciSlot| r0.contains(y) <==> reserved_slot(s, y),
        forall|k: int| 0 <= k < issued.len() ==> !r0.contains(#[trigger] issued[k]),
        0 <= i < s.emulations@.len(),
        s.emulations@[i].slot == Some(x),
    ensures
        placed_ok(s, placed.push(x), issued, i + 1),
{
    let np = placed.push(x);
    assert(reserved_slot(s, x));
    assert forall|k: int| 0 <= k < np.len() implies issued.contains(#[trigger] np[k]) || s.lpc_slot
        == Some(np[k]) || exists|j: int| 0 <= j < i + 1 && s.emulations@[j].slot == Some(np[k]) by {
        if k < placed.len() {
            assert(np[k] == placed[k]);
        } else {
            assert(np[k] == x);
            assert(s.emulations@[i].slot == Some(np[k]));
        }
    }
    if explicit_distinct(s) {
        assert forall|a: int, b: int| 0 <= a < b < np.len() implies np[a] != np[b] by {
            if b == placed.len() {
                let y = placed[a];
                assert(np[a] == y);
                if issued.contains(y) {
                    let t = choose|t: int| 0 <= t < issued.len() && issued[t] == y;
                    assert(!r0.contains(issued[t]));
                } else if s.lpc_slot == Some(y) {
                    assert(s.emulations@[i].slot != s.lpc_slot);
                } else {
                    let j = choose|j: int| 0 <= j < i && s.emulations@[j].slot == Some(y);
                    assert(s.emulations@[j].slot is Some && s.emulations@[i].slot is Some);
                    assert(s.emulations@[j].slot != s.emulations@[i].slot);
                }
            } else {
                assert(np[a] == placed[a] && np[b] == placed[b]);
            }
        }
    }
}


proof fn lemma_placed_ok_next(s: VmSpec, placed: Seq<PciSlot>, issued: Seq<PciSlot>, i: int)
    requires
        placed_ok(s, placed, issued, i),
    ensures
        placed_ok(s, placed, issued, i + 1),
{
    assert forall|k: int| 0 <= k < placed.len() implies issued.contains(#[trigger] placed[k])
        || s.lpc_slot == Some(placed[k]) || exists|j: int|
        0 <= j < i + 1 && s.emulations@[j].slot == Some(placed[k]) by {
        if !issued.contains(placed[k]) && s.lpc_slot != Some(placed[k]) {
            let j = choose|j: int| 0 <= j < i && s.emulations@[j].slot == Some(placed[k]);
            assert(0 <= j < i + 1);
        }
    }
}

proof fn lemma_no_words()
    ensures
        words_spec(Seq::<char>::empty(), ' ') == Seq::<Seq<char>>::empty(),
{
    let e = Seq::<char>::empty();
    assert(crate::text::split_spec(e, ' ') == seq![e]);
    assert(seq![e].drop_last() == Seq::<Seq<char>>::empty());
    assert(crate::text::nonempty_of(Seq::<Seq<char>>::empty()) == Seq::<Seq<char>>::empty());
}

impl VmSpec {
    /// The explicitly placed slots: those of the entries, then the LPC slot.
    fn reserved_slots(&self) -> (r: Vec<PciSlot>)
        ensures
            forall|x: PciSlot| r@.contains(x) <==> reserved_slot(*self, x),
    {
        let n = self.emulations.len();
        let mut taken: Vec<PciSlot> = Vec::new();
        let mut i: usize = 0;
        while i < n
            invariant
                n == self.emulations@.len(),
                i <= n,
                forall|x: PciSlot|
                    taken@.contains(x) <==> exists|j: int|
                        0 <= j < i && self.emulations@[j].slot == Some(x),
            decreases n - i,
        {
            let ghost before = taken@;
            match self.emulations[i].slot {
                Some(s) => {
                    taken.push(s);
                },
                None => {},
            }
            proof {
                assert forall|x: PciSlot|
                    taken@.contains(x) <==> exists|j: int|
                        0 <= j < i + 1 && self.emulations@[j].slot == Some(x) by {
                    if taken@.contains(x) {
                        let t = choose|t: int| 0 <= t < taken@.len() && taken@[t] == x;
                        if t < before.len() {
                            assert(before[t] == x);
                            assert(before.contains(x));
                        }
                    }
                    if exists|j: int| 0 <= j < i + 1 && self.emulations@[j].slot == Some(x) {
                        let j = choose|j: int| 0 <= j < i + 1 && self.emulations@[j].slot == Some(x);
                        if j < i {
                            assert(exists|jj: int| 0 <= jj < i && self.emulations@[jj].slot == Some(x));
                            assert(before.contains(x));
                            let t = choose|t: int| 0 <= t < before.len() && before[t] == x;
                            assert(taken@[t] == x);
                        } else {
                            assert(taken@[taken@.len() - 1] == x);
                        }
                    }
                }
            }
            i = i + 1;
        }
        let ghost before = taken@;
        if let Some(l) = self.lpc_slot {
            taken.push(l);
        }
        proof {
            assert forall|x: PciSlot| taken@.contains(x) <==> reserved_slot(*self, x) by {
                if taken@.contains(x) {
                    let t = choose|t: int| 0 <= t < taken@.len() && taken@[t] == x;
                    if t < before.len() {
                        assert(before[t] == x);
                        assert(before.contains(x));
                    }
                }
                if before.contains(x) {
                    let t = choose|t: int| 0 <= t < before.len() && before[t] == x;
                    assert(taken@[t] == x);
                }
                if self.lpc_slot == Some(x) {
                    assert(taken@[taken@.len() - 1] == x);
                }
            }
        }
        taken
    }

    /// The boot ROM, then the serial ports that are set.
    fn lpc_devices_of(&self) -> (r: Vec<LpcDevice>)
        ensures
            r@.len() >= 1,
            boot_device_ok(*self, r@[0]),
            r@.drop_first() == coms_spec(*self),
    {
        let mut lpcs: Vec<LpcDevice> = Vec::new();
        match &self.bootopt {
            Some(BootOptions::Uefi(u)) => {
                lpcs.push(LpcDevice::Bootrom(u.bootrom.clone(), clone_opt(&u.varfile)));
            },
            None => {
                let d = default_bootopt();
                match d {
                    BootOptions::Uefi(u) => {
                        lpcs.push(LpcDevice::Bootrom(u.bootrom, u.varfile));
                    },
                }
            },
        }
        let ghost b = lpcs@;
        if let Some(c) = &self.com1 {
            lpcs.push(LpcDevice::Com(1, c.clone()));
        }
        let ghost c1 = lpcs@;
        if let Some(c) = &self.com2 {
            lpcs.push(LpcDevice::Com(2, c.clone()));
        }
        let ghost c2 = lpcs@;
        if let Some(c) = &self.com3 {
            lpcs.push(LpcDevice::Com(3, c.clone()));
        }
        let ghost c3 = lpcs@;
        if let Some(c) = &self.com4 {
            lpcs.push(LpcDevice::Com(4, c.clone()));
        }
        proof {
            assert(c1.drop_first() =~= b.drop_first() + match self.com1 {
                Some(c) => seq![LpcDevice::Com(1, c)],
                None => Seq::empty(),
            });
            assert(c2.drop_first() =~= c1.drop_first() + match self.com2 {
                Some(c) => seq![LpcDevice::Com(2, c)],
                None => Seq::empty(),
            });
            assert(c3.drop_first() =~= c2.drop_first() + match self.com3 {
                Some(c) => seq![LpcDevice::Com(3, c)],
                None => Seq::empty(),
            });
            assert(lpcs@.drop_first() =~= c3.drop_first() + match self.com4 {
                Some(c) => seq![LpcDevice::Com(4, c)],
                None => Seq::empty(),
            });
            assert(b.drop_first() =~= Seq::<LpcDevice>::empty());
            assert(lpcs@.drop_first() =~= coms_spec(*self));
        }
        lpcs
    }

    /// The words of the extra options, then `extra`.
    fn extra_options_of(&self, extra: &Vec<String>) -> (r: Vec<String>)
        ensures
            views(r@) == words_spec(extra_text(*self), ' ') + views(extra@),
    {
        let mut opts = match &self.extra_options {
            Some(o) => words(o.as_str(), ' '),
            None => {
                proof {
                    lemma_no_words();
                }
                Vec::new()
            },
        };
        let ghost a = opts@;
        assert(views(a) == words_spec(extra_text(*self), ' '));
        let mut more = crate::emulation::clone_strings(extra);
        opts.append(&mut more);
        proof {
            assert(views(opts@) =~= views(a) + views(extra@));
        }
        opts
    }

    /// The LPC bridge's slot: the one given, else `0:31`, else the next
    /// free slot of bus 0.
    fn take_lpc_slot(
        &self,
        gen: &mut PciSlotGenerator,
        Ghost(issued): Ghost<Seq<PciSlot>>,
        Ghost(r0): Ghost<Seq<PciSlot>>,
    ) -> (r: Result<PciSlot, FormatError>)
        requires
            alloc_inv(*old(gen), issued, r0),
            old(gen).cur_bus() == 0,
            old(gen).reserved() == r0,
            forall|x: PciSlot| r0.contains(x) <==> reserved_slot(*self, x),
        ensures
            r matches Err(e) ==> e is LpcSlotNotSatisfy && self.lpc_slot is None,
            self.lpc_slot matches Some(l) ==> r == Ok::<PciSlot, FormatError>(l) && *final(gen) == *old(gen),
            self.lpc_slot is None && !reserves_bus_slot(r0, 0, 31) && old(gen).cur_slot() < 31 ==> r is Ok,
            self.lpc_slot is None && !reserves_bus_slot(r0, 0, 31) && r is Ok ==> old(gen).cur_slot() < 31,
            self.lpc_slot is None && reserves_bus_slot(r0, 0, 31) && (exists|k: int|
                old(gen).cur_slot() <= k < 31 && #[trigger] free_at(r0, 0, k)) ==> r is Ok,
            self.lpc_slot is None ==> match r {
                Ok(x) => x.bus == 0 && alloc_inv(*final(gen), issued.push(x), r0) && !issued.contains(x)
                    && !r0.contains(x),
                Err(_) => true,
            },
            self.lpc_slot is None && !reserves_bus_slot(r0, 0, 31) && r is Ok ==> r
                == Ok::<PciSlot, FormatError>(PciSlot { bus: 0, slot: 31, func: 0 }),
            final(gen).cur_pos() >= old(gen).cur_pos(),
            final(gen).wf(),
            r matches Ok(x) ==> final(gen).cur_pos() == old(gen).cur_pos() || (final(gen).cur_pos()
                == slot_pos(x) + 1 && x == slot_of(x.bus as int, x.slot as int) && x.slot < 31
                && none_free_between(r0, old(gen).cur_pos(), slot_pos(x)) && old(gen).cur_pos()
                <= slot_pos(x)),
            r matches Ok(x) && self.lpc_slot is None && final(gen).cur_pos() == old(gen).cur_pos()
                ==> !reserves_bus_slot(r0, 0, 31),
    {
        match self.lpc_slot {
            Some(s) => Ok(s),
            None => {
                let ghost g1 = *gen;
                match gen.try_take_specific_bus_slot(0, 31) {
                    Some(x) => {
                        if x.bus != 0 {
                            return Err(FormatError::LpcSlotNotSatisfy);
                        }
                        proof {
                            if g1.cur_slot() == 31 {
                                lemma_next_fresh(g1, *gen, x, issued, r0);
                            } else {
                                if g1.reserved().contains(x) {
                                    let t = choose|t: int| 0 <= t < g1.reserved().len() && g1.reserved()[t] == x;
                                    assert(g1.reserved()[t].bus == 0 && g1.reserved()[t].slot == 31);
                                }
                                lemma_push_fresh(g1, *gen, x, issued, r0);
                            }
                        }
                        Ok(x)
                    },
                    None => {
                        proof {
                            if reserves_bus_slot(g1.reserved(), 0, 31) {
                                let t = choose|t: int| 0 <= t < g1.reserved().len() && #[trigger] g1.reserved()[t].bus == 0 && g1.reserved()[t].slot == 31;
                                assert(r0.contains(g1.reserved()[t]));
                            }
                            lemma_keeps(g1, *gen, issued, r0);
                        }
                        let ghost g2 = *gen;
                        match gen.try_take_specific_bus(0) {
                            Some(x) => {
                                if x.bus != 0 {
                                    return Err(FormatError::LpcSlotNotSatisfy);
                                }
                                proof {
                                    lemma_next_fresh(g2, *gen, x, issued, r0);
                                }
                                Ok(x)
                            },
                            None => Err(FormatError::LpcSlotNotSatisfy),
                        }
                    },
                }
            },
        }
    }
}


/// `d` is what the entry `e` compiles to on a host with the devices `pci`.
pub open spec fn compiled_entry(e: Emulation, pci: Seq<PciDevice>, d: EmulatedPciDevice) -> bool {
    &&& d.want_fix == e.fix
    &&& declared_device(e.emulation, pci, d.emulation)
    &&& e.slot matches Some(x) ==> d.slot == x
}

impl VmSpec {
    /// Places every declared device, then the graphic devices.
    fn place_devices(
        &self,
        gen: &mut PciSlotGenerator,
        host_pci: &Vec<PciDevice>,
        Ghost(issued): Ghost<Seq<PciSlot>>,
        Ghost(r0): Ghost<Seq<PciSlot>>,
        Ghost(placed): Ghost<Seq<PciSlot>>,
        Ghost(after): Ghost<int>,
        Ghost(lpc): Ghost<PciSlot>,
    ) -> (r: Result<(Vec<EmulatedPciDevice>, Ghost<Seq<PciSlot>>), FormatError>)
        requires
            alloc_inv(*old(gen), issued, r0),
            forall|x: PciSlot| r0.contains(x) <==> reserved_slot(*self, x),
            placed_ok(*self, placed, issued, 0),
            old(gen).cur_pos() > after,
            gaps_filled(*self, Seq::empty(), lpc, after, old(gen).cur_pos()),
        ensures
            r matches Ok((v, _)) ==> auto_increasing(*self, v@, after),
            r matches Ok((v, _)) ==> first_fit(*self, v@, lpc, after),
            r matches Ok((v, _)) ==> auto_open(*self, v@),
            r matches Err(e) ==> (e is RunOutOfSlots && exists|e2: Seq<PciSlot>|
                e2.len() < auto_needed(*self) && covers(*self, e2, after, lpc)) || (e is InvalidUnit
                && first_unresolvable(*self, host_pci@)),
            r matches Err(FormatError::InvalidUnit(u)) ==> u@.len() == 0,
            r matches Ok((v, gi)) ==> {
                let n = self.emulations@.len() as int;
                &&& v@.len() == n + graphic_count(*self)
                &&& forall|i: int|
                    0 <= i < n ==> compiled_entry(self.emulations@[i], host_pci@, #[trigger] v@[i])
                &&& self.graphic matches Some(g) ==> {
                    &&& v@[n].emulation == EmulatedPci::Framebuffer(fb_of(g))
                    &&& !v@[n].want_fix
                    &&& g.xhci_table ==> v@[n + 1].emulation == EmulatedPci::Xhci(Xhci {})
                        && !v@[n + 1].want_fix
                }
                &&& placed_ok(*self, placed + slots_of(v@), gi@, n)
            },
    {
        let n = self.emulations.len();
        let mut emus: Vec<EmulatedPciDevice> = Vec::new();
        let ghost mut iss = issued;
        let ghost mut pl = placed;
        let ghost mut autos: Seq<PciSlot> = Seq::empty();
        let mut i: usize = 0;
        proof {
            assert(placed + slots_of(emus@) =~= placed);
            assert(emus@ == Seq::<EmulatedPciDevice>::empty());
        }
        while i < n
            invariant
                n == self.emulations@.len(),
                i <= n,
                emus@.len() == i,
                alloc_inv(*gen, iss, r0),
                forall|x: PciSlot| r0.contains(x) <==> reserved_slot(*self, x),
                pl == placed + slots_of(emus@),
                placed_ok(*self, pl, iss, i as int),
                forall|j: int| 0 <= j < i ==> compiled_entry(self.emulations@[j], host_pci@, #[trigger] emus@[j]),
                gen.cur_pos() > after,
                auto_increasing(*self, emus@, after),
                gaps_filled(*self, emus@, lpc, after, gen.cur_pos()),
                first_fit(*self, emus@, lpc, after),
                auto_open(*self, emus@),
                autos.len() == count_auto(*self, i as int),
                forall|j: int| 0 <= j < emus@.len() && is_auto(*self, j) ==> autos.contains(#[trigger] emus@[j].slot),
                forall|j: int| 0 <= j < i ==> resolvable(#[trigger] self.emulations@[j].emulation, host_pci@),
                forall|x: PciSlot| r0.contains(x) <==> reserved_slot(*self, x),
                forall|j: int|
                    0 <= j < i && (#[trigger] self.emulations@[j]).slot is None ==> slot_pos(
                        emus@[j].slot,
                    ) < gen.cur_pos(),
            decreases n - i,
        {
            let e = &self.emulations[i];
            let ghost cur0 = gen.cur_pos();
            let the_slot = match e.slot {
                Some(x) => {
                    proof {
                        lemma_place_explicit(*self, pl, iss, r0, i as int, x);
                        pl = pl.push(x);
                    }
                    x
                },
                None => {
                    match next_fresh(gen, Ghost(iss), Ghost(r0)) {
                        Some(x) => {
                            proof {
                                lemma_place_issued(*self, pl, iss, r0, i as int, x);
                                lemma_placed_ok_next(*self, pl.push(x), iss.push(x), i as int);
                                iss = iss.push(x);
                                pl = pl.push(x);
                            }
                            x
                        },
                        None => {
                            proof {
                                lemma_count_auto_mono(*self, i as int + 1, n as int);
                                lemma_out_of_slots(*self, r0, emus@, autos, lpc, after, cur0);
                            }
                            return Err(FormatError::RunOutOfSlots);
                        },
                    }
                },
            };
            let dev = match e.to_vm_emu(host_pci) {
                Ok(d) => d,
                Err(err) => {
                    proof {
                        assert(!resolvable(self.emulations@[i as int].emulation, host_pci@));
                    }
                    return Err(err);
                },
            };
            let ghost before = emus@;
            emus.push(EmulatedPciDevice { slot: the_slot, want_fix: e.fix, emulation: dev });
            proof {
                let ghost old_autos = autos;
                if e.slot is None {
                    autos = autos.push(the_slot);
                }
                assert forall|j: int| 0 <= j < emus@.len() && is_auto(*self, j) implies autos.contains(#[trigger] emus@[j].slot) by {
                    if j < i {
                        assert(emus@[j] == before[j]);
                        assert(old_autos.contains(before[j].slot));
                        if e.slot is None {
                            let t = choose|t: int| 0 <= t < old_autos.len() && old_autos[t] == before[j].slot;
                            assert(autos[t] == old_autos[t]);
                        }
                    } else {
                        assert(autos[autos.len() - 1] == the_slot);
                    }
                }
                lemma_auto_push(*self, before, emus@[i as int], after, cur0);
                assert(emus@ == before.push(emus@[i as int]));
                lemma_open_push(*self, r0, before, emus@[i as int]);
                if e.slot is None {
                    lemma_fit_push_auto(*self, r0, before, emus@[i as int], lpc, after, cur0);
                } else {
                    lemma_fit_push_explicit(*self, before, emus@[i as int], lpc, after, cur0);
                }
                assert forall|j: int|
                    0 <= j < i + 1 && (#[trigger] self.emulations@[j]).slot is None implies slot_pos(
                        emus@[j].slot,
                    ) < gen.cur_pos() by {
                    if j < i {
                        assert(emus@[j] == before[j]);
                    }
                }
                assert(slots_of(emus@) =~= slots_of(before).push(the_slot));
                assert(placed + slots_of(emus@) =~= (placed + slots_of(before)).push(the_slot));
            }
            i = i + 1;
        }
        let ghost m = n as int;
        match &self.graphic {
            Some(g) => {
                let ghost cur1 = gen.cur_pos();
                let slot = match next_fresh(gen, Ghost(iss), Ghost(r0)) {
                    Some(x) => {
                        proof {
                            lemma_place_issued(*self, pl, iss, r0, m, x);
                            iss = iss.push(x);
                            pl = pl.push(x);
                        }
                        x
                    },
                    None => {
                        proof {
                            lemma_out_of_slots(*self, r0, emus@, autos, lpc, after, cur1);
                        }
                        return Err(FormatError::RunOutOfSlots);
                    },
                };
                let ghost before = emus@;
                emus.push(
                    EmulatedPciDevice {
                        slot,
                        want_fix: false,
                        emulation: EmulatedPci::Framebuffer(g.to_emulated()),
                    },
                );
                proof {
                    assert(slots_of(emus@) =~= slots_of(before).push(slot));
                    assert(placed + slots_of(emus@) =~= (placed + slots_of(before)).push(slot));
                    lemma_auto_push(*self, before, emus@[before.len() as int], after, cur1);
                    assert(emus@ == before.push(emus@[before.len() as int]));
                    lemma_fit_push_auto(*self, r0, before, emus@[before.len() as int], lpc, after, cur1);
                    lemma_open_push(*self, r0, before, emus@[before.len() as int]);
                    assert forall|j: int|
                        0 <= j < emus@.len() && j < self.emulations@.len() && (#[trigger] self.emulations@[j]).slot is None implies slot_pos(
                            emus@[j].slot,
                        ) < gen.cur_pos() by {
                        assert(emus@[j] == before[j]);
                    }
                    let old_autos = autos;
                    autos = autos.push(slot);
                    assert forall|j: int| 0 <= j < emus@.len() && is_auto(*self, j) implies autos.contains(#[trigger] emus@[j].slot) by {
                        if j < before.len() {
                            assert(emus@[j] == before[j]);
                            let t = choose|t: int| 0 <= t < old_autos.len() && old_autos[t] == before[j].slot;
                            assert(autos[t] == old_autos[t]);
                        } else {
                            assert(autos[autos.len() - 1] == slot);
                        }
                    }
                }
                if g.xhci_table {
                    let ghost cur2 = gen.cur_pos();
                    let slot2 = match next_fresh(gen, Ghost(iss), Ghost(r0)) {
                        Some(x) => {
                            proof {
                                lemma_place_issued(*self, pl, iss, r0, m, x);
                                iss = iss.push(x);
                                pl = pl.push(x);
                            }
                            x
                        },
                        None => {
                            proof {
                                lemma_out_of_slots(*self, r0, emus@, autos, lpc, after, cur2);
                            }
                            return Err(FormatError::RunOutOfSlots);
                        },
                    };
                    let ghost before2 = emus@;
                    emus.push(
                        EmulatedPciDevice { slot: slot2, want_fix: false, emulation: EmulatedPci::Xhci(Xhci {}) },
                    );
                    proof {
                        assert(slots_of(emus@) =~= slots_of(before2).push(slot2));
                        assert(placed + slots_of(emus@) =~= (placed + slots_of(before2)).push(slot2));
                        lemma_auto_push(*self, before2, emus@[before2.len() as int], after, cur2);
                        assert(emus@ == before2.push(emus@[before2.len() as int]));
                        lemma_fit_push_auto(*self, r0, before2, emus@[before2.len() as int], lpc, after, cur2);
                        lemma_open_push(*self, r0, before2, emus@[before2.len() as int]);
                    }
                }
            },
            None => {},
        }
        Ok((emus, Ghost(iss)))
    }

    /// Compiles the description into an invocation plan: the host bridge
    /// on a free slot of bus 0, the LPC bridge on its given slot, else on
    /// `0:31`, else on the next free slot of bus 0; each declared device on
    /// its given slot or the next free one; then the frame buffer and
    /// tablet of a graphic block. `extra_opts` follow the extra options;
    /// pass-through devices are looked up among `host_pci`.
    pub fn build(&self, extra_opts: &Vec<String>, host_pci: &Vec<PciDevice>) -> (r: Result<VmRun, FormatError>)
        ensures
            r matches Err(e) ==> e is HostbridgeSlotNotSatisfy || e is LpcSlotNotSatisfy
                || e is RunOutOfSlots || e is InvalidUnit,
            (r matches Err(FormatError::HostbridgeSlotNotSatisfy)) <==> !bus0_free(*self),
            (r matches Err(FormatError::LpcSlotNotSatisfy)) <==> exists|h: int|
                hb_first(*self, h) && !lpc_room(*self, h),
            r matches Err(FormatError::RunOutOfSlots) ==> few_open(*self),
            r matches Err(FormatError::InvalidUnit(_)) ==> first_unresolvable(*self, host_pci@),
            r matches Err(FormatError::InvalidUnit(u)) ==> u@.len() == 0,
            build_owed(*self, host_pci@) ==> r is Ok,
            r matches Ok(run) ==> run_ok(*self, extra_opts@, host_pci@, run),
            r matches Ok(run) ==> run.hostbridge_slot.bus == 0 && (self.lpc_slot is None
                ==> run.lpc_slot.bus == 0),
            r matches Ok(run) ==> (explicit_distinct(*self) ==> run_slots(run).no_duplicates()),
            r matches Ok(run) ==> {
                &&& run.hostbridge_slot == slot_of(0, run.hostbridge_slot.slot as int)
                &&& run.hostbridge_slot.slot < 31
                &&& !reserved_slot(*self, run.hostbridge_slot)
                &&& forall|k: int|
                    0 <= k < run.hostbridge_slot.slot ==> reserved_slot(*self, #[trigger] slot_of(0, k))
            },
            r matches Ok(run) ==> (self.lpc_slot is None && slot_31_unreserved(*self) ==> run.lpc_slot
                == slot_of(0, 31)),
            r matches Ok(run) ==> auto_increasing(
                *self,
                run.emulations@,
                lex_pos(0, run.hostbridge_slot.slot as int),
            ),
            r matches Ok(run) ==> first_fit(
                *self,
                run.emulations@,
                run.lpc_slot,
                lex_pos(0, run.hostbridge_slot.slot as int),
            ),
            r matches Ok(run) ==> auto_open(*self, run.emulations@),
            r matches Ok(run) ==> (self.lpc_slot is None && !slot_31_unreserved(*self) ==> {
                &&& run.lpc_slot == slot_of(0, run.lpc_slot.slot as int)
                &&& open_at(*self, 0, run.lpc_slot.slot as int)
                &&& forall|k: int|
                    run.hostbridge_slot.slot < k < run.lpc_slot.slot ==> !#[trigger] open_at(*self, 0, k)
            }),
    {
        let taken = self.reserved_slots();
        let ghost r0 = taken@;
        let mut gen = PciSlotGenerator::build(0, 0, taken);
        let ghost g0 = gen;
        proof {
            assert(alloc_inv(gen, Seq::empty(), r0));
        }
        let hb = match gen.try_take_specific_bus(0) {
            Some(x) => {
                if x.bus != 0 {
                    proof {
                        assert forall|k: int| 0 <= k < 31 implies reserved_slot(*self, #[trigger] slot_of(0, k)) by {
                            assert(!free_at(r0, 0, k));
                        }
                    }
                    return Err(FormatError::HostbridgeSlotNotSatisfy);
                }
                x
            },
            None => {
                proof {
                    assert forall|k: int| 0 <= k < 31 implies reserved_slot(*self, #[trigger] slot_of(0, k)) by {
                        assert(!free_at(r0, 0, k));
                    }
                }
                return Err(FormatError::HostbridgeSlotNotSatisfy);
            },
        };
        proof {
            assert(!reserved_slot(*self, slot_of(0, hb.slot as int)));
            assert(bus0_free(*self));
            assert forall|k: int| 0 <= k < hb.slot implies reserved_slot(*self, #[trigger] slot_of(0, k)) by {
                assert(!free_at(r0, 0, k));
            }
            if slot_31_unreserved(*self) && reserves_bus_slot(r0, 0, 31) {
                let t = choose|t: int| 0 <= t < r0.len() && #[trigger] r0[t].bus == 0 && r0[t].slot == 31;
                assert(r0.contains(r0[t]));
                assert(reserved_slot(*self, r0[t]));
            }
            lemma_next_fresh(g0, gen, hb, Seq::empty(), r0);
            assert(Seq::<PciSlot>::empty().push(hb) == seq![hb]);
            if self.lpc_slot is None && (forall|x: PciSlot| x.bus == 0 ==> !reserved_slot(*self, x)) {
                assert(slot_of(0, 0).bus == 0);
                assert(!reserved_slot(*self, slot_of(0, 0)));
                assert(free_at(r0, 0, 0));
                assert(gen.cur_slot() < 31);
            }
        }
        let ghost issued1 = seq![hb];
        let ghost g1 = gen;
        let ghost h = hb.slot as int;
        proof {
            assert(hb_first(*self, h));
            if self.lpc_slot is None && lpc_room(*self, h) {
                let l = choose|l: PciSlot| lpc_chosen(*self, h, l);
                if slot_31_unreserved(*self) {
                    if reserves_bus_slot(r0, 0, 31) {
                        let t = choose|t: int| 0 <= t < r0.len() && #[trigger] r0[t].bus == 0 && r0[t].slot == 31;
                        assert(r0.contains(r0[t]));
                        assert(reserved_slot(*self, r0[t]));
                    }
                } else {
                    let y = choose|y: PciSlot| reserved_slot(*self, y) && y.bus == 0 && y.slot == 31;
                    assert(r0.contains(y));
                    let t = choose|t: int| 0 <= t < r0.len() && r0[t] == y;
                    assert(r0[t].bus == 0 && r0[t].slot == 31);
                    assert(reserves_bus_slot(r0, 0, 31));
                    lemma_open_is_free(*self, r0, 0, l.slot as int);
                    assert(free_at(r0, 0, l.slot as int));
                }
            }
        }
        let lpc_slot = match self.take_lpc_slot(&mut gen, Ghost(issued1), Ghost(r0)) {
            Ok(l) => l,
            Err(e) => {
                proof {
                    assert(!lpc_room(*self, h));
                }
                return Err(e);
            },
        };
        proof {
            if self.lpc_slot is None {
                if slot_31_unreserved(*self) {
                    if reserves_bus_slot(r0, 0, 31) {
                        let t = choose|t: int| 0 <= t < r0.len() && #[trigger] r0[t].bus == 0 && r0[t].slot == 31;
                        assert(r0.contains(r0[t]));
                        assert(reserved_slot(*self, r0[t]));
                    }
                    assert(lpc_chosen(*self, h, lpc_slot));
                }
            }
        }
        let ghost issued2 = if self.lpc_slot is None { issued1.push(lpc_slot) } else { issued1 };
        let ghost placed = seq![hb, lpc_slot];
        proof {
            assert(issued1[0] == hb);
            if self.lpc_slot is None {
                assert(issued2[0] == hb && issued2[1] == lpc_slot);
                assert(issued2.contains(hb) && issued2.contains(lpc_slot));
            } else {
                assert(issued2.contains(hb));
                assert(reserved_slot(*self, lpc_slot));
                assert(r0.contains(lpc_slot));
            }
            assert(placed[0] == hb && placed[1] == lpc_slot);
            assert(placed_ok(*self, placed, issued2, 0));
            assert forall|b: int, k: int|
                lex_pos(0, hb.slot as int) < lex_pos(b, k) < gen.cur_pos() && #[trigger] open_at(*self, b, k) implies filled_by(
                *self,
                Seq::<EmulatedPciDevice>::empty(),
                lpc_slot,
                slot_of(b, k),
                0,
            ) by {
                lemma_open_is_free(*self, r0, b, k);
                if gen.cur_pos() != g1.cur_pos() {
                    if lex_pos(b, k) < slot_pos(lpc_slot) {
                        assert(!free_at(r0, b, k));
                    } else {
                        assert(b == lpc_slot.bus && k == lpc_slot.slot);
                    }
                }
            }
            if self.lpc_slot is None && !slot_31_unreserved(*self) {
                let y = choose|y: PciSlot| reserved_slot(*self, y) && y.bus == 0 && y.slot == 31;
                assert(r0.contains(y));
                let t = choose|t: int| 0 <= t < r0.len() && r0[t] == y;
                assert(r0[t].bus == 0 && r0[t].slot == 31);
                assert(reserves_bus_slot(r0, 0, 31));
                assert(gen.cur_pos() != g1.cur_pos());
                assert forall|k: int| hb.slot < k < lpc_slot.slot implies !#[trigger] open_at(*self, 0, k) by {
                    lemma_open_is_free(*self, r0, 0, k);
                    assert(!free_at(r0, 0, k));
                }
                lemma_open_is_free(*self, r0, 0, lpc_slot.slot as int);
                assert(lpc_chosen(*self, h, lpc_slot));
            }
            assert(lpc_chosen(*self, h, lpc_slot));
            assert(lpc_room(*self, h));
            assert forall|h2: int| hb_first(*self, h2) implies lpc_room(*self, h2) by {
                lemma_hb_first_unique(*self, h, h2);
            }
        }
        let (emus, Ghost(issued3)) = match self.place_devices(
            &mut gen,
            host_pci,
            Ghost(issued2),
            Ghost(r0),
            Ghost(placed),
            Ghost(lex_pos(0, hb.slot as int)),
            Ghost(lpc_slot),
        ) {
            Ok(v) => v,
            Err(e) => {
                proof {
                    if e is RunOutOfSlots {
                        let e2 = choose|e2: Seq<PciSlot>|
                            e2.len() < auto_needed(*self) && covers(*self, e2, lex_pos(0, h), lpc_slot);
                        assert(hb_first(*self, h) && lpc_chosen(*self, h, lpc_slot) && e2.len() < auto_needed(*self));
                        assert(few_open(*self));
                    }
                }
                return Err(e);
            },
        };
        let lpcs = self.lpc_devices_of();
        let extra_options = self.extra_options_of(extra_opts);
        let run = VmRun {
            cpu: self.cpu,
            mem_kb: self.mem.kb,
            hostbridge_slot: hb,
            hostbridge_brand: self.hostbridge.clone(),
            lpc_slot,
            lpc_devices: lpcs,
            emulations: emus,
            name: self.name.clone(),
            uuid: clone_opt(&self.uuid),
            gdb: clone_opt(&self.gdb),
            utc_clock: self.utc_clock,
            yield_on_hlt: self.yield_on_hlt,
            generate_acpi: self.generate_acpi,
            wire_guest_mem: self.wire_guest_mem,
            force_msi: self.force_msi,
            disable_mptable_gen: self.disable_mptable_gen,
            power_off_destroy_vm: self.power_off_destroy_vm,
            extra_options,
        };
        proof {
            assert(run_slots(run) =~= placed + slots_of(run.emulations@));
            assert forall|i: int| 0 <= i < self.emulations@.len() implies {
                &&& (#[trigger] run.emulations@[i]).want_fix == self.emulations@[i].fix
                &&& declared_device(self.emulations@[i].emulation, host_pci@, run.emulations@[i].emulation)
                &&& self.emulations@[i].slot matches Some(x) ==> run.emulations@[i].slot == x
            } by {
                assert(compiled_entry(self.emulations@[i], host_pci@, run.emulations@[i]));
            }
        }
        Ok(run)
    }
}

} // verus!
