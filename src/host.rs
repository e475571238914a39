//! What the supervisor has observed of the host: file system entries, tap
//! interfaces, PCI devices and kernel modules, as plain values.

use vstd::prelude::*;
use crate::numeric::{dec_u8_spec, parse_u8, parse_unsigned, unsigned_spec};
use crate::slot::PciSlot;
use crate::text::{
    fields, fields_spec, find_spec, find_str, lemma_find_bounds, owned, split_char, split_spec,
    str_eq, views,
};

verus! {

/// What a path names on the host.
#[derive(Debug, Clone, Copy, PartialEq, Eq, Structural)]
pub enum FsKind {
    /// Nothing, or nothing that can be reached.
    Absent,
    File,
    Directory,
    /// Anything else: a device node, a socket, a fifo.
    Other,
}

/// One line of `pciconf -l`.
#[derive(Debug)]
pub struct PciDevice {
    pub device_name: String,
    pub domain: u8,
    pub slot: PciSlot,
    pub class: u32,
    pub rev: u8,
    pub header_type: u8,
    pub vendor: u16,
    pub subvendor: u16,
    pub device: u16,
    pub subdevice: u16,
}

/// Observations of the host that conditions are checked against.
#[derive(Debug)]
pub struct HostView {
    /// Paths that were looked at; a path not listed counts as absent.
    pub fs: Vec<(String, FsKind)>,
    /// The tap interfaces, or why they could not be listed.
    pub taps: Result<Vec<String>, String>,
    /// Whether a tap interface is opened by a process; `None` where that
    /// could not be found out.
    pub opened_taps: Vec<(String, Option<bool>)>,
    /// The PCI devices of the host.
    pub pci: Vec<PciDevice>,
    /// Whether a kernel module is loaded; `None` for a name the kernel does
    /// not take. A name not listed counts as `None`.
    pub kmods: Vec<(String, Option<bool>)>,
}

/// The value of the first entry of `s` keyed `k`, else `d`.
pub open spec fn keyed<V>(s: Seq<(String, V)>, k: Seq<char>, d: V) -> V
    decreases s.len(),
{
    if s.len() == 0 {
        d
    } else if s[0].0@ == k {
        s[0].1
    } else {
        keyed(s.drop_first(), k, d)
    }
}

/// Looks `k` up in `s`, with `d` for a missing key.
pub fn lookup<V: Copy>(s: &Vec<(String, V)>, k: &str, d: V) -> (r: V)
    ensures
        r == keyed(s@, k@, d),
{
    let mut i: usize = 0;
    proof {
        assert(s@.subrange(0, s@.len() as int) == s@);
    }
    while i < s.len()
        invariant
            i <= s@.len(),
            keyed(s@, k@, d) == keyed(s@.subrange(i as int, s@.len() as int), k@, d),
        decreases s@.len() - i,
    {
        let ghost rest = s@.subrange(i as int, s@.len() as int);
        proof {
            assert(rest.drop_first() == s@.subrange(i + 1, s@.len() as int));
            assert(rest[0] == s@[i as int]);
        }
        if str_eq(s[i].0.as_str(), k) {
            return s[i].1;
        }
        i = i + 1;
    }
    d
}

/// Index of the first device of domain 0 at `slot`, or `s.len()`.
pub open spec fn pci_index(s: Seq<PciDevice>, slot: PciSlot) -> int
    decreases s.len(),
{
    if s.len() == 0 {
        0
    } else if s[0].domain == 0 && s[0].slot == slot {
        0
    } else {
        1 + pci_index(s.drop_first(), slot)
    }
}

pub proof fn lemma_pci_index_bounds(s: Seq<PciDevice>, slot: PciSlot)
    ensures
        0 <= pci_index(s, slot) <= s.len(),
        pci_index(s, slot) < s.len() ==> s[pci_index(s, slot)].domain == 0 && s[pci_index(
            s,
            slot,
        )].slot == slot,
    decreases s.len(),
{
    if s.len() > 0 && !(s[0].domain == 0 && s[0].slot == slot) {
        lemma_pci_index_bounds(s.drop_first(), slot);
    }
}

impl HostView {
    /// What `path` names.
    pub open spec fn fs_kind(&self, path: Seq<char>) -> FsKind {
        keyed(self.fs@, path, FsKind::Absent)
    }

    /// Position of the device at `slot` in `pci`.
    pub fn find_pci(&self, slot: PciSlot) -> (r: usize)
        ensures
            r == pci_index(self.pci@, slot),
    {
        proof {
            lemma_pci_index_bounds(self.pci@, slot);
        }
        let mut i: usize = 0;
        proof {
            assert(self.pci@.subrange(0, self.pci@.len() as int) == self.pci@);
        }
        while i < self.pci.len()
            invariant
                i <= self.pci@.len(),
                pci_index(self.pci@, slot) == i + pci_index(
                    self.pci@.subrange(i as int, self.pci@.len() as int),
                    slot,
                ),
            decreases self.pci@.len() - i,
        {
            let ghost rest = self.pci@.subrange(i as int, self.pci@.len() as int);
            proof {
                assert(rest.drop_first() == self.pci@.subrange(i + 1, self.pci@.len() as int));
            }
            if self.pci[i].domain == 0 && self.pci[i].slot == slot {
                return i;
            }
            i = i + 1;
        }
        proof {
            assert(self.pci@.subrange(i as int, self.pci@.len() as int).len() == 0);
        }
        i
    }
}


/// The components that read as a `u8`, in order; the others are skipped.
pub open spec fn u8_parts(ps: Seq<Seq<char>>) -> Seq<u8>
    decreases ps.len(),
{
    if ps.len() == 0 {
        Seq::empty()
    } else {
        let r = u8_parts(ps.drop_last());
        match dec_u8_spec(ps.last()) {
            Some(v) => r.push(v),
            None => r,
        }
    }
}

/// The hex value of a field `key=0x...`.
pub open spec fn key_value(w: Seq<char>, key: Seq<char>) -> Option<u64> {
    let i = find_spec(w, "="@, 0);
    if i < w.len() && w.subrange(0, i) == key && w.len() - (i + 1) >= 2 {
        unsigned_spec(w.subrange(i + 3, w.len() as int), 16)
    } else {
        None
    }
}

/// The fields of a `pciconf -l` line: `name@pciD:B:S:F:` and then
/// `class`, `rev`, `hdr`, `vendor`, `device`, `subvendor` and `subdevice`,
/// in this order, each `key=0x` and hex digits that fit its width.
pub open spec fn pciconf_spec(line: Seq<char>) -> Option<(Seq<char>, u8, PciSlot, (u32, u8, u8), (u16, u16, u16, u16))> {
    let w = fields_spec(line);
    if w.len() < 8 {
        None
    } else {
        let sel = w[0];
        let at = find_spec(sel, "@pci"@, 0);
        let nums = u8_parts(split_spec(sel.subrange(at + 4, sel.len() as int), ':'));
        if at >= sel.len() || nums.len() < 4 {
            None
        } else {
            match (
                key_value(w[1], "class"@),
                key_value(w[2], "rev"@),
                key_value(w[3], "hdr"@),
                key_value(w[4], "vendor"@),
                key_value(w[5], "device"@),
                key_value(w[6], "subvendor"@),
                key_value(w[7], "subdevice"@),
            ) {
                (Some(c), Some(r), Some(h), Some(v), Some(d), Some(sv), Some(sd)) => if c
                    <= u32::MAX && r <= u8::MAX && h <= u8::MAX && v <= u16::MAX && d <= u16::MAX
                    && sv <= u16::MAX && sd <= u16::MAX {
                    Some(
                        (
                            sel.subrange(0, at),
                            nums[0],
                            PciSlot { bus: nums[1], slot: nums[2], func: nums[3] },
                            (c as u32, r as u8, h as u8),
                            (v as u16, d as u16, sv as u16, sd as u16),
                        ),
                    )
                } else {
                    None
                },
                _ => None,
            }
        }
    }
}

fn u8_components(s: &str) -> (r: Vec<u8>)
    ensures
        r@ == u8_parts(split_spec(s@, ':')),
{
    let ps = split_char(s, ':');
    let mut out: Vec<u8> = Vec::new();
    let mut i: usize = 0;
    proof {
        assert(views(ps@).subrange(0, 0) == Seq::<Seq<char>>::empty());
    }
    while i < ps.len()
        invariant
            i <= ps@.len(),
            views(ps@) == split_spec(s@, ':'),
            out@ == u8_parts(views(ps@).subrange(0, i as int)),
        decreases ps@.len() - i,
    {
        proof {
            let pre = views(ps@).subrange(0, i + 1);
            assert(pre.drop_last() == views(ps@).subrange(0, i as int));
            assert(pre.last() == ps@[i as int]@);
        }
        match parse_u8(ps[i].as_str()) {
            Some(v) => {
                out.push(v);
            },
            None => {},
        }
        i = i + 1;
    }
    proof {
        assert(views(ps@).subrange(0, ps@.len() as int) == views(ps@));
    }
    out
}

fn key_hex(w: &String, key: &str) -> (r: Option<u64>)
    ensures
        r == key_value(w@, key@),
{
    let i = find_str(w.as_str(), "=");
    proof {
        lemma_find_bounds(w@, "="@, 0);
    }
    let n = w.as_str().unicode_len();
    if i < n && n - (i + 1) >= 2 && str_eq(w.as_str().substring_char(0, i), key) {
        parse_unsigned(w.as_str().substring_char(i + 3, n), 16)
    } else {
        None
    }
}

impl PciDevice {
    /// Reads one line of `pciconf -l`; `None` when it does not have that
    /// form.
    pub fn from_pciconf_l_line(line: &str) -> (r: Option<PciDevice>)
        ensures
            match pciconf_spec(line@) {
                None => r is None,
                Some((name, domain, slot, (class, rev, hdr), (vendor, device, subvendor, subdevice))) => r matches Some(d) && d.device_name@ == name && d.domain == domain && d.slot == slot && d.class == class && d.rev == rev && d.header_type == hdr && d.vendor == vendor && d.device == device && d.subvendor == subvendor && d.subdevice == subdevice,
            },
    {
        let cols = fields(line);
        if cols.len() < 8 {
            return None;
        }
        let sel = cols[0].as_str();
        let at = find_str(sel, "@pci");
        proof {
            lemma_find_bounds(sel@, "@pci"@, 0);
            reveal_strlit("@pci");
        }
        let n = sel.unicode_len();
        if at >= n {
            return None;
        }
        let nums = u8_components(sel.substring_char(at + 4, n));
        if nums.len() < 4 {
            return None;
        }
        let class = key_hex(&cols[1], "class");
        let rev = key_hex(&cols[2], "rev");
        let hdr = key_hex(&cols[3], "hdr");
        let vendor = key_hex(&cols[4], "vendor");
        let device = key_hex(&cols[5], "device");
        let subvendor = key_hex(&cols[6], "subvendor");
        let subdevice = key_hex(&cols[7], "subdevice");
        match (class, rev, hdr, vendor, device, subvendor, subdevice) {
            (Some(c), Some(r), Some(h), Some(v), Some(d), Some(sv), Some(sd)) => {
                if c <= 0xffff_ffff && r <= 0xff && h <= 0xff && v <= 0xffff && d <= 0xffff && sv
                    <= 0xffff && sd <= 0xffff {
                    Some(
                        PciDevice {
                            device_name: owned(sel.substring_char(0, at)),
                            domain: nums[0],
                            slot: PciSlot { bus: nums[1], slot: nums[2], func: nums[3] },
                            class: c as u32,
                            rev: r as u8,
                            header_type: h as u8,
                            vendor: v as u16,
                            device: d as u16,
                            subvendor: sv as u16,
                            subdevice: sd as u16,
                        },
                    )
                } else {
                    None
                }
            },
            _ => None,
        }
    }
}

} // verus!
