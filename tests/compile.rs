use bhyve_supervisor::decoding::{Emulation, Emulations, PciLookup, PciPassthruX};
use bhyve_supervisor::emulation::{EmulatedPci, VirtioBlk};
use bhyve_supervisor::error::FormatError;
use bhyve_supervisor::host::PciDevice;
use bhyve_supervisor::slot::{PciSlot, PciSlotGenerator};
use bhyve_supervisor::spec::{
    default_bootopt, default_hostbridge, empty_hashmap, GraphicOption, MemorySpec, VmSpec,
    VmSpecMod,
};
use bhyve_supervisor::vm::{CpuSpec, LpcDevice};

fn blk(slot: Option<PciSlot>, path: &str) -> Emulation {
    Emulation {
        slot,
        fix: false,
        emulation: Emulations::VirtioBlk(VirtioBlk {
            path: path.to_string(),
            nocache: false,
            direct: false,
            ro: false,
            logical_sector_size: None,
            physical_sector_size: None,
            nodelete: false,
        }),
    }
}

fn machine(name: &str, emulations: Vec<Emulation>) -> VmSpec {
    VmSpec {
        cpu: CpuSpec::from_flat(1),
        mem: MemorySpec { kb: 524288 },
        bootopt: None,
        emulations,
        name: name.to_string(),
        hostbridge: default_hostbridge(),
        lpc_slot: None,
        com1: None,
        com2: None,
        com3: None,
        com4: None,
        gdb: None,
        uuid: None,
        graphic: None,
        utc_clock: true,
        yield_on_hlt: true,
        generate_acpi: true,
        wire_guest_mem: false,
        force_msi: false,
        disable_mptable_gen: false,
        power_off_destroy_vm: false,
        extra_options: None,
        targets: empty_hashmap(),
        next_target: None,
        post_start_script: None,
    }
}

fn empty_mod() -> VmSpecMod {
    VmSpecMod {
        cpu: None,
        mem: None,
        bootopt: None,
        emulations: vec![],
        gdb: None,
        com1: None,
        com2: None,
        com3: None,
        com4: None,
        utc_clock: None,
        yield_on_hlt: None,
        generate_acpi: None,
        wire_guest_mem: None,
        force_msi: None,
        disable_mptable_gen: None,
        extra_options: None,
        next_target: None,
        post_start_script: None,
        graphic: None,
    }
}

fn slot(bus: u8, slot: u8, func: u8) -> PciSlot {
    PciSlot { bus, slot, func }
}

#[test]
fn minimal_uefi_vm_argv() {
    let spec = machine("t", vec![blk(Some(slot(0, 5, 0)), "/tmp/img")]);
    let run = spec.build(&vec![], &vec![]).unwrap();
    let argv = run.bhyve_args();
    let expected: Vec<&str> = vec![
        "-A", "-H", "-u", "-c", "1", "-m", "524288K", "-s", "0:0:0,hostbridge", "-s", "0:31:0,lpc",
        "-s", "0:5:0,virtio-blk,/tmp/img", "-l",
        "bootrom,/usr/local/share/uefi-firmware/BHYVE_UEFI.fd", "t",
    ];
    assert_eq!(argv, expected.iter().map(|s| s.to_string()).collect::<Vec<String>>());
}

#[test]
fn lpc_falls_back_when_slot_31_is_taken() {
    let spec = machine("t", vec![blk(Some(slot(0, 31, 0)), "/tmp/img")]);
    let run = spec.build(&vec![], &vec![]).unwrap();
    assert_eq!(run.hostbridge_slot, slot(0, 0, 0));
    assert_eq!(run.lpc_slot, slot(0, 1, 0));
    assert_eq!(run.emulations[0].slot, slot(0, 31, 0));
}

#[test]
fn target_overlay_appends_emulations() {
    let mut spec = machine("t", vec![blk(None, "/tmp/a")]);
    let mut patch = empty_mod();
    patch.emulations.push(blk(None, "/tmp/b"));
    spec.targets.push(("test".to_string(), patch));
    spec.consume_target(&"test".to_string()).unwrap();
    assert_eq!(spec.emulations.len(), 2);
    let run = spec.build(&vec![], &vec![]).unwrap();
    assert_eq!(run.emulations.len(), 2);
    assert_eq!(run.emulations[0].slot, slot(0, 1, 0));
    assert_eq!(run.emulations[1].slot, slot(0, 2, 0));
    assert_eq!(run.emulations[0].to_bhyve_arg(), "0:1:0,virtio-blk,/tmp/a");
    assert_eq!(run.emulations[1].to_bhyve_arg(), "0:2:0,virtio-blk,/tmp/b");
}

#[test]
fn compiled_slots_are_distinct_and_explicit_kept() {
    let spec = machine(
        "t",
        vec![
            blk(None, "/a"),
            blk(Some(slot(0, 1, 0)), "/b"),
            blk(None, "/c"),
            blk(Some(slot(2, 3, 0)), "/d"),
            blk(None, "/e"),
        ],
    );
    let run = spec.build(&vec![], &vec![]).unwrap();
    let mut all = vec![run.hostbridge_slot, run.lpc_slot];
    for e in run.emulations.iter() {
        all.push(e.slot);
    }
    for i in 0..all.len() {
        for j in (i + 1)..all.len() {
            assert_ne!(all[i], all[j]);
        }
    }
    assert_eq!(run.emulations[1].slot, slot(0, 1, 0));
    assert_eq!(run.emulations[3].slot, slot(2, 3, 0));
    assert_eq!(run.hostbridge_slot.bus, 0);
    assert_eq!(run.lpc_slot.bus, 0);
    assert_eq!(run.emulations[0].slot, slot(0, 2, 0));
}

#[test]
fn explicit_lpc_slot_is_used() {
    let mut spec = machine("t", vec![blk(None, "/a")]);
    spec.lpc_slot = Some(slot(0, 4, 0));
    let run = spec.build(&vec![], &vec![]).unwrap();
    assert_eq!(run.lpc_slot, slot(0, 4, 0));
    assert_eq!(run.hostbridge_slot, slot(0, 0, 0));
    assert_eq!(run.emulations[0].slot, slot(0, 1, 0));
}

#[test]
fn graphic_adds_framebuffer_and_tablet() {
    let mut spec = machine("t", vec![]);
    spec.graphic = Some(GraphicOption {
        host: "0.0.0.0".to_string(),
        port: Some(5901),
        vga: None,
        password: None,
        wait: false,
        width: Some(1024),
        height: Some(768),
        xhci_table: true,
    });
    let run = spec.build(&vec![], &vec![]).unwrap();
    assert_eq!(run.emulations.len(), 2);
    assert_eq!(run.emulations[0].to_bhyve_arg(), "0:1:0,fbuf,tcp=0.0.0.0:5901,w=1024,h=768");
    assert_eq!(run.emulations[1].to_bhyve_arg(), "0:2:0,xhci,tablet");
}

#[test]
fn extra_options_and_coms() {
    let mut spec = machine("vm1", vec![]);
    spec.extra_options = Some("  -w  -x ".to_string());
    spec.com1 = Some("stdio".to_string());
    spec.com3 = Some("/dev/nmdm0A".to_string());
    spec.gdb = Some("localhost:1234".to_string());
    let run = spec.build(&vec!["-y".to_string()], &vec![]).unwrap();
    assert_eq!(run.extra_options, vec!["-w".to_string(), "-x".to_string(), "-y".to_string()]);
    assert_eq!(run.lpc_devices.len(), 3);
    assert_eq!(run.lpc_devices[1], LpcDevice::Com(1, "stdio".to_string()));
    assert_eq!(run.lpc_devices[2], LpcDevice::Com(3, "/dev/nmdm0A".to_string()));
    let argv = run.bhyve_args();
    let n = argv.len();
    assert_eq!(argv[n - 1], "vm1");
    assert_eq!(argv[n - 2], "-y");
    assert!(argv.contains(&"-G".to_string()));
}

#[test]
fn hostbridge_without_room_on_bus0() {
    let emus: Vec<Emulation> = (0..31u8).map(|s| blk(Some(slot(0, s, 0)), "/x")).collect();
    let spec = machine("t", emus);
    assert!(matches!(spec.build(&vec![], &vec![]), Err(FormatError::HostbridgeSlotNotSatisfy)));
}

#[test]
fn lpc_without_room_on_bus0() {
    let mut emus: Vec<Emulation> = (1..31u8).map(|s| blk(Some(slot(0, s, 0)), "/x")).collect();
    emus.push(blk(Some(slot(0, 31, 1)), "/y"));
    let spec = machine("t", emus);
    assert!(matches!(spec.build(&vec![], &vec![]), Err(FormatError::LpcSlotNotSatisfy)));
}

#[test]
fn passthru_lookup_and_failure() {
    let dev = PciDevice::from_pciconf_l_line(
        "ppt0@pci0:3:0:0: class=0x028000 rev=0x1a hdr=0x00 vendor=0x8086 device=0x2725 subvendor=0x8086 subdevice=0x0024",
    )
    .unwrap();
    let by_ids = Emulation {
        slot: None,
        fix: false,
        emulation: Emulations::Passthru(PciPassthruX {
            src: None,
            lookup: Some(PciLookup { vendor: "0x80868086".to_string(), device: "0x27250024".to_string() }),
            rom: None,
        }),
    };
    let host = vec![dev];
    match by_ids.to_vm_emu(&host).unwrap() {
        EmulatedPci::Passthru(p) => assert_eq!(p.as_bhyve_arg(), "passthru,3/0/0"),
        other => panic!("unexpected {:?}", other),
    }
    assert!(matches!(by_ids.to_vm_emu(&vec![]), Err(FormatError::InvalidUnit(_))));
    let spec = machine("t", vec![by_ids]);
    assert!(matches!(spec.build(&vec![], &vec![]), Err(FormatError::InvalidUnit(_))));
}

#[test]
fn generator_order_and_exhaustion() {
    let mut g = PciSlotGenerator::build(0, 29, vec![slot(0, 30, 0)]);
    assert_eq!(g.next_slot(), Some(slot(0, 29, 0)));
    assert_eq!(g.next_slot(), Some(slot(1, 0, 0)));
    let mut end = PciSlotGenerator::build(255, 30, vec![]);
    assert_eq!(end.next_slot(), Some(slot(255, 30, 0)));
    assert_eq!(end.next_slot(), None);
}

#[test]
fn generator_specific_requests() {
    let mut g = PciSlotGenerator::build(0, 0, vec![slot(2, 0, 0)]);
    assert_eq!(g.try_take_specific_bus(2), Some(slot(2, 1, 0)));
    assert_eq!(g.try_take_specific_bus_slot(0, 7), Some(slot(0, 7, 0)));
    assert_eq!(g.try_take_specific_bus_slot(0, 7), None);
    assert_eq!(g.try_take_specific_bus(0), Some(slot(0, 0, 0)));
    assert_eq!(g.try_take_specific_bus_slot(0, 0), None);
    let mut full = PciSlotGenerator::build(0, 0, (0..32u8).map(|s| slot(1, s, 0)).collect());
    assert_eq!(full.try_take_specific_bus(1), None);
}

#[test]
fn default_boot_firmware() {
    match default_bootopt() {
        bhyve_supervisor::spec::BootOptions::Uefi(u) => {
            assert_eq!(u.bootrom, "/usr/local/share/uefi-firmware/BHYVE_UEFI.fd");
            assert!(u.varfile.is_none());
        }
    }
}
