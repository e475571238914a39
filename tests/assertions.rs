use bhyve_supervisor::assertion::{Assertion, RepairAction};
use bhyve_supervisor::conditions::{
    Condition, FatalIoError, FsEntity, GenericFatalCondition, KernelFeature, NestedConditions,
    NetworkBackendAvailable, Probe, ValidBhyveVPciSlot, ValidPassthruDevice, ValidResolution,
};
use bhyve_supervisor::emulation::{BhyveDev, VirtioNet};
use bhyve_supervisor::host::{FsKind, HostView, PciDevice};
use bhyve_supervisor::slot::PciSlot;
use bhyve_supervisor::supervisor::{launch_allowed, recovery_decision, RecoveryDecision};
use bhyve_supervisor::vm::{CpuSpec, LpcDevice, NetBackend, VmRun};

fn host(fs: Vec<(&str, FsKind)>, taps: Vec<&str>) -> HostView {
    HostView {
        fs: fs.into_iter().map(|(p, k)| (p.to_string(), k)).collect(),
        taps: Ok(taps.into_iter().map(|t| t.to_string()).collect()),
        opened_taps: vec![],
        pci: vec![],
        kmods: vec![],
    }
}

fn rec(scope: &str, tap: &str) -> Assertion {
    Assertion::Recoverable(scope.to_string(), "create-tap".to_string(), RepairAction::CreateTap(tap.to_string()))
}

fn fatal(scope: &str, why: &str) -> Assertion {
    Assertion::Fatal(scope.to_string(), why.to_string())
}

fn run_with_bootrom(rom: &str) -> VmRun {
    VmRun {
        cpu: CpuSpec::from_flat(1),
        mem_kb: 1024,
        hostbridge_brand: "hostbridge".to_string(),
        hostbridge_slot: PciSlot { bus: 0, slot: 0, func: 0 },
        lpc_slot: PciSlot { bus: 0, slot: 31, func: 0 },
        lpc_devices: vec![LpcDevice::Bootrom(rom.to_string(), None)],
        emulations: vec![],
        name: "t".to_string(),
        uuid: None,
        gdb: None,
        utc_clock: true,
        yield_on_hlt: true,
        generate_acpi: true,
        wire_guest_mem: false,
        force_msi: false,
        disable_mptable_gen: false,
        power_off_destroy_vm: false,
        extra_options: vec![],
    }
}

#[test]
fn missing_firmware_is_fatal() {
    let run = run_with_bootrom("/no/such/file");
    let h = host(vec![], vec![]);
    let a = run.preconditions().check(&h).unwrap_err();
    assert!(!a.is_recoverable());
    assert!(!launch_allowed(&Err(run.preconditions().check(&h).unwrap_err())));
    let text = a.print("vm".to_string());
    assert!(text.contains("[fatal] exists: Entity at \"/no/such/file\" does not exists"));
    assert!(a.recover().is_empty());
}

#[test]
fn present_firmware_passes() {
    let run = run_with_bootrom("/fw.fd");
    let h = host(vec![("/fw.fd", FsKind::File)], vec![]);
    assert!(run.preconditions().check(&h).is_ok());
    assert!(launch_allowed(&Ok(())));
}

#[test]
fn missing_tap_is_recoverable() {
    let net = VirtioNet { tpe: NetBackend::Tap, name: "tap9".to_string(), mtu: None, mac: None };
    let h = host(vec![], vec!["tap0"]);
    let a = net.preconditions().check(&h).unwrap_err();
    assert!(a.is_recoverable());
    match &a {
        Assertion::Recoverable(scope, why, act) => {
            assert_eq!(scope, "tap-iface");
            assert_eq!(why, "create-tap");
            assert_eq!(*act, RepairAction::CreateTap("tap9".to_string()));
        }
        other => panic!("unexpected {:?}", other),
    }
    assert!(matches!(recovery_decision(&a, false, true), RecoveryDecision::Repair));
    assert_eq!(a.recover(), vec![RepairAction::CreateTap("tap9".to_string())]);
}

#[test]
fn opened_tap_is_fatal() {
    let cond = Condition::NetworkBackendAvailable(NetworkBackendAvailable {
        backend: NetBackend::Tap,
        name: "tap0".to_string(),
    });
    let mut h = host(vec![], vec!["tap0"]);
    h.opened_taps = vec![("tap0".to_string(), Some(true))];
    assert!(!cond.check(&h).unwrap_err().is_recoverable());
    h.opened_taps = vec![("tap0".to_string(), Some(false))];
    assert!(cond.check(&h).is_ok());
    assert_eq!(cond.probes(), vec![Probe::TapOpened("tap0".to_string())]);
}

#[test]
fn container_recoverable_iff_all_children() {
    let all = Assertion::Container(vec![("a".to_string(), rec("x", "tap1")), ("b".to_string(), rec("y", "tap2"))]);
    assert!(all.is_recoverable());
    let mixed = Assertion::Container(vec![("a".to_string(), rec("x", "tap1")), ("b".to_string(), fatal("y", "no"))]);
    assert!(!mixed.is_recoverable());
    assert!(Assertion::Container(vec![]).is_recoverable());
}

#[test]
fn recover_repairs_every_leaf() {
    let nested = Assertion::Container(vec![
        ("a".to_string(), rec("x", "tap1")),
        ("b".to_string(), Assertion::Container(vec![("c".to_string(), rec("y", "tap2"))])),
    ]);
    assert!(nested.is_recoverable());
    assert_eq!(
        nested.recover(),
        vec![RepairAction::CreateTap("tap1".to_string()), RepairAction::CreateTap("tap2".to_string())]
    );
}

#[test]
fn print_tree_shape() {
    let tree = Assertion::Container(vec![
        ("a".to_string(), fatal("x", "bad")),
        ("b".to_string(), Assertion::Container(vec![("c".to_string(), rec("y", "tap2"))])),
    ]);
    let expected = "vm\n├─[fatal] x: bad\n└─b\n   └─[recoverable] y: create-tap\n";
    assert_eq!(tree.print("vm".to_string()), expected);
}

#[test]
fn prompt_stops_at_fatal() {
    let tree = Assertion::Container(vec![
        ("a".to_string(), rec("x", "tap1")),
        ("b".to_string(), fatal("y", "no")),
        ("c".to_string(), rec("z", "tap3")),
    ]);
    assert_eq!(tree.recovery_prompt(), "a:\n  x: create-tap");
    assert!(matches!(recovery_decision(&tree, false, false), RecoveryDecision::Skip));
    let ok = Assertion::Container(vec![("a".to_string(), rec("x", "tap1"))]);
    match recovery_decision(&ok, false, false) {
        RecoveryDecision::Ask(q) => assert_eq!(q, "a:\n  x: create-tap"),
        other => panic!("unexpected {:?}", other),
    }
}

#[test]
fn leaf_condition_messages() {
    let h = host(vec![("/dir", FsKind::Directory)], vec![]);
    let slot = Condition::ValidBhyveVPciSlot(ValidBhyveVPciSlot { slot: PciSlot { bus: 0, slot: 32, func: 0 } });
    assert!(matches!(slot.check(&h), Err(Assertion::Fatal(_, _))));
    let res = Condition::ValidResolution(ValidResolution { w: Some(2000), h: Some(600) });
    match res.check(&h) {
        Err(Assertion::Fatal(n, m)) => {
            assert_eq!(n, "fbuf_resolution");
            assert_eq!(m, "Maximum resolution is 1920x1200, got 2000x600");
        }
        other => panic!("unexpected {:?}", other),
    }
    let half = Condition::ValidResolution(ValidResolution { w: Some(800), h: None });
    assert!(half.check(&h).is_err());
    let kmod = KernelFeature::new_boxed("nmdm");
    match kmod.check(&h) {
        Err(Assertion::Fatal(n, m)) => {
            assert_eq!(n, "kmod:nmdm");
            assert_eq!(m, "invalid kmod nmdm");
        }
        other => panic!("unexpected {:?}", other),
    }
    let not_file = Condition::Existence(bhyve_supervisor::conditions::Existence {
        resource: FsEntity::File("/dir".to_string()),
    });
    match not_file.check(&h) {
        Err(Assertion::Fatal(_, m)) => assert_eq!(m, "Entity \"/dir\" exists but is not a regular file"),
        other => panic!("unexpected {:?}", other),
    }
    let g = GenericFatalCondition::new_boxed("n", "m");
    assert_eq!(g.name(), "n");
    let io = FatalIoError { inner: String::new() }.boxed_last_os_error("denied".to_string());
    assert!(matches!(io.check(&h), Err(Assertion::Fatal(n, m)) if n == "std::io::error" && m == "denied"));
}

#[test]
fn passthru_device_checks() {
    let slot = PciSlot { bus: 3, slot: 0, func: 0 };
    let cond = Condition::ValidPassthruDevice(ValidPassthruDevice { slot });
    let mut h = host(vec![], vec![]);
    assert!(matches!(cond.check(&h), Err(Assertion::Fatal(_, m)) if m == "Invalid PCI device"));
    let line = "em0@pci0:3:0:0: class=0x020000 rev=0x00 hdr=0x00 vendor=0x8086 device=0x10d3 subvendor=0x8086 subdevice=0xa01f";
    h.pci = vec![PciDevice::from_pciconf_l_line(line).unwrap()];
    match cond.check(&h) {
        Err(Assertion::Recoverable(scope, _, act)) => {
            assert_eq!(scope, "pci0:3:0:0");
            assert_eq!(act, RepairAction::AttachPpt(slot));
        }
        other => panic!("unexpected {:?}", other),
    }
    h.pci[0].device_name = "ppt0".to_string();
    assert!(cond.check(&h).is_ok());
}

#[test]
fn nested_collects_failures_by_name() {
    let nested = Condition::Nested(NestedConditions {
        name: "group".to_string(),
        conditions: vec![
            GenericFatalCondition::new_boxed("first", "one"),
            Condition::NoCond(bhyve_supervisor::conditions::NoCond {}),
            GenericFatalCondition::new_boxed("second", "two"),
        ],
    });
    let h = host(vec![], vec![]);
    match nested.check(&h) {
        Err(Assertion::Container(items)) => {
            assert_eq!(items.len(), 2);
            assert_eq!(items[0].0, "first");
            assert_eq!(items[1].0, "second");
        }
        other => panic!("unexpected {:?}", other),
    }
}

#[test]
fn duplicated_lpc_device_is_fatal() {
    let mut run = run_with_bootrom("/fw.fd");
    run.lpc_devices.push(LpcDevice::Com(1, "stdio".to_string()));
    run.lpc_devices.push(LpcDevice::Com(1, "stdio".to_string()));
    run.lpc_devices.push(LpcDevice::Com(5, "/tmp/x".to_string()));
    let h = host(vec![("/fw.fd", FsKind::File)], vec![]);
    let a = run.preconditions().check(&h).unwrap_err();
    let text = a.print("vm".to_string());
    assert!(text.contains("lpc device com1 are specified more than once"));
    assert!(text.contains("only com[1-4] are supported"));
    assert!(text.contains("com device must be either stdio or nmdm device"));
    let io = Assertion::from_io_error("gone".to_string());
    assert!(matches!(io, Assertion::Fatal(s, w) if s == "std::io::error" && w == "gone"));
}
