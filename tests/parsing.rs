use bhyve_supervisor::decoding::Emulations;
use bhyve_supervisor::emulation::{Nvme, NvmeBackend, VirtioNet};
use bhyve_supervisor::error::FormatError;
use bhyve_supervisor::numeric::{mem_kb_from_bytes, parse_mem_in_kb, take_numeric};
use bhyve_supervisor::slot::PciSlot;
use bhyve_supervisor::supervisor::{arg_to_vec, parse_i32};
use bhyve_supervisor::util::{vec_exists, vec_sequence_map};
use bhyve_supervisor::vm::NetBackend;

#[test]
fn memory_sizes() {
    assert_eq!(parse_mem_in_kb(&"1K".to_string()).unwrap(), 1);
    assert_eq!(parse_mem_in_kb(&"1M".to_string()).unwrap(), 1024);
    assert_eq!(parse_mem_in_kb(&"2G".to_string()).unwrap(), 2 * 1024 * 1024);
    assert_eq!(parse_mem_in_kb(&"0x10K".to_string()).unwrap(), 16);
    assert_eq!(parse_mem_in_kb(&"512M".to_string()).unwrap(), 524288);
    assert_eq!(parse_mem_in_kb(&"1T".to_string()).unwrap(), 1024 * 1024 * 1024);
    assert_eq!(parse_mem_in_kb(&"010Kb".to_string()).unwrap(), 8);
    assert_eq!(parse_mem_in_kb(&"0b101KB".to_string()).unwrap(), 5);
    assert_eq!(parse_mem_in_kb(&"512mb".to_string()).unwrap(), 524288);
    assert_eq!(parse_mem_in_kb(&"1gb".to_string()).unwrap(), 1024 * 1024);
    assert_eq!(mem_kb_from_bytes(17), 0);
    assert_eq!(mem_kb_from_bytes(17000), 17);
}

#[test]
fn memory_size_errors() {
    assert!(matches!(parse_mem_in_kb(&"5X".to_string()), Err(FormatError::InvalidUnit(u)) if u == "X"));
    assert!(matches!(parse_mem_in_kb(&"K".to_string()), Err(FormatError::InvalidValue(_))));
    assert!(matches!(parse_mem_in_kb(&"1k".to_string()), Err(FormatError::InvalidUnit(u)) if u == "k"));
    assert!(matches!(parse_mem_in_kb(&"1kB".to_string()), Err(FormatError::InvalidUnit(u)) if u == "kB"));
    assert!(matches!(parse_mem_in_kb(&"0xK".to_string()), Err(FormatError::InvalidValue(_))));
    assert!(matches!(parse_mem_in_kb(&"99999999999999999999999K".to_string()), Err(FormatError::InvalidValue(_))));
    let (v, rest) = take_numeric(false, "0x10K").unwrap();
    assert_eq!(v, 0);
    assert_eq!(rest, "x10K");
}

#[test]
fn pci_slot_forms() {
    assert_eq!(PciSlot::parse("5").unwrap(), PciSlot { bus: 0, slot: 5, func: 0 });
    assert_eq!(PciSlot::parse("5:1").unwrap(), PciSlot { bus: 0, slot: 5, func: 1 });
    assert_eq!(PciSlot::parse("2:5:1").unwrap(), PciSlot { bus: 2, slot: 5, func: 1 });
    assert_eq!("0:5".parse::<PciSlot>().unwrap(), PciSlot { bus: 0, slot: 0, func: 5 });
    assert!(matches!(PciSlot::parse("1:2:3:4"), Err(FormatError::InvalidPciSlotRepr(s)) if s == "1:2:3:4"));
    assert!(matches!(PciSlot::parse("a:b"), Err(FormatError::InvalidPciSlotRepr(_))));
    assert!(matches!(PciSlot::parse("256"), Err(FormatError::InvalidPciSlotRepr(_))));
    assert!(matches!(PciSlot::from_bhyve_vpci_slot("40"),
        Err(FormatError::PciSlotValueOverflow { component, value: 40, max: 31 }) if component == "slot"));
    assert!(matches!(PciSlot::from_bhyve_vpci_slot("3:9"),
        Err(FormatError::PciSlotValueOverflow { component, value: 9, max: 7 }) if component == "func"));
    assert_eq!(PciSlot::from_bhyve_vpci_slot("1:31:7").unwrap(), PciSlot { bus: 1, slot: 31, func: 7 });
}

#[test]
fn virtio_net_fields() {
    let net = VirtioNet::from_fields(Some("tap3".to_string()), None, Some("1500".to_string()), None).unwrap();
    assert_eq!(net.tpe, NetBackend::Tap);
    assert_eq!(net.mtu, Some(1500));
    let vale = VirtioNet::from_fields(Some("x".to_string()), Some("vale".to_string()), Some("big".to_string()), None).unwrap();
    assert_eq!(vale.tpe, NetBackend::Vale);
    assert_eq!(vale.mtu, None);
    assert!(matches!(VirtioNet::from_fields(None, None, None, None), Err(FormatError::IncorrectEmulation(_))));
    assert!(matches!(VirtioNet::from_fields(Some("em0".to_string()), None, None, None), Err(FormatError::IncorrectEmulation(_))));
    assert!(matches!(VirtioNet::from_fields(Some("tap0".to_string()), Some("bridge".to_string()), None, None), Err(FormatError::IncorrectEmulation(_))));
}

#[test]
fn nvme_fields() {
    let ram = Nvme::from_fields(Some(16), None, None, None, None, None, Some(512), Some("/p".to_string())).unwrap();
    assert_eq!(ram.backend, NvmeBackend::Ram(512));
    assert_eq!(ram.qsz, Some(16));
    let file = Nvme::from_fields(None, None, None, None, Some(1 << 33), None, None, Some("/p".to_string())).unwrap();
    assert_eq!(file.backend, NvmeBackend::Path("/p".to_string()));
    assert_eq!(file.eui64, Some(0));
    assert!(matches!(Nvme::from_fields(None, None, None, None, None, None, None, None), Err(FormatError::IncorrectEmulation(_))));
    let decl = Emulations::Nvme(ram);
    assert!(matches!(decl, Emulations::Nvme(_)));
}

#[test]
fn reboot_code_lists() {
    assert_eq!(arg_to_vec("0,1").unwrap().vec, vec![0, 1]);
    assert_eq!(arg_to_vec("-3").unwrap().vec, vec![-3]);
    assert!(arg_to_vec("0,x").is_err());
    assert!(arg_to_vec("").is_err());
    assert_eq!(parse_i32("+7"), Some(7));
    assert_eq!(parse_i32("-2147483648"), Some(i32::MIN));
    assert_eq!(parse_i32("2147483648"), None);
    assert!(arg_to_vec("0,1").unwrap().contains(&1));
    assert!(!arg_to_vec("0,1").unwrap().contains(&3));
}

#[test]
fn slice_helpers() {
    let v = vec![1, 2, 3];
    assert!(vec_exists(&v, |x: &i32| *x == 2));
    assert!(!vec_exists(&v, |x: &i32| *x == 5));
    let ok: Result<Vec<i32>, String> = vec_sequence_map(&v, |x: &i32| Ok(*x * 2));
    assert_eq!(ok.unwrap(), vec![2, 4, 6]);
    let err: Result<Vec<i32>, String> =
        vec_sequence_map(&v, |x: &i32| if *x == 2 { Err("two".to_string()) } else { Ok(*x) });
    assert_eq!(err.unwrap_err(), "two");
}
