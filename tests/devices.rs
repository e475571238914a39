use bhyve_supervisor::conditions::{Condition, FsEntity};
use bhyve_supervisor::emulation::{
    AhciHd, BhyveDev, EmulatedPci, Framebuffer, Nvme, NvmeBackend, PciPassthru, VirtioBlk,
    VirtioConsole, VirtioNet, Xhci,
};
use bhyve_supervisor::host::PciDevice;
use bhyve_supervisor::slot::PciSlot;
use bhyve_supervisor::vm::{CpuSpec, LpcDevice, NetBackend, Resource};

#[test]
fn test_pci_decode() {
    let input = "ppt0@pci0:114:0:0:      class=0x028000 rev=0x1a hdr=0x00 vendor=0x8086 device=0x2725 subvendor=0x8086 subdevice=0x0024";
    let dev = PciDevice::from_pciconf_l_line(input).unwrap();

    assert_eq!(dev.device_name, "ppt0");
    assert_eq!(dev.class, 0x28000);
    assert_eq!(dev.rev, 0x1a);
    assert_eq!(dev.header_type, 0x00);
    assert_eq!(dev.vendor, 0x8086);
    assert_eq!(dev.device, 0x2725);
    assert_eq!(dev.subvendor, 0x8086);
    assert_eq!(dev.subdevice, 0x0024);
}

#[test]
fn pci_passthru_format() {
    let slot = PciSlot { bus: 1, slot: 1, func: 1 };
    let device = PciPassthru { src: slot, rom: None };
    let device2 = PciPassthru { rom: Some("1.fd".to_string()), ..device };
    assert_eq!(device.as_bhyve_arg(), "passthru,1/1/1".to_string());
    assert_eq!(device2.as_bhyve_arg(), "passthru,1/1/1,rom=1.fd".to_string());
}

#[test]
fn xhci_format() {
    let device = Xhci {};
    assert_eq!(device.as_bhyve_arg(), "xhci,tablet".to_string());
}

#[test]
fn framebuffer_format() {
    let fb = Framebuffer {
        host: "0.0.0.0".to_string(),
        port: None,
        w: Some(1280),
        h: Some(920),
        vga: None,
        wait: true,
        password: None,
    };

    assert_eq!(fb.as_bhyve_arg(), "fbuf,tcp=0.0.0.0:5900,w=1280,h=920,wait".to_string());
}

#[test]
fn pciconf_line_with_tab_and_domain() {
    let input = "hostb0@pci1:0:2:3:\tclass=0x060000 rev=0x00 hdr=0x01 vendor=0x1022 device=0x1480 subvendor=0x1022 subdevice=0x1480";
    let dev = PciDevice::from_pciconf_l_line(input).unwrap();
    assert_eq!(dev.device_name, "hostb0");
    assert_eq!(dev.domain, 1);
    assert_eq!(dev.slot, PciSlot { bus: 0, slot: 2, func: 3 });
    assert_eq!(dev.header_type, 1);
}

#[test]
fn pciconf_line_malformed() {
    assert!(PciDevice::from_pciconf_l_line("ppt0 class=0x0").is_none());
    let wrong_key = "ppt0@pci0:1:0:0: klass=0x028000 rev=0x1a hdr=0x00 vendor=0x8086 device=0x2725 subvendor=0x8086 subdevice=0x0024";
    assert!(PciDevice::from_pciconf_l_line(wrong_key).is_none());
    let too_wide = "ppt0@pci0:1:0:0: class=0x028000 rev=0x1a1 hdr=0x00 vendor=0x8086 device=0x2725 subvendor=0x8086 subdevice=0x0024";
    assert!(PciDevice::from_pciconf_l_line(too_wide).is_none());
}

#[test]
fn virtio_net_format() {
    let net = VirtioNet {
        tpe: NetBackend::Tap,
        name: "tap0".to_string(),
        mtu: Some(9000),
        mac: Some("00:a0:98:00:00:01".to_string()),
    };
    assert_eq!(net.as_bhyve_arg(), "virtio-net,tap0,type=tap,mtu=9000,mac=00:a0:98:00:00:01");
}

#[test]
fn virtio_blk_format() {
    let blk = VirtioBlk {
        path: "/tmp/img".to_string(),
        nocache: true,
        direct: true,
        ro: false,
        logical_sector_size: Some(512),
        physical_sector_size: Some(4096),
        nodelete: true,
    };
    assert_eq!(blk.as_bhyve_arg(), "virtio-blk,/tmp/img,direct,nocache,nodelete,sectorsize=512/4096");
    match blk.preconditions() {
        Condition::Existence(e) => assert_eq!(e.resource, FsEntity::File("/tmp/img".to_string())),
        other => panic!("unexpected {:?}", other),
    }
}

#[test]
fn ahci_and_nvme_format() {
    let hd = AhciHd {
        path: "/dev/zvol/disk".to_string(),
        nmrr: Some(5400),
        ser: Some("DISK0".to_string()),
        rev: None,
        model: None,
    };
    assert_eq!(hd.as_bhyve_arg(), "ahci-hd,/dev/zvol/disk,nmrr=5400,ser=DISK0");
    let ram = Nvme::from_ram_mb(1024);
    assert_eq!(ram.backend, NvmeBackend::Ram(1024));
    assert_eq!(ram.as_bhyve_arg(), "nvme,ram=1024");
    let mut file = Nvme::from_file("/tmp/nvme.img".to_string());
    file.qsz = Some(64);
    assert_eq!(file.as_bhyve_arg(), "nvme,qsz=64,path=/tmp/nvme.img");
    assert!(matches!(ram.preconditions(), Condition::NoCond(_)));
}

#[test]
fn virtio_console_ports() {
    let con = VirtioConsole { ports: vec!["/tmp/a.sock".to_string(), "/tmp/b.sock".to_string()] };
    assert_eq!(con.as_bhyve_arg(), "virtio-console,port1=/tmp/a.sock,port2=/tmp/b.sock");
    let eph = EmulatedPci::VirtioConsole(con).ephemeral_objects();
    assert_eq!(
        eph,
        vec![Resource::Node("/tmp/a.sock".to_string()), Resource::Node("/tmp/b.sock".to_string())]
    );
    assert_eq!(eph[0].to_string(), "node: (/tmp/a.sock)");
}

#[test]
fn lpc_and_cpu_args() {
    assert_eq!(LpcDevice::Com(1, "stdio".to_string()).to_bhyve_arg(), "com1,stdio");
    assert_eq!(LpcDevice::TestDev.to_bhyve_arg(), "pc-testdev");
    assert_eq!(
        LpcDevice::Bootrom("/fw.fd".to_string(), Some("/vars.fd".to_string())).to_bhyve_arg(),
        "bootrom,/fw.fd,/vars.fd"
    );
    assert_eq!(LpcDevice::Com(2, "x".to_string()).identifier(), "com2");
    assert_eq!(CpuSpec::from_flat(4).as_bhyve_arg(), "4");
    let topo = CpuSpec { threads: 2, cores: 4, sockets: 2 };
    assert_eq!(topo.as_bhyve_arg(), "sockets=2,threads=2,cores=4");
    assert_eq!(PciSlot { bus: 3, slot: 31, func: 7 }.as_bhyve_arg(), "3:31:7");
}
