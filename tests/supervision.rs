use bhyve_supervisor::decoding::{Emulation, Emulations};
use bhyve_supervisor::emulation::VirtioBlk;
use bhyve_supervisor::error::FormatError;
use bhyve_supervisor::host::FsKind;
use bhyve_supervisor::spec::{
    default_hostbridge, empty_hashmap, no, serde_default_emulation_fix, yes, MemorySpec, VmSpec,
    VmSpecMod,
};
use bhyve_supervisor::supervisor::{
    after_session, answer_is_yes, apply_target, exit_code_of, pid_file_action, question_text,
    AfterSession, ArgVec, PidFileOpen, RebootPolicy,
};
use bhyve_supervisor::vm::CpuSpec;

fn blk(path: &str) -> Emulation {
    Emulation {
        slot: None,
        fix: serde_default_emulation_fix(),
        emulation: Emulations::VirtioBlk(VirtioBlk {
            path: path.to_string(),
            nocache: false,
            direct: false,
            ro: false,
            logical_sector_size: None,
            physical_sector_size: None,
            nodelete: false,
        }),
    }
}

fn machine() -> VmSpec {
    VmSpec {
        cpu: CpuSpec::from_flat(2),
        mem: MemorySpec { kb: 1024 },
        bootopt: None,
        emulations: vec![blk("/a")],
        name: "vm".to_string(),
        hostbridge: default_hostbridge(),
        lpc_slot: None,
        com1: Some("stdio".to_string()),
        com2: None,
        com3: None,
        com4: None,
        gdb: None,
        uuid: None,
        graphic: None,
        utc_clock: yes(),
        yield_on_hlt: yes(),
        generate_acpi: yes(),
        wire_guest_mem: no(),
        force_msi: no(),
        disable_mptable_gen: no(),
        power_off_destroy_vm: no(),
        extra_options: None,
        targets: empty_hashmap(),
        next_target: None,
        post_start_script: None,
    }
}

fn patch() -> VmSpecMod {
    VmSpecMod {
        cpu: None,
        mem: None,
        bootopt: None,
        emulations: vec![],
        gdb: None,
        com1: None,
        com2: None,
        com3: None,
        com4: None,
        utc_clock: None,
        yield_on_hlt: None,
        generate_acpi: None,
        wire_guest_mem: None,
        force_msi: None,
        disable_mptable_gen: None,
        extra_options: None,
        next_target: None,
        post_start_script: None,
        graphic: None,
    }
}

#[test]
fn reboot_loop_bounded() {
    let policy = RebootPolicy {
        max_reboots: Some(2),
        reboot_on: ArgVec { vec: vec![0, 1] },
        no_reboot: false,
        dry_run: false,
    };
    let mut count = 0usize;
    let mut sessions = 0;
    let mut end = AfterSession::Fail;
    for code in [0, 0, 1, 3] {
        sessions += 1;
        match after_session(&policy, count, Some(code)) {
            AfterSession::Reboot => count += 1,
            other => {
                end = other;
                break;
            }
        }
    }
    assert_eq!(sessions, 3);
    assert_eq!(end, AfterSession::Exit(1));
    assert_eq!(exit_code_of(&end), 1);
}

#[test]
fn failed_session_and_flags_stop() {
    let policy = RebootPolicy { max_reboots: None, reboot_on: ArgVec { vec: vec![0] }, no_reboot: true, dry_run: false };
    assert_eq!(after_session(&policy, 0, Some(0)), AfterSession::Exit(0));
    assert_eq!(after_session(&policy, 0, None), AfterSession::Fail);
    assert_eq!(exit_code_of(&AfterSession::Fail), 4);
    let open = RebootPolicy { max_reboots: None, reboot_on: ArgVec { vec: vec![0] }, no_reboot: false, dry_run: false };
    assert_eq!(after_session(&open, 1000, Some(0)), AfterSession::Reboot);
    assert_eq!(after_session(&open, 0, Some(2)), AfterSession::Exit(2));
}

#[test]
fn empty_overlay_changes_nothing() {
    let mut spec = machine();
    spec.consume(&patch());
    assert_eq!(spec.cpu, CpuSpec::from_flat(2));
    assert_eq!(spec.emulations.len(), 1);
    assert_eq!(spec.com1, Some("stdio".to_string()));
    assert!(spec.utc_clock);
}

#[test]
fn overlay_replaces_and_appends() {
    let mut spec = machine();
    let mut p = patch();
    p.cpu = Some(CpuSpec::from_flat(8));
    p.utc_clock = Some(false);
    p.gdb = Some(":1234".to_string());
    p.emulations = vec![blk("/b"), blk("/c")];
    let copy = spec.consumed(&p);
    spec.consume(&p);
    for s in [&spec, &copy] {
        assert_eq!(s.cpu, CpuSpec::from_flat(8));
        assert!(!s.utc_clock);
        assert_eq!(s.gdb, Some(":1234".to_string()));
        assert_eq!(s.com1, Some("stdio".to_string()));
        assert_eq!(s.emulations.len(), 3);
        match &s.emulations[2].emulation {
            Emulations::VirtioBlk(b) => assert_eq!(b.path, "/c"),
            other => panic!("unexpected {:?}", other),
        }
    }
}

#[test]
fn targets_chain_and_default() {
    let mut root = machine();
    let mut first = patch();
    first.next_target = Some("second".to_string());
    first.emulations = vec![blk("/b")];
    let mut second = patch();
    second.mem = Some(MemorySpec { kb: 4096 });
    root.targets.push(("first".to_string(), first));
    root.targets.push(("second".to_string(), second));
    assert!(root.has_target(&"first".to_string()));
    assert!(!root.has_target(&"default".to_string()));
    let mut current = root.duplicate();
    let next = apply_target(&mut current, &root, &Some("first".to_string())).unwrap();
    assert_eq!(next, Some("second".to_string()));
    assert_eq!(current.emulations.len(), 2);
    let next = apply_target(&mut current, &root, &next).unwrap();
    assert_eq!(current.mem.kb, 4096);
    assert_eq!(next, Some("second".to_string()));
    let next = apply_target(&mut current, &root, &Some("default".to_string())).unwrap();
    assert_eq!(next, None);
    assert_eq!(current.emulations.len(), 1);
    assert_eq!(current.mem.kb, 1024);
    assert!(matches!(apply_target(&mut current, &root, &Some("nope".to_string())), Err(FormatError::ProfileNotFound)));
    assert!(matches!(root.with_target(&"nope".to_string()), Err(FormatError::ProfileNotFound)));
    assert_eq!(root.with_target(&"second".to_string()).unwrap().mem.kb, 4096);
}

#[test]
fn operator_answers_and_pid_files() {
    assert!(answer_is_yes("y\n"));
    assert!(answer_is_yes("Yes"));
    assert!(!answer_is_yes("n"));
    assert!(!answer_is_yes(""));
    assert_eq!(question_text(&"a: b".to_string()), "a: b? [y/N] (default: No)");
    assert_eq!(pid_file_action("/run/x.pid", FsKind::Absent, false, true), Ok(PidFileOpen::Create));
    assert_eq!(pid_file_action("/run/x.pid", FsKind::File, false, true), Ok(PidFileOpen::Existing));
    assert_eq!(pid_file_action("/run/x.pid", FsKind::File, true, true), Err("\"/run/x.pid\" is not writable".to_string()));
    assert_eq!(pid_file_action("/run", FsKind::Directory, false, true), Err("\"/run\" is not a regular file".to_string()));
    assert_eq!(pid_file_action("", FsKind::Absent, false, false), Err("Parent to \"\" is not available".to_string()));
}

#[test]
fn target_names_unique() {
    let mut spec = machine();
    assert!(spec.targets_are_unique());
    spec.targets.push(("a".to_string(), patch()));
    spec.targets.push(("b".to_string(), patch()));
    assert!(spec.targets_are_unique());
    spec.targets.push(("a".to_string(), patch()));
    assert!(!spec.targets_are_unique());
}
