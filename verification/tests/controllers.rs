use lemoncake::disks::ahci::{
    check_type, command_state, dma_command, find_cmdslot, port_idle, port_layout, probe_port,
    single_region_command, usable_ports, CommandState, AHCI_BASE,
};
use lemoncake::drivers::ide::{
    ide_probe_step, probe_new, probed_drive, IdeProbeAction, IdeProbeEvent, IdeProbeStage,
};
use lemoncake::drivers::ide_session::{
    eject_refusal, sector_job, write_ports, IdeAction, IdeDrive, IdeSession, PollRule, SectorJob,
    ATA_REG_COMMAND, ATA_REG_HDDEVSEL, ATA_REG_LBA0, ATA_REG_LBA3, ATA_REG_SECCOUNT0,
};
use lemoncake::drivers::nvme::{
    admin_command, block_command, completion_result, data_pointers, doorbell_offsets,
    next_command_id, queue_bytes, queue_counts, stamp_admin, stamp_io, tail_after_submit,
    AdminCommand,
    blocks_agree, buffer_pages, cap_params, lba_size, namespace_slot, pick_test_namespace,
    probe_step, queue_step, ready_step, shutdown_cc, shutdown_steps, test_block, NVMeError,
    ProbeAction, ProbeStage, QueueAction, ReadyStep, ShutdownAction, StepOutcome,
};

#[test]
fn ahci_port_kinds_and_lists() {
    assert_eq!(check_type(0x113, 0x0000_0101), 1);
    assert_eq!(check_type(0x113, 0xEB14_0101), 4);
    assert_eq!(check_type(0x113, 0x9669_0101), 3);
    assert_eq!(check_type(0x003, 0xEB14_0101), 0); // present, not active
    assert_eq!(check_type(0x101, 0xEB14_0101), 0); // active, not present
    let mut types = [0u32; 32];
    types[0] = 1;
    types[1] = 4;
    types[3] = 1;
    // Ports 0, 1, 3 implemented; port 2 is not, so the probe stops there.
    let probe = probe_port(0b1011, &types);
    assert_eq!(probe, vec![Some((1, 0)), Some((4, 1))]);
    let usable = usable_ports(0b1011, &types);
    assert_eq!(usable, vec![(0, 1), (1, 4), (3, 1)]);
    assert_eq!(usable_ports(0b0100, &types), vec![]);
}

#[test]
fn ahci_layout_and_slots() {
    let l = port_layout(2);
    assert_eq!(l.clb, AHCI_BASE + 2048);
    assert_eq!(l.fb, AHCI_BASE + 32 * 1024 + 512);
    assert_eq!(l.ctba.len(), 32);
    assert_eq!(l.ctba[1], AHCI_BASE + 40 * 1024 + 2 * 8192 + 256);
    // The search runs only as many steps as the mask's value.
    assert_eq!(find_cmdslot(0, 0), -1);
    assert_eq!(find_cmdslot(0b0011, 0b0100), 3);
    assert_eq!(find_cmdslot(1, 0), -1);
    assert_eq!(find_cmdslot(0b1, 0b10), 2);
}

#[test]
fn ahci_dma_command_regions() {
    let c = dma_command(false, 0x1234_5678, 0x9ABC, 1, 0x8000);
    assert_eq!(c.cfl, 20);
    assert_eq!(c.prdtl, 1);
    assert_eq!(c.prdt[0].dba, 0x8000);
    assert_eq!(c.prdt[0].dbc, 511);
    assert!(c.prdt[0].interrupt);
    assert_eq!(c.fis.cmd, 0x25);
    assert_eq!(c.fis.fis_type, 0x27);
    assert_eq!(c.fis.lba, [0x78, 0x56, 0x34, 0x12, 0xBC, 0x9A]);
    assert_eq!(c.fis.device, 0x40);
    assert_eq!((c.fis.countl, c.fis.counth), (0, 0));
    let w = dma_command(true, 0, 0, 40, 0xFFFF_F000);
    assert_eq!(w.prdtl, 3);
    assert_eq!(w.prdt[0].dba, 0xFFFF_F000);
    assert_eq!(w.prdt[1].dba, 0); // the address wraps
    assert_eq!(w.prdt[1].dbc, 8191);
    assert!(!w.prdt[1].interrupt);
    assert_eq!(w.prdt[2].dbc, 8 * 512 - 1);
    assert_eq!((w.fis.countl, w.fis.counth), (8, 0));
    assert_eq!(w.fis.cmd, 0x35);
}

#[test]
fn ahci_command_progress() {
    assert!(port_idle(0x50));
    assert!(!port_idle(0x88));
    assert_eq!(command_state(0b100, 0, 2), CommandState::Running);
    assert_eq!(command_state(0, 0, 2), CommandState::Done);
    assert_eq!(command_state(0b100, 1, 2), CommandState::Failed);
    assert_eq!(command_state(0, 1, 2), CommandState::Failed);
}

fn run(session: &mut IdeSession, replies: &[u8]) -> Vec<IdeAction> {
    let mut out = Vec::new();
    let mut reply = 0u8;
    let mut i = 0;
    loop {
        let a = session.next(reply);
        out.push(a);
        if let IdeAction::Finish { .. } = a {
            return out;
        }
        reply = if i < replies.len() { replies[i] } else { 0 };
        i += 1;
    }
}

#[test]
fn ide_ata_write_steps() {
    let (mut s, plan) = IdeSession::ata_access(1, 0x200, 1, 0x0123_4567, 1);
    assert_eq!(plan.lba_mode, 1);
    let steps = run(&mut s, &[0, 0, 0, 0, 0, 0, 0, 0, 0, 0, 0, 1]);
    assert_eq!(
        steps,
        vec![
            IdeAction::SetNien { nien: 2 },
            IdeAction::WaitNotBusy,
            IdeAction::Write { reg: ATA_REG_HDDEVSEL, val: 0xE0 | 0x10 | 0x01 },
            IdeAction::Write { reg: ATA_REG_SECCOUNT0, val: 1 },
            IdeAction::Write { reg: ATA_REG_LBA0, val: 0x67 },
            IdeAction::Write { reg: 0x04, val: 0x45 },
            IdeAction::Write { reg: 0x05, val: 0x23 },
            IdeAction::Write { reg: ATA_REG_COMMAND, val: 0x30 },
            IdeAction::Poll { advanced: false, rule: PollRule::Continue },
            IdeAction::WriteData { index: 0, words: 256 },
            IdeAction::Write { reg: ATA_REG_COMMAND, val: 0xE7 },
            IdeAction::WaitFlush,
            IdeAction::Poll { advanced: false, rule: PollRule::Continue },
            IdeAction::Finish { code: 0 },
        ]
    );
}

#[test]
fn ide_ata_read_and_flush_timeout() {
    // A read whose first poll succeeds ends at once with 0.
    let (mut r, _) = IdeSession::ata_access(0, 0x200, 0, 5, 2);
    let steps = run(&mut r, &[0; 8]);
    assert_eq!(steps.len(), 10);
    assert_eq!(steps[8], IdeAction::Poll { advanced: true, rule: PollRule::EndIfZero });
    assert_eq!(steps[9], IdeAction::Finish { code: 0 });
    // A poll reporting an error lets the sector be read.
    let (mut r2, _) = IdeSession::ata_access(0, 0x200, 0, 5, 1);
    let steps2 = run(&mut r2, &[0, 0, 0, 0, 0, 0, 0, 0, 2, 0]);
    assert_eq!(steps2[9], IdeAction::ReadData { index: 0, words: 256 });
    assert_eq!(*steps2.last().unwrap(), IdeAction::Finish { code: 0 });
    // A write whose cache flush times out ends with 255.
    let (mut w, plan) = IdeSession::ata_access(1, 0, 0, 0x1000_0000, 0);
    assert_eq!(plan.lba_mode, 2);
    let steps3 = run(&mut w, &[0, 0, 0, 0, 0, 0, 0, 0, 0, 0, 0, 0, 0]);
    assert_eq!(steps3[3], IdeAction::Write { reg: 0x08, val: 0 });
    assert_eq!(steps3[4], IdeAction::Write { reg: ATA_REG_LBA3, val: 0x10 });
    assert_eq!(steps3[12], IdeAction::Write { reg: ATA_REG_COMMAND, val: 0xEA });
    assert_eq!(*steps3.last().unwrap(), IdeAction::Finish { code: 255 });
}

#[test]
fn ide_atapi_steps() {
    let mut s = IdeSession::atapi_read(1, 0x0102_0304, 1);
    assert_eq!(s.packet(), [0xA8, 0, 0, 0x02, 0x03, 0x04, 0, 0, 0, 1, 0, 0]);
    let steps = run(&mut s, &[0; 16]);
    assert_eq!(steps[1], IdeAction::Write { reg: ATA_REG_HDDEVSEL, val: 0x10 });
    assert_eq!(steps[5], IdeAction::Write { reg: 0x05, val: 8 });
    assert!(steps.contains(&IdeAction::ReadData { index: 0, words: 1024 }));
    assert_eq!(*steps.last().unwrap(), IdeAction::Finish { code: 0 });
    // The first poll's error ends the read with it.
    let mut f = IdeSession::atapi_read(0, 0, 1);
    let failed = run(&mut f, &[0, 0, 0, 0, 0, 0, 0, 2]);
    assert_eq!(*failed.last().unwrap(), IdeAction::Finish { code: 2 });
    // An eject whose last poll finds nothing to read counts as success.
    let mut e = IdeSession::atapi_eject(0);
    assert_eq!(e.packet()[0], 0x1B);
    let ej = run(&mut e, &[0, 0, 0, 0, 0, 0, 0, 3]);
    assert_eq!(*ej.last().unwrap(), IdeAction::Finish { code: 0 });
    let mut e2 = IdeSession::atapi_eject(0);
    let ej2 = run(&mut e2, &[0, 0, 0, 0, 0, 0, 0, 1]);
    assert_eq!(*ej2.last().unwrap(), IdeAction::Finish { code: 1 });
}

#[test]
fn ide_port_writes_and_jobs() {
    assert_eq!(write_ports(0x1F0, 2, ATA_REG_SECCOUNT0, 9), vec![(0x1F2, 9)]);
    assert_eq!(
        write_ports(0x1F0, 2, ATA_REG_LBA3, 7),
        vec![(0x1F2, 0x82), (0x1F3, 7), (0x1F2, 2)]
    );
    assert_eq!(write_ports(0x1F0, 0, 0x20, 1), vec![]);
    let ata = IdeDrive { present: true, typ: 0, channel: 0, drive: 0, capabilities: 0x200, size: 100 };
    let atapi = IdeDrive { typ: 1, ..ata };
    let empty = IdeDrive { present: false, ..ata };
    assert_eq!(sector_job(4, &ata, 0, 1), SectorJob::Refused(1));
    assert_eq!(sector_job(0, &empty, 0, 1), SectorJob::Refused(1));
    assert_eq!(sector_job(0, &ata, 99, 2), SectorJob::Refused(2));
    assert_eq!(sector_job(0, &ata, 98, 2), SectorJob::AtaRead);
    assert_eq!(sector_job(1, &atapi, 500, 2), SectorJob::AtapiReads);
    assert_eq!(eject_refusal(0, &ata), Some(20));
    assert_eq!(eject_refusal(0, &atapi), None);
    assert_eq!(eject_refusal(5, &atapi), Some(1));
}

#[test]
fn nvme_capabilities_and_waits() {
    // No NVM command set: refused.
    assert_eq!(cap_params(0x0000_0000_0000_03FF).unwrap_err(), NVMeError::InitFailed);
    // A controller with the NVM command set (bit 37), a doorbell stride of 2
    // (bits 32..35), MPSMIN 0 and MPSMAX 4 (bits 52..55): 64 entries.
    let p = cap_params(0x0040_0022_0000_003F).unwrap();
    assert_eq!(p.max_queue_entries, 64);
    assert_eq!(p.stride, 16);
    assert_eq!(p.mpsmin, 0);
    assert_eq!(p.page_size, 4096);
    assert_eq!(ready_step(1, true), ReadyStep::Reached);
    assert_eq!(ready_step(0, false), ReadyStep::Reached);
    assert_eq!(ready_step(2, true), ReadyStep::Fatal);
    assert_eq!(ready_step(0, true), ReadyStep::Pending);
    assert_eq!(shutdown_cc(0x46_0001), 0x46_4000);
}

#[test]
fn nvme_namespaces_and_test_block() {
    let mut lbads = [0u8; 16];
    lbads[1] = 12;
    assert_eq!(lba_size(1, 2, &lbads), 4096);
    assert_eq!(lba_size(2, 2, &lbads), 512);
    let mut valid = [false; 256];
    assert_eq!(pick_test_namespace(&valid), 0);
    valid[0] = true;
    valid[4] = true;
    valid[255] = true; // namespace 256 is beyond the test's search
    assert_eq!(pick_test_namespace(&valid), 5);
    assert_eq!(namespace_slot(5, &valid), Ok(4));
    assert_eq!(namespace_slot(0, &valid), Err(NVMeError::NamespaceNotFound));
    assert_eq!(namespace_slot(257, &valid), Err(NVMeError::NamespaceNotFound));
    assert_eq!(namespace_slot(2, &valid), Err(NVMeError::NamespaceNotFound));
    assert_eq!(test_block(0x1000), 0x800);
    assert_eq!(test_block(0x1001), 0x1000);
    let a = vec![0u8; 512];
    let mut b = vec![0u8; 512];
    assert!(blocks_agree(&a, &b));
    b[100] = 1;
    assert!(blocks_agree(&a, &b));
    b[25] = 1;
    assert!(!blocks_agree(&a, &b));
    assert_eq!(buffer_pages(4097), 2);
}

#[test]
fn nvme_probe_steps() {
    let mut stage = ProbeStage::Start;
    let mut seen = Vec::new();
    for _ in 0..10 {
        let (s, a) = probe_step(stage, StepOutcome::Done);
        seen.push(format!("{:?}", a));
        stage = s;
    }
    assert_eq!(seen[0], "AllocController");
    assert_eq!(seen[8], "InitNamespaces");
    assert_eq!(seen[9], "Finish(Ok(()))");
    // Identification fails: the admin queue and the record are freed.
    let (s1, a1) = probe_step(ProbeStage::Issued(ProbeAction::Identify), StepOutcome::Failed(NVMeError::Timeout));
    assert!(matches!(a1, ProbeAction::FreeAdminQueue));
    let (s2, a2) = probe_step(s1, StepOutcome::Failed(NVMeError::DeviceError));
    assert!(matches!(a2, ProbeAction::FreeController));
    let (_, a3) = probe_step(s2, StepOutcome::Done);
    assert!(matches!(a3, ProbeAction::Finish(Err(NVMeError::Timeout))));
    let (_, m) = probe_step(ProbeStage::Issued(ProbeAction::MapBar0), StepOutcome::AlreadyMapped);
    assert!(matches!(m, ProbeAction::EnableBusMaster));
    let (_, oom) = probe_step(ProbeStage::Issued(ProbeAction::AllocController), StepOutcome::Failed(NVMeError::Timeout));
    assert!(matches!(oom, ProbeAction::Finish(Err(NVMeError::OutOfMemory))));
    // A failure while setting up the I/O queues is undone in reverse order.
    let (t1, b1) = probe_step(ProbeStage::Issued(ProbeAction::InitIoQueues), StepOutcome::Failed(NVMeError::CommandFailed));
    assert!(matches!(b1, ProbeAction::FreeCtrlData));
    let (t2, b2) = probe_step(t1, StepOutcome::Done);
    assert!(matches!(b2, ProbeAction::FreeAdminQueue));
    let (t3, b3) = probe_step(t2, StepOutcome::Failed(NVMeError::Timeout));
    assert!(matches!(b3, ProbeAction::FreeController));
    let (t4, b4) = probe_step(t3, StepOutcome::Done);
    assert!(matches!(b4, ProbeAction::Finish(Err(NVMeError::CommandFailed))));
    // A finished bring-up stays finished.
    let (_, b5) = probe_step(t4, StepOutcome::Done);
    assert!(matches!(b5, ProbeAction::Finish(Err(NVMeError::CommandFailed))));
    let (_, rb) = probe_step(ProbeStage::Issued(ProbeAction::ReadBar0), StepOutcome::Failed(NVMeError::Timeout));
    assert!(matches!(rb, ProbeAction::Finish(Err(NVMeError::InitFailed))));
}

#[test]
fn nvme_queue_and_shutdown_steps() {
    let (a, _) = queue_step(QueueAction::CreateSq, StepOutcome::Done, false);
    assert!(matches!(a, QueueAction::Finish(Ok(1))));
    let (b, f) = queue_step(QueueAction::CreateSq, StepOutcome::Failed(NVMeError::CommandFailed), false);
    assert!(matches!(b, QueueAction::DeleteCq) && f);
    let (c, _) = queue_step(QueueAction::DeleteCq, StepOutcome::Done, f);
    assert!(matches!(c, QueueAction::FreeQueue));
    let (d, _) = queue_step(QueueAction::FreeQueue, StepOutcome::Done, false);
    assert!(matches!(d, QueueAction::Finish(Ok(0))));
    let (e, _) = queue_step(QueueAction::AllocQueue, StepOutcome::Failed(NVMeError::NoMemory), false);
    assert!(matches!(e, QueueAction::Finish(Ok(0))));
    let (g, _) = queue_step(QueueAction::GetFeatures, StepOutcome::Failed(NVMeError::Timeout), false);
    assert!(matches!(g, QueueAction::Finish(Err(NVMeError::Timeout))));
    assert_eq!(shutdown_steps(false, 3), vec![]);
    assert_eq!(
        shutdown_steps(true, 2),
        vec![
            ShutdownAction::RequestShutdown,
            ShutdownAction::WaitNotReady,
            ShutdownAction::FreeAdminQueue,
            ShutdownAction::FreeIoQueue(0),
            ShutdownAction::FreeIoQueue(1),
            ShutdownAction::FreeCtrlData,
            ShutdownAction::FreeController,
        ]
    );
}

#[test]
fn single_region_commands() {
    let r = single_region_command(false, 0x0000_0102_0304_0506, 3, 0x8000);
    assert_eq!(r.flags, 0x80);
    assert_eq!(r.prdtl, 1);
    assert_eq!(r.dba, 0x8000);
    assert_eq!(r.dbc, 3 * 512 + 1);
    assert_eq!(r.fis.fis_type, 0x27);
    assert!(r.fis.c);
    assert_eq!(r.fis.cmd, 0x25);
    assert_eq!(r.fis.lba, [0x06, 0x05, 0x04, 0x03, 0x02, 0x01]);
    assert_eq!(r.fis.device, 0x40);
    assert_eq!(r.fis.countl, 3);
    assert_eq!(r.fis.counth, 0);
    let w = single_region_command(true, 7, 0x1_02, 0x1000);
    assert_eq!(w.flags, 0xC0);
    assert_eq!(w.fis.cmd, 0x35);
    assert_eq!(w.fis.countl, 0x02);
    assert_eq!(w.fis.counth, 0x01);
    assert_eq!(w.dbc, 0x102 * 512 + 1);
    assert_eq!(w.fis.lba, [7, 0, 0, 0, 0, 0]);
}

#[test]
fn admin_commands() {
    let c = admin_command(AdminCommand::IdentifyController);
    assert_eq!((c.opcode, c.nsid, c.cdw10, c.cdw11, c.prp1), (0x06, 0, 1, 0, 0));
    let c = admin_command(AdminCommand::IdentifyNamespace(3));
    assert_eq!((c.opcode, c.nsid, c.cdw10), (0x06, 3, 0));
    let c = admin_command(AdminCommand::ActiveNamespaces);
    assert_eq!((c.opcode, c.cdw10), (0x06, 2));
    let c = admin_command(AdminCommand::QueueCount);
    assert_eq!((c.opcode, c.cdw10), (0x0A, 7));
    let c = admin_command(AdminCommand::CreateCq(1, 2, 0x5000));
    assert_eq!((c.opcode, c.prp1, c.cdw10, c.cdw11), (0x05, 0x5000, 0x0001_0001, 1));
    let c = admin_command(AdminCommand::CreateSq(1, 2, 0x6000));
    assert_eq!((c.opcode, c.prp1, c.cdw10, c.cdw11), (0x01, 0x6000, 0x0001_0001, 0x0001_0001));
    let c = admin_command(AdminCommand::DeleteCq);
    assert_eq!((c.opcode, c.cdw10), (0x04, 1));

    let s = stamp_admin(admin_command(AdminCommand::IdentifyController), 2, Some(0x1000), 0xffff_8000_0000_0000);
    assert_eq!((s.command_id, s.prp1, s.prp2, s.cdw10), (2, 0xffff_8000_0000_1000, 0, 1));
    let s = stamp_admin(admin_command(AdminCommand::DeleteCq), 5, None, 0x10);
    assert_eq!((s.command_id, s.prp1), (5, 0));
}

#[test]
fn io_commands_and_pointers() {
    let r = block_command(1, 0x1_0000_0010, 8, false);
    assert_eq!((r.opcode, r.nsid, r.cdw10, r.cdw11, r.cdw12), (0x02, 1, 0x10, 1, 7));
    // The write path issues the read opcode with a 16-bit count.
    let w = block_command(1, 5, 0x1_0001, true);
    assert_eq!((w.opcode, w.cdw10, w.cdw11, w.cdw12), (0x02, 5, 0, 0));
    let io = stamp_io(r, 2, Some(0x9000), 0x1000);
    assert_eq!((io.command_id, io.prp1, io.prp2), (2, 0x8000, 0));
    let keep = stamp_io(data_cmd_with_prp2(), 3, None, 0);
    assert_eq!((keep.command_id, keep.prp1, keep.prp2), (3, 0x11, 0x22));

    assert_eq!(data_pointers(0x9000, 0x1000, 1, 4096), Some((0x8000, 0)));
    assert_eq!(data_pointers(0x9000, 0x1000, 2, 4096), Some((0x8000, 0x9000)));
    assert_eq!(data_pointers(0x9000, 0x1000, 3, 4096), None);
    assert_eq!(data_pointers(0x9000, 0x1000, 0, 4096), None);
}

fn data_cmd_with_prp2() -> lemoncake::disks::nvme::NVMeCommand {
    let mut c = block_command(1, 0, 1, false);
    c.prp1 = 0x11;
    c.prp2 = 0x22;
    c
}

#[test]
fn queue_bookkeeping() {
    assert_eq!(next_command_id(0), (1, 1));
    assert_eq!(next_command_id(1), (2, 1));
    assert_eq!(tail_after_submit(0, 2), 0);
    assert_eq!(tail_after_submit(2, 2), 3);
    assert!(completion_result(0).is_ok());
    assert!(completion_result(1).is_ok());
    assert_eq!(completion_result(0x0002), Err(NVMeError::CommandFailed));
    // Only the low byte counts.
    assert!(completion_result(0x0201).is_ok());
    assert_eq!(doorbell_offsets(0, 1), (0x1000, 0x1004));
    assert_eq!(doorbell_offsets(1, 1), (0x1008, 0x100c));
    assert_eq!(doorbell_offsets(1, 4), (0x1020, 0x1030));
    assert_eq!(queue_bytes(2), 128);
    assert_eq!(queue_counts(0x0003_0007), (8, 4));
}

#[test]
fn ide_probe_walks_the_four_drives() {
    let p = probe_new();
    // channel 0, master: an ATA drive
    let (p, a) = ide_probe_step(&p, IdeProbeEvent::Start);
    assert_eq!(a, IdeProbeAction::Identify { channel: 0, drive: 0 });
    let (p, a) = ide_probe_step(&p, IdeProbeEvent::Status(0x80));
    assert_eq!(a, IdeProbeAction::ReadStatus);
    let (p, a) = ide_probe_step(&p, IdeProbeEvent::Status(0x80));
    assert_eq!(a, IdeProbeAction::ReadStatus);
    let (p, a) = ide_probe_step(&p, IdeProbeEvent::Status(0x58));
    assert_eq!(a, IdeProbeAction::ReadData);
    assert!(!p.atapi);
    // channel 0, slave: no drive (status 0)
    let (p, a) = ide_probe_step(&p, IdeProbeEvent::DataRead);
    assert_eq!(a, IdeProbeAction::Identify { channel: 0, drive: 1 });
    let (p, a) = ide_probe_step(&p, IdeProbeEvent::Status(0));
    assert_eq!(a, IdeProbeAction::Identify { channel: 1, drive: 0 });
    // channel 1, master: IDENTIFY fails with an ATAPI signature
    let (p, a) = ide_probe_step(&p, IdeProbeEvent::Status(0x41));
    assert_eq!(a, IdeProbeAction::ReadStatus);
    let (p, a) = ide_probe_step(&p, IdeProbeEvent::Status(0x41));
    assert_eq!(a, IdeProbeAction::ReadSignature);
    let (p, a) = ide_probe_step(&p, IdeProbeEvent::Signature(0x14, 0xEB));
    assert_eq!(a, IdeProbeAction::IdentifyPacket);
    assert!(p.atapi);
    // channel 1, slave: fails with another signature, skipped
    let (p, a) = ide_probe_step(&p, IdeProbeEvent::DataRead);
    assert_eq!(a, IdeProbeAction::Identify { channel: 1, drive: 1 });
    assert!(!p.atapi);
    let (p, _) = ide_probe_step(&p, IdeProbeEvent::Status(1));
    let (p, a) = ide_probe_step(&p, IdeProbeEvent::Status(1));
    assert_eq!(a, IdeProbeAction::ReadSignature);
    let (p, a) = ide_probe_step(&p, IdeProbeEvent::Signature(0, 0));
    assert_eq!(a, IdeProbeAction::Finished);
    assert_eq!(p.stage, IdeProbeStage::Done);
    // the other ATAPI signature
    let q = probe_new();
    let (q, _) = ide_probe_step(&q, IdeProbeEvent::Start);
    let (q, _) = ide_probe_step(&q, IdeProbeEvent::Status(1));
    let (q, _) = ide_probe_step(&q, IdeProbeEvent::Status(1));
    let (q, a) = ide_probe_step(&q, IdeProbeEvent::Signature(0x69, 0x96));
    assert_eq!(a, IdeProbeAction::IdentifyPacket);
    // an event that does not fit asks again
    let (_, a) = ide_probe_step(&q, IdeProbeEvent::Status(0));
    assert_eq!(a, IdeProbeAction::ReadData);
}

#[test]
fn ide_probed_drive_entry() {
    let mut data = [0u8; 512];
    data[98] = 0x00;
    data[99] = 0x02; // capabilities 0x0200
    data[120..124].copy_from_slice(&1000u32.to_le_bytes());
    data[54] = b'B';
    data[55] = b'A';
    let (drive, id) = probed_drive(1, 0, true, &data);
    assert!(drive.present);
    assert_eq!(drive.typ, 1);
    assert_eq!((drive.channel, drive.drive), (1, 0));
    assert_eq!(drive.capabilities, 0x0200);
    assert_eq!(drive.size, 1000);
    assert_eq!(&id.model[..2], b"AB");
    let (ata, _) = probed_drive(0, 1, false, &data);
    assert_eq!(ata.typ, 0);
}
