use sexos::ion::{
    classify_command, help_message, input_event, handle_command, spawn_request, trim_bytes, Event,
    IonCommand, IonPlan, Key, PdxFile, RawMode, StdStream, Transfer,
};
use sexos::libsys::{open, park_on_ring, posix_fadvise, register_result, reply_as_int, PdxCall, SysError};
use sexos::nvme::{DriverRegistry, Submission};
use sexos::runtime::{
    align_up, heap_init, memcmp, memcpy, memmove, memset, BumpOutcome, ExpandStep, HeapState,
    SimpleAllocator,
};
use sexos::services::{
    handle_driver_load, handle_translation, handle_vfs_request, vfs_reply, DmaCall,
};
use sexos::silkbar::{update_call_args, BarLink, SendEvent, SilkBarUpdate};

#[test]
fn pdx_files() {
    let req = PdxFile::open_request(b"/etc/motd");
    assert_eq!(req.len(), 512);
    assert_eq!(&req[..9], b"/etc/motd");
    assert!(req[9..].iter().all(|b| *b == 0));
    let long = vec![b'x'; 600];
    let req = PdxFile::open_request(&long);
    assert!(req[..511].iter().all(|b| *b == b'x'));
    assert_eq!(req[511], 0);
    assert_eq!(PdxFile::open_reply(5), Ok(PdxFile { fd: 5, server_pd: 1 }));
    assert_eq!(PdxFile::open_reply(u64::MAX), Err(-1));
    assert_eq!(PdxFile::transfer_for(4096), Transfer::Direct);
    assert_eq!(PdxFile::transfer_for(4097), Transfer::ZeroCopy);
    assert_eq!(PdxFile::direct_arg(0x1000, 16), 0x10_0000_1000);
    assert_eq!(PdxFile::handover_pfn(0x5123), 5);
    assert_eq!(PdxFile::io_reply(12), Ok(12));
    assert_eq!(PdxFile::io_reply((-5i64) as u64), Err(-5));
    assert_eq!(StdStream::stdin().file.fd, 0);
    assert_eq!(StdStream::stdout().file.fd, 1);
    assert_eq!(StdStream::stderr().file.fd, 2);
    RawMode::enable();
    RawMode::disable();
}

#[test]
fn input_events() {
    assert_eq!(input_event(1, 0x141), Some(Event::Key(Key::Char('A'))));
    assert_eq!(input_event(2, 0), Some(Event::Key(Key::Backspace)));
    assert_eq!(input_event(3, 0), Some(Event::Key(Key::Up)));
    assert_eq!(input_event(3, 3), Some(Event::Key(Key::Right)));
    assert_eq!(input_event(3, 4), None);
    assert_eq!(input_event(9, 0), None);
}

#[test]
fn command_lines() {
    assert_eq!(trim_bytes(b"  hi there \n"), b"hi there".to_vec());
    assert!(matches!(handle_command(b"   \n"), IonPlan::Nothing));
    assert!(matches!(handle_command(b"help\n"), IonPlan::Run(IonCommand::Help)));
    assert!(matches!(handle_command(b"exit"), IonPlan::Run(IonCommand::Exit)));
    match handle_command(b"echo hi  \n") {
        IonPlan::Run(IonCommand::Echo(m)) => assert_eq!(m, b"hi".to_vec()),
        _ => panic!("expected echo"),
    }
    match handle_command(b" echo a > out.txt ") {
        IonPlan::Redirect { command: IonCommand::Echo(m), path } => {
            assert_eq!(m, b"a".to_vec());
            assert_eq!(path, b"out.txt".to_vec());
        }
        _ => panic!("expected a redirect"),
    }
    match handle_command(b"/bin/ls") {
        IonPlan::Run(IonCommand::External(p)) => assert_eq!(p, b"/bin/ls".to_vec()),
        _ => panic!("expected a program"),
    }
    assert!(matches!(handle_command(&[0xFF, b'l', b's']), IonPlan::Nothing));
    assert!(matches!(classify_command(b"echo"), IonCommand::External(_)));
    let sp = spawn_request(b"/bin/ls");
    assert_eq!(&sp[..7], b"/bin/ls");
    assert_eq!(sp.len(), 512);
    assert_eq!(help_message(), b"Builtins: help, exit, ls, cat\n".to_vec());
}

#[test]
fn heap_bumps() {
    assert_eq!(align_up(13, 8), 16);
    assert_eq!(align_up(16, 8), 16);
    let mut h = HeapState::new();
    assert_eq!(h.try_bump(0, 8), BumpOutcome::Null);
    assert_eq!(h.try_bump(100, 8), BumpOutcome::NeedsExpansion(108));
    let step = heap_init(&h);
    assert_eq!(step, ExpandStep::Allocate { size: 65536 });
    let step = h.expand_advance(step, 0x99);
    assert_eq!(step, ExpandStep::MapPages { pfn: 0x99, size: 65536 });
    let step = h.expand_advance(step, 0x1234);
    assert_eq!(step, ExpandStep::Done { start: Some(0x4000_0000_0000) });
    assert_eq!((h.top, h.limit), (0x4000_0000_0000, 0x4000_0001_0000));
    assert_eq!(h.try_bump(3, 1), BumpOutcome::Allocated(0x4000_0000_0000));
    assert_eq!(h.try_bump(8, 16), BumpOutcome::Allocated(0x4000_0000_0010));
    assert_eq!(h.top, 0x4000_0000_0018);
    assert_eq!(h.try_bump(70000, 16), BumpOutcome::NeedsExpansion(70016));
    assert_eq!(h.expand_begin(70016), ExpandStep::Allocate { size: 73728 });
    assert_eq!(h.expand_advance(ExpandStep::Allocate { size: 1 }, u64::MAX), ExpandStep::Done { start: None });
}

#[test]
fn global_allocator() {
    let mut a = SimpleAllocator::new();
    assert_eq!(a.allocate(16, 8), BumpOutcome::NeedsExpansion(24));
    let step = a.heap.expand_begin(24);
    let step = a.heap.expand_advance(step, 7);
    assert_eq!(a.heap.expand_advance(step, 0x5000), ExpandStep::Done { start: Some(0x4000_0000_0000) });
    assert_eq!(a.allocate(16, 8), BumpOutcome::Allocated(0x4000_0000_0000));
    assert_eq!(a.allocate(0, 8), BumpOutcome::Null);
    a.dealloc(0x4000_0000_0000, 16);
    assert_eq!(a.allocate(4, 4), BumpOutcome::Allocated(0x4000_0000_0010));
    assert_eq!(a.heap.limit, 0x4000_0000_1000);
}

#[test]
fn byte_buffers() {
    let mut d = [0u8; 5];
    memcpy(&mut d, b"abcdef", 3);
    assert_eq!(&d, b"abc\0\0");
    memset(&mut d, 0x141, 2);
    assert_eq!(&d, b"AAc\0\0");
    assert_eq!(memcmp(b"abc", b"abd", 3), -1);
    assert_eq!(memcmp(b"abc", b"abd", 2), 0);
    assert_eq!(memcmp(b"b", b"a", 1), 1);
    let mut buf = *b"0123456789";
    memmove(&mut buf, 2, 0, 5);
    assert_eq!(&buf, b"0101234789");
    let mut buf = *b"0123456789";
    memmove(&mut buf, 0, 2, 5);
    assert_eq!(&buf, b"2345656789");
}

#[test]
fn syscall_values() {
    assert_eq!(SysError::VfsRegFail.code(), 1);
    assert_eq!(SysError::Unknown.code(), 255);
    assert_eq!(register_result(0), Err(SysError::VfsRegFail));
    assert_eq!(register_result(0x8000), Ok(0x8000));
    assert_eq!(open(0x10, 0x8000_0001, 0o644), PdxCall { target_pd: 1, num: 1, arg0: 0x10, arg1: 0x8000_0001 });
    assert_eq!(open(0x10, 2, 0), PdxCall { target_pd: 1, num: 1, arg0: 0x10, arg1: 2 });
    assert_eq!(posix_fadvise(-1, 0, 4096, 2), PdxCall { target_pd: 1, num: 7, arg0: u64::MAX, arg1: 2 });
    assert_eq!(park_on_ring(), 24);
    assert_eq!(reply_as_int(0x1_0000_0005), 5);
    assert_eq!(reply_as_int(u64::MAX), -1);
}

#[test]
fn nvme_submissions() {
    let mut r = DriverRegistry::new(0xFE00_0000);
    assert_eq!(r.dispatch(1, 8, 4096, 0), (-1, None));
    let (st, sub) = r.dispatch(1, 0x1_0000_0002, 4096, 0x2_0000_3000);
    assert_eq!(st, 0);
    assert_eq!(
        sub,
        Some(Submission {
            entry_addr: 0xFE00_2000,
            opcode: 2,
            namespace: 1,
            prp_lo: 0x3000,
            prp_hi: 2,
            lba_lo: 2,
            lba_hi: 1,
            blocks_minus_one: 7,
            doorbell_addr: 0xFE00_1008,
            doorbell_value: 1,
        })
    );
    let (_, sub) = r.dispatch(0, 0, 512, 0x1000);
    let sub = sub.unwrap();
    assert_eq!(sub.opcode, 1);
    assert_eq!(sub.entry_addr, 0xFE00_2040);
    assert_eq!(sub.doorbell_value, 2);
    for _ in 0..30 {
        r.dispatch(0, 0, 512, 0x1000);
    }
    let (_, sub) = r.dispatch(0, 0, 512, 0x1000);
    assert_eq!(sub.unwrap().doorbell_value, 1);
    r.handle_irq(3);
}

#[test]
fn small_servers() {
    assert_eq!(handle_vfs_request(3, 0, 0, 0), None);
    let c = handle_vfs_request(2, 4096, 512, 9).unwrap();
    assert_eq!(c, DmaCall { command: 2, offset: 4096, size: 512, buffer_cap: 9, device_cap: 0 });
    assert_eq!(vfs_reply(Some(c), Some(0)), (0, 512));
    assert_eq!(vfs_reply(Some(c), None), (-1, 0));
    assert_eq!(vfs_reply(None, Some(0)), (-1, 0));
    assert_eq!(handle_translation(1, 5), (0, 0x4000_1000));
    assert_eq!(handle_translation(2, 5), (-1, 0));
    assert_eq!(handle_driver_load(1, 0x1_0000_0007), (0, 7));
    assert_eq!(handle_driver_load(0, 7), (-1, 0));
}

#[test]
fn silkbar_link() {
    let u = SilkBarUpdate { kind: 3, index: 2, a: 0x10, b: 9 };
    assert_eq!(update_call_args(u), (3, 0x2_0000_0010, 9));
    let mut l = BarLink::new();
    assert_eq!(l.after_send(u, Err(0xE1), 0xE1, 3), (0xE1, SendEvent::Deferred { first: true }));
    assert_eq!(l.after_send(u, Err(0xE1), 0xE1, 3), (0xE1, SendEvent::Deferred { first: false }));
    assert_eq!(l.drops, 0);
    assert_eq!(l.after_send(u, Ok(0), 0xE1, 3), (0, SendEvent::Delivered));
    assert!(l.cap_ready);
    assert_eq!(l.after_send(u, Err(0xE1), 0xE1, 3), (0xE1, SendEvent::Dropped { count: 0, clock_count: Some(0) }));
    assert_eq!(l.after_send(u, Err(7), 0xE1, 4), (7, SendEvent::Dropped { count: 1, clock_count: None }));
    assert_eq!((l.drops, l.clock_drops), (2, 1));
}
