use vgatext::boot::{boot, boot_message, enter_panic, perform, run, start, step, Action, CellWrite, Stage};
use vgatext::cell::{cell_attr, cell_char, make_cell, ATTRIBUTE};
use vgatext::framebuffer::{cell_address, Framebuffer, BASE_ADDRESS, CELL_COUNT, COLUMNS, ROWS};

fn cells(fb: &Framebuffer) -> Vec<u16> {
    (0..fb.capacity()).map(|i| fb.read(i).unwrap()).collect()
}

#[test]
fn ok_message_cells() {
    let mut fb = Framebuffer::new();
    fb.log(b"OK");
    assert_eq!(fb.read(0), Some(0x074F));
    assert_eq!(fb.read(1), Some(0x074B));
    assert_eq!(fb.read(2), Some(0));
    assert_eq!(cell_address(0), 0xB8000);
    assert_eq!(cell_address(1), 0xB8002);
}

#[test]
fn make_cell_packs_attribute_high() {
    assert_eq!(ATTRIBUTE, 7);
    assert_eq!(make_cell(0x4F, 7), 0x074F);
    assert_eq!(make_cell(0x00, 0x00), 0x0000);
    assert_eq!(make_cell(0xFF, 0xFF), 0xFFFF);
    assert_eq!(make_cell(0x41, 0x1E), 0x1E41);
}

#[test]
fn cell_bytes_read_back() {
    assert_eq!(cell_char(0x1E41), 0x41);
    assert_eq!(cell_attr(0x1E41), 0x1E);
    assert_eq!(cell_char(make_cell(0x80, 0x07)), 0x80);
    assert_eq!(cell_attr(make_cell(0x80, 0x07)), 0x07);
}

#[test]
fn framebuffer_geometry() {
    let fb = Framebuffer::new();
    assert_eq!(CELL_COUNT, COLUMNS * ROWS);
    assert_eq!(fb.capacity(), 2000);
    assert!(cells(&fb).iter().all(|&c| c == 0));
    assert_eq!(fb.read(1999), Some(0));
    assert_eq!(fb.read(2000), None);
    assert_eq!(BASE_ADDRESS, 0xB8000);
    assert_eq!(cell_address(1999), 0xB8000 + 3998);
}

#[test]
fn log_writes_every_byte_with_attribute() {
    let msg = boot_message();
    assert_eq!(msg, b"Hello World baremetal".to_vec());
    let mut fb = Framebuffer::new();
    fb.store(30, 0x1234);
    fb.log(&msg);
    for (i, &b) in msg.iter().enumerate() {
        let c = fb.read(i).unwrap();
        assert_eq!(cell_char(c), b);
        assert_eq!(cell_attr(c), ATTRIBUTE);
    }
    assert_eq!(fb.read(msg.len()), Some(0));
    assert_eq!(fb.read(30), Some(0x1234));
}

#[test]
fn log_empty_changes_nothing() {
    let mut fb = Framebuffer::new();
    fb.write_cell(5, b'x', 0x4F);
    let before = cells(&fb);
    fb.log(b"");
    assert_eq!(cells(&fb), before);
}

#[test]
fn log_twice_same_as_once() {
    let mut once = Framebuffer::new();
    once.store(3, 0xBEEF);
    once.store(40, 0xCAFE);
    let mut twice = Framebuffer::new();
    twice.store(3, 0xBEEF);
    twice.store(40, 0xCAFE);
    once.log(b"repeat me");
    twice.log(b"repeat me");
    twice.log(b"repeat me");
    assert_eq!(cells(&once), cells(&twice));
}

#[test]
fn log_fills_whole_screen() {
    let msg: Vec<u8> = (0..2000u32).map(|i| (i % 95 + 32) as u8).collect();
    let mut fb = Framebuffer::new();
    fb.log(&msg);
    assert_eq!(fb.read(0), Some(0x0720));
    assert_eq!(fb.read(1999), Some(0x0700 | msg[1999] as u16));
    assert_eq!(fb.capacity(), 2000);
}

#[test]
fn write_cell_bounds() {
    let mut fb = Framebuffer::new();
    assert!(fb.write_cell(1999, b'Z', 0x0A));
    assert_eq!(fb.read(1999), Some(0x0A5A));
    let before = cells(&fb);
    assert!(!fb.write_cell(2000, b'Z', 0x0A));
    assert!(!fb.store(usize::MAX, 1));
    assert_eq!(cells(&fb), before);
}

#[test]
fn step_writes_then_halts() {
    let msg = b"OK";
    let s = start();
    assert_eq!(s, Stage::Running { next: 0 });
    let (s, a) = step(s, msg);
    assert_eq!(a, Action::Write(CellWrite { index: 0, value: 0x074F }));
    let (s, a) = step(s, msg);
    assert_eq!(a, Action::Write(CellWrite { index: 1, value: 0x074B }));
    assert_eq!(s, Stage::Running { next: 2 });
    let (s, a) = step(s, msg);
    assert_eq!((s, a), (Stage::Halted, Action::Idle));
}

#[test]
fn halted_issues_no_more_writes() {
    let msg = boot_message();
    let (s, trace) = run(start(), &msg, msg.len() + 50);
    assert_eq!(s, Stage::Halted);
    assert_eq!(trace.len(), msg.len());
    for (i, w) in trace.iter().enumerate() {
        assert_eq!(w.index, i);
        assert_eq!(w.value, make_cell(msg[i], ATTRIBUTE));
    }
    let (s, more) = run(Stage::Halted, &msg, 1000);
    assert_eq!(s, Stage::Halted);
    assert!(more.is_empty());
}

#[test]
fn partial_run_stops_midway() {
    let (s, trace) = run(start(), b"abc", 2);
    assert_eq!(s, Stage::Running { next: 2 });
    assert_eq!(trace, vec![CellWrite { index: 0, value: 0x0761 }, CellWrite { index: 1, value: 0x0762 }]);
}

#[test]
fn empty_message_boot_writes_nothing() {
    let (s, trace) = run(start(), b"", 10);
    assert_eq!(s, Stage::Halted);
    assert!(trace.is_empty());
    let mut fb = Framebuffer::new();
    fb.store(0, 0x1111);
    assert_eq!(boot(&mut fb, b""), Stage::Halted);
    assert_eq!(fb.read(0), Some(0x1111));
}

#[test]
fn panicked_never_writes() {
    let msg = boot_message();
    let (s, _) = run(start(), &msg, 3);
    let p = enter_panic(s);
    assert_eq!(p, Stage::Panicked);
    let (s, trace) = run(p, &msg, 500);
    assert_eq!(s, Stage::Panicked);
    assert!(trace.is_empty());
    assert_eq!(enter_panic(Stage::Halted), Stage::Panicked);
}

#[test]
fn boot_matches_log() {
    let msg = boot_message();
    let mut booted = Framebuffer::new();
    assert_eq!(boot(&mut booted, &msg), Stage::Halted);
    let mut logged = Framebuffer::new();
    logged.log(&msg);
    assert_eq!(cells(&booted), cells(&logged));
    assert_eq!(booted.read(0), Some(0x0748));
}

#[test]
fn perform_applies_actions() {
    let mut fb = Framebuffer::new();
    assert!(perform(&mut fb, Action::Write(CellWrite { index: 7, value: 0x0741 })));
    assert_eq!(fb.read(7), Some(0x0741));
    assert!(perform(&mut fb, Action::Idle));
    assert!(!perform(&mut fb, Action::Write(CellWrite { index: 2000, value: 1 })));
    assert_eq!(fb.read(7), Some(0x0741));
}
