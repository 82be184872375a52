use kidneyos::block::block_core::BlockOp;
use kidneyos::block::block_error::BlockError;
use kidneyos::drivers::ata::ata_channel::{device_present, status_busy, status_drq, status_idle, AtaChannel};
use kidneyos::drivers::ata::ata_device::AtaDevice;
use kidneyos::drivers::ata::ata_timer::{msleep, nsleep, spin_done, tsc_value, usleep, SleepPlan};
use kidneyos::drivers::dummy_device::DummyDevice;
use kidneyos::drivers::input::input_core::InputBuffer;
use kidneyos::drivers::ps_2::keyboard::{scancode_of, KeyboardState};
use kidneyos::interrupts::mutex_irq::{hold_interrupts, InterruptsGuard};
use kidneyos::interrupts::timer::{step_sys_clock, timer_interrupt_interval, wakeup_time, Duration};
use kidneyos::interrupts::unhandled_handlers::get_unhandled_handler;
use kidneyos::interrupts::{intr_level_from_flags, IntrLevel};

#[test]
fn keyboard_types_lower_and_upper_case() {
    let mut k = KeyboardState::new();
    // 'a' pressed, then released
    assert_eq!(k.handle_scancode(0x1E), Some(b'a'));
    assert_eq!(k.handle_scancode(0x9E), None);
    // with left shift held
    assert_eq!(k.handle_scancode(0x2A), None);
    assert_eq!(k.handle_scancode(0x1E), Some(b'A'));
    assert_eq!(k.handle_scancode(0x02), Some(b'!'));
    assert_eq!(k.handle_scancode(0xAA), None);
    assert_eq!(k.handle_scancode(0x02), Some(b'1'));
    // caps lock turns letters to upper case, but not digits
    assert_eq!(k.handle_scancode(0x3A), None);
    assert_eq!(k.handle_scancode(0x10), Some(b'Q'));
    assert_eq!(k.handle_scancode(0x03), Some(b'2'));
    // shift with caps lock gives lower case
    k.handle_scancode(0x36);
    assert_eq!(k.handle_scancode(0x10), Some(b'q'));
    // keys with no character
    assert_eq!(k.handle_scancode(0x3B), None);
    assert_eq!(k.handle_scancode(0x1C), Some(13));
    assert_eq!(k.handle_scancode(0x39), Some(b' '));
}

#[test]
fn extended_scancodes_combine_both_bytes() {
    assert_eq!(scancode_of(0xE0, 0x38), 0xE038);
    assert_eq!(scancode_of(0x1E, 0x00), 0x1E);
}

#[test]
fn input_buffer_is_first_in_first_out() {
    let mut b = InputBuffer::new();
    assert!(b.is_empty());
    assert_eq!(b.getc(), None);
    b.putc(b'x');
    b.putc(b'y');
    assert!(!b.is_empty());
    assert_eq!(b.display_bytes(), b"xy".to_vec());
    assert_eq!(b.getc(), Some(b'x'));
    assert_eq!(b.getc(), Some(b'y'));
    assert_eq!(b.getc(), None);
}

#[test]
fn input_buffer_wraps_around() {
    let mut b = InputBuffer::new();
    for i in 0..300u32 {
        b.putc((i % 256) as u8);
        assert_eq!(b.getc(), Some((i % 256) as u8));
    }
    assert!(b.is_empty());
    // a full buffer holds 255 bytes; one more empties it
    for i in 0..255u32 {
        b.putc(i as u8);
    }
    assert!(!b.is_empty());
    b.putc(0);
    assert!(b.is_empty());
}

#[test]
fn ata_channel_registers() {
    let mut c = AtaChannel::new(0);
    assert_eq!(c.reg_data(), 0x1F0);
    assert_eq!(c.reg_error(), 0x1F1);
    assert_eq!(c.reg_nsect(), 0x1F2);
    assert_eq!(c.reg_lbal(), 0x1F3);
    assert_eq!(c.reg_lbam(), 0x1F4);
    assert_eq!(c.reg_lbah(), 0x1F5);
    assert_eq!(c.reg_device(), 0x1F6);
    assert_eq!(c.reg_ctl(), 0x3F6);
    assert_eq!(c.get_irq(), 14);
    let c1 = AtaChannel::new(1);
    assert_eq!(c1.reg_data(), 0x170);
    assert_eq!(c1.get_irq(), 15);
    c.set_names();
    assert_eq!(c.get_name()[..4], ['i', 'd', 'e', '0']);
    assert_eq!(c.get_d1_name()[..3], ['h', 'd', 'b']);
    let sel = c.select_sector(1, 0x0A0B0C0D);
    assert_eq!(sel[0], (0x1F6, 0xA0 | 0x40 | 0x10 | 0x0A));
    assert_eq!(sel[1], (0x1F2, 1));
    assert_eq!(sel[2], (0x1F3, 0x0D));
    assert_eq!(sel[3], (0x1F4, 0x0C));
    assert_eq!(sel[4], (0x1F5, 0x0B));
    assert!(!c.is_expect_interrupt());
    let (port, cmd) = c.issue_pio_command(0x20);
    assert_eq!(cmd, 0x20);
    assert_eq!(port, c.reg_command());
    assert!(c.is_expect_interrupt());
}

#[test]
fn ata_device_type_detection() {
    let mut c = AtaChannel::new(0);
    // an ATA disk answers with error 1, ready status and zero signature
    assert!(c.check_device_type(0, 1, 0, 0, 0x40));
    assert!(c.is_ata(0));
    // an ATAPI device gives another signature
    assert!(c.check_device_type(1, 1, 0x14, 0xEB, 0x40));
    assert!(!c.is_ata(1));
    // a busy device is no disk
    assert!(!c.check_device_type(0, 1, 0, 0, 0xC0));
    assert!(!c.is_ata(0));
}

#[test]
fn ata_status_bits() {
    assert!(status_busy(0x80));
    assert!(!status_busy(0x40));
    assert!(status_drq(0x08));
    assert!(status_idle(0x40));
    assert!(!status_idle(0x88));
    assert!(device_present(0x55, 0xAA));
    assert!(!device_present(1, 1));
    let d = AtaDevice(3);
    assert_eq!(d.get_channel(), 1);
    assert_eq!(d.get_device_num(), 1);
}

#[test]
fn ata_semaphore_counts_completions() {
    let mut c = AtaChannel::new(0);
    assert!(!c.sem_try_down());
    c.sem_up();
    c.sem_up();
    assert!(c.sem_try_down());
    c.sem_down();
    assert!(!c.sem_try_down());
}

#[test]
fn sleeping_plans() {
    assert_eq!(msleep(3, true), SleepPlan::BusyWait { cycles: 6_000_000 });
    assert_eq!(usleep(3, true), SleepPlan::BusyWait { cycles: 6_000 });
    assert_eq!(nsleep(3, true), SleepPlan::BusyWait { cycles: 6 });
    assert_eq!(msleep(1500, false), SleepPlan::Scheduler(Duration { secs: 1, nanos: 500_000_000 }));
    assert_eq!(usleep(2_000_001, false), SleepPlan::Scheduler(Duration { secs: 2, nanos: 1_000 }));
    assert_eq!(nsleep(7, false), SleepPlan::Scheduler(Duration { secs: 0, nanos: 7 }));
    assert_eq!(tsc_value(5, 1), 0x1_0000_0005);
    assert!(spin_done(10, 20, 10));
    assert!(!spin_done(10, 19, 10));
}

#[test]
fn the_dummy_device_refuses_everything() {
    let mut d = DummyDevice::new();
    let mut buf = [0u8; 512];
    assert_eq!(d.read(0, &mut buf), Err(BlockError::ReadError));
    assert_eq!(d.write(0, &buf), Err(BlockError::WriteError));
}

#[test]
fn interrupt_level_and_guard() {
    assert_eq!(intr_level_from_flags(0x202), IntrLevel::IntrOn);
    assert_eq!(intr_level_from_flags(0x002), IntrLevel::IntrOff);
    let (guard, level) = hold_interrupts(IntrLevel::IntrOn, IntrLevel::IntrOff);
    assert_eq!(guard, InterruptsGuard(true));
    assert_eq!(level, IntrLevel::IntrOff);
    assert_eq!(guard.release(), IntrLevel::IntrOn);
    let (guard, _) = hold_interrupts(IntrLevel::IntrOff, IntrLevel::IntrOff);
    assert_eq!(guard.release(), IntrLevel::IntrOff);
    // off before, on while held: dropping the guard turns them off again
    let (guard, level) = hold_interrupts(IntrLevel::IntrOff, IntrLevel::IntrOn);
    assert_eq!(level, IntrLevel::IntrOn);
    assert_eq!(guard.release(), IntrLevel::IntrOff);
}

#[test]
fn system_clock_steps_by_the_timer_interval() {
    let interval = timer_interrupt_interval();
    assert_eq!(interval, Duration { secs: 0, nanos: 54_924_000 });
    let mut clock = Duration::new(0, 0);
    for _ in 0..20 {
        step_sys_clock(&mut clock);
    }
    assert_eq!(clock, Duration { secs: 1, nanos: 98_480_000 });
    let end = wakeup_time(&clock, Duration::from_millis(950));
    assert_eq!(end, Duration { secs: 2, nanos: 48_480_000 });
    assert!(clock.is_before(&end));
    assert_eq!(Duration::new(u64::MAX, 999_999_999).checked_add(Duration::new(0, 1)), None);
    assert_eq!(Duration::new(1, 600_000_000).checked_add(Duration::new(2, 500_000_000)), Some(Duration { secs: 4, nanos: 100_000_000 }));
}

#[test]
fn unhandled_interrupt_handlers_are_five_bytes_apart() {
    assert_eq!(get_unhandled_handler(0x1000, 0), 0x1000);
    assert_eq!(get_unhandled_handler(0x1000, 3), 0x100F);
    assert_eq!(get_unhandled_handler(0x1000, 255), 0x1000 + 1275);
}
