use co2_monitor::e_paper::parse_gray4_data;
use co2_monitor::e_paper::recombine_planes;
use co2_monitor::e_paper::BusOp;
use co2_monitor::e_paper::EPaper;
use co2_monitor::e_paper::BLACK_WHITE_LUT;
use co2_monitor::e_paper::GRAY4_LUT;
use co2_monitor::e_paper::PARTIAL_UPDATE_LUT;

fn cmd(ops: &[BusOp], i: usize) -> u8 {
    match &ops[i] {
        BusOp::Command(c) => *c,
        other => panic!("expected a command at {}, got {:?}", i, describe(other)),
    }
}

fn data(ops: &[BusOp], i: usize) -> Vec<u8> {
    match &ops[i] {
        BusOp::Data(d) => d.clone(),
        other => panic!("expected data at {}, got {:?}", i, describe(other)),
    }
}

fn describe(op: &BusOp) -> &'static str {
    match op {
        BusOp::Command(_) => "command",
        BusOp::Data(_) => "data",
        BusOp::WaitBusy => "wait-busy",
        BusOp::DelayMs(_) => "delay",
        BusOp::PowerOn => "power-on",
        BusOp::ResetHigh => "reset-high",
        BusOp::ResetLow => "reset-low",
    }
}

#[test]
fn black_white_init_frames_the_window() {
    // width 296, height 128: the window commands must carry the
    // documented byte encodings of the panel geometry.
    let ep = EPaper::new(296, 128);
    let ops = ep.init_black_white();
    // power-up and reset preamble
    assert!(matches!(ops[0], BusOp::PowerOn));
    assert!(matches!(ops[1], BusOp::DelayMs(100)));
    assert!(matches!(ops[2], BusOp::ResetHigh));
    assert!(matches!(ops[3], BusOp::DelayMs(10)));
    assert!(matches!(ops[4], BusOp::ResetLow));
    assert!(matches!(ops[5], BusOp::DelayMs(2)));
    assert!(matches!(ops[6], BusOp::ResetHigh));
    assert!(matches!(ops[7], BusOp::DelayMs(100)));
    assert!(matches!(ops[8], BusOp::WaitBusy));
    // soft reset
    assert_eq!(cmd(&ops, 9), 0x12);
    assert!(matches!(ops[10], BusOp::WaitBusy));
    // driver output control carries (width-1) = 295 = 0x0127
    assert_eq!(cmd(&ops, 11), 0x01);
    assert_eq!(data(&ops, 12), vec![39, 1, 0x00]);
    // data entry mode
    assert_eq!(cmd(&ops, 13), 0x11);
    assert_eq!(data(&ops, 14), vec![0x03]);
    // x window in 8-pixel bytes: 128/8 - 1 = 15
    assert_eq!(cmd(&ops, 15), 0x44);
    assert_eq!(data(&ops, 16), vec![0x00, 15]);
    // y window carries (width-1) split into 295 % 256 = 39, 295 / 256 = 1
    assert_eq!(cmd(&ops, 17), 0x45);
    assert_eq!(data(&ops, 18), vec![0x00, 0x00, 39, 1]);
    // update control, cursor origin
    assert_eq!(cmd(&ops, 19), 0x21);
    assert_eq!(data(&ops, 20), vec![0x00, 0x80]);
    assert_eq!(cmd(&ops, 21), 0x4e);
    assert_eq!(data(&ops, 22), vec![0x00]);
    assert_eq!(cmd(&ops, 23), 0x4f);
    assert_eq!(data(&ops, 24), vec![0x00, 0x00]);
    assert!(matches!(ops[25], BusOp::WaitBusy));
    // waveform table: 153 bytes, then the voltage commands
    assert_eq!(cmd(&ops, 26), 0x32);
    assert_eq!(data(&ops, 27), BLACK_WHITE_LUT[0..153].to_vec());
    assert!(matches!(ops[28], BusOp::WaitBusy));
    assert_eq!(cmd(&ops, 29), 0x3f);
    assert_eq!(data(&ops, 30), vec![BLACK_WHITE_LUT[153]]);
    assert_eq!(cmd(&ops, 31), 0x03);
    assert_eq!(data(&ops, 32), vec![BLACK_WHITE_LUT[154]]);
    assert_eq!(cmd(&ops, 33), 0x04);
    assert_eq!(data(&ops, 34), BLACK_WHITE_LUT[155..158].to_vec());
    assert_eq!(cmd(&ops, 35), 0x2c);
    assert_eq!(data(&ops, 36), vec![BLACK_WHITE_LUT[158]]);
    // initial clear: both caches all white, then a full refresh
    assert_eq!(cmd(&ops, 37), 0x24);
    let white = data(&ops, 38);
    assert_eq!(white.len(), 296 / 8 * 128);
    assert!(white.iter().all(|&b| b == 0xff));
    assert_eq!(cmd(&ops, 39), 0x26);
    assert_eq!(data(&ops, 40), white);
    assert_eq!(cmd(&ops, 41), 0x22);
    assert_eq!(data(&ops, 42), vec![0xc7]);
    assert_eq!(cmd(&ops, 43), 0x20);
    assert!(matches!(ops[44], BusOp::WaitBusy));
    assert!(matches!(ops[45], BusOp::WaitBusy));
    assert_eq!(ops.len(), 46);
}

#[test]
fn gray4_init_uses_the_gray_window() {
    let ep = EPaper::new(296, 128);
    let ops = ep.init_gray4();
    // x window starts at byte 1 and ends at 128/8 = 16 without the -1
    assert_eq!(cmd(&ops, 15), 0x44);
    assert_eq!(data(&ops, 16), vec![0x01, 16]);
    // gray update control replaces the black/white one
    assert_eq!(cmd(&ops, 19), 0x3c);
    assert_eq!(data(&ops, 20), vec![0x04]);
    assert_eq!(cmd(&ops, 21), 0x4e);
    assert_eq!(data(&ops, 22), vec![0x01]);
    // settle delays around the waveform load and the clear
    assert!(matches!(ops[26], BusOp::DelayMs(1000)));
    assert_eq!(cmd(&ops, 27), 0x32);
    assert_eq!(data(&ops, 28), GRAY4_LUT[0..153].to_vec());
    assert!(matches!(ops[ops.len() - 1], BusOp::DelayMs(1000)));
}

#[test]
fn partial_init_loads_the_partial_waveform() {
    let ep = EPaper::new(296, 128);
    let ops = ep.init_partial_update();
    assert!(matches!(ops[8], BusOp::WaitBusy));
    assert_eq!(cmd(&ops, 9), 0x32);
    assert_eq!(data(&ops, 10), PARTIAL_UPDATE_LUT[0..153].to_vec());
    assert_eq!(cmd(&ops, 11), 0x37);
    assert_eq!(
        data(&ops, 12),
        vec![0x00, 0x00, 0x00, 0x00, 0x00, 0x40, 0x00, 0x00, 0x00, 0x00]
    );
    assert_eq!(cmd(&ops, 13), 0x3c);
    assert_eq!(data(&ops, 14), vec![0x80]);
    assert_eq!(cmd(&ops, 15), 0x22);
    assert_eq!(data(&ops, 16), vec![0xc0]);
    // opcode 0x20 carries no payload: the next element is the busy wait
    assert_eq!(cmd(&ops, 17), 0x20);
    assert!(matches!(ops[18], BusOp::WaitBusy));
    assert_eq!(cmd(&ops, 19), 0x44);
    assert_eq!(data(&ops, 20), vec![0x00, 15]);
    assert_eq!(cmd(&ops, 21), 0x45);
    assert_eq!(data(&ops, 22), vec![0x00, 0x00, 39, 1]);
    assert_eq!(cmd(&ops, 23), 0x4e);
    assert_eq!(data(&ops, 24), vec![0x00]);
    assert_eq!(cmd(&ops, 25), 0x4f);
    assert_eq!(data(&ops, 26), vec![0x00, 0x00]);
    assert!(matches!(ops[27], BusOp::WaitBusy));
    assert_eq!(ops.len(), 28);
}

#[test]
fn full_and_partial_refresh_use_their_update_codes() {
    let ep = EPaper::new(296, 128);
    let full = ep.sync_screen();
    assert_eq!(cmd(&full, 0), 0x22);
    assert_eq!(data(&full, 1), vec![0xc7]);
    assert_eq!(cmd(&full, 2), 0x20);
    assert!(matches!(full[3], BusOp::WaitBusy));
    assert_eq!(full.len(), 4);
    let partial = ep.sync_partial_screen();
    assert_eq!(data(&partial, 1), vec![0x0f]);
    assert_eq!(partial.len(), 4);
}

#[test]
fn display_black_white_fills_both_caches() {
    let ep = EPaper::new(296, 128);
    let frame = vec![0xaa, 0x55, 0x00];
    let ops = ep.display_black_white(&frame);
    assert_eq!(cmd(&ops, 0), 0x24);
    assert_eq!(data(&ops, 1), frame);
    assert_eq!(cmd(&ops, 2), 0x26);
    assert_eq!(data(&ops, 3), frame);
    assert_eq!(cmd(&ops, 4), 0x22);
    assert_eq!(data(&ops, 5), vec![0xc7]);
    assert_eq!(cmd(&ops, 6), 0x20);
    assert!(matches!(ops[7], BusOp::WaitBusy));
    assert_eq!(ops.len(), 8);
}

#[test]
fn empty_payload_emits_no_transfer() {
    let ep = EPaper::new(296, 128);
    let ops = ep.display_black_white(&Vec::new());
    // no Data operations at all: 0x24, 0x26, then the refresh trigger
    assert_eq!(cmd(&ops, 0), 0x24);
    assert_eq!(cmd(&ops, 1), 0x26);
    assert_eq!(cmd(&ops, 2), 0x22);
    assert_eq!(data(&ops, 3), vec![0xc7]);
    assert_eq!(cmd(&ops, 4), 0x20);
    assert!(matches!(ops[5], BusOp::WaitBusy));
    assert_eq!(ops.len(), 6);
    let also = ep.write_data(Vec::new());
    assert!(also.is_empty());
}

#[test]
fn write_cmd_and_write_data_are_single_operations() {
    let ep = EPaper::new(296, 128);
    let c = ep.write_cmd(0x12);
    assert_eq!(c.len(), 1);
    assert_eq!(cmd(&c, 0), 0x12);
    let d = ep.write_data(vec![1, 2, 3]);
    assert_eq!(d.len(), 1);
    assert_eq!(data(&d, 0), vec![1, 2, 3]);
}

#[test]
fn busy_polls_until_the_line_drops() {
    let ep = EPaper::new(296, 128);
    assert_eq!(ep.wait_busy(true), Some(50));
    assert_eq!(ep.wait_busy(false), None);
}

#[test]
fn halt_enters_deep_sleep() {
    let ep = EPaper::new(296, 128);
    let ops = ep.halt();
    assert_eq!(cmd(&ops, 0), 0x10);
    assert_eq!(data(&ops, 1), vec![0x01]);
    assert_eq!(ops.len(), 2);
}

#[test]
fn plane_split_redistributes_the_bits() {
    // byte 0 contributes bits 7,5,3,1 to plane A's high nibble and bits
    // 6,4,2,0 to plane B's high nibble; byte 1 fills the low nibbles.
    let (a, b) = parse_gray4_data(&vec![0xff, 0x00]);
    assert_eq!(a, vec![0xf0]);
    assert_eq!(b, vec![0xf0]);
    let (a, b) = parse_gray4_data(&vec![0x80, 0x00]);
    assert_eq!(a, vec![0x80]);
    assert_eq!(b, vec![0x00]);
    let (a, b) = parse_gray4_data(&vec![0x40, 0x00]);
    assert_eq!(a, vec![0x00]);
    assert_eq!(b, vec![0x80]);
    let (a, b) = parse_gray4_data(&vec![0x00, 0x01]);
    assert_eq!(a, vec![0x00]);
    assert_eq!(b, vec![0x01]);
    // a trailing odd byte is dropped
    let (a, b) = parse_gray4_data(&vec![0xff, 0x00, 0x12]);
    assert_eq!(a.len(), 1);
    assert_eq!(b.len(), 1);
}

#[test]
fn plane_split_round_trips() {
    let stream = vec![0x27, 0x93, 0x00, 0xff, 0xaa, 0x55, 0x1b, 0xe4];
    let (a, b) = parse_gray4_data(&stream);
    assert_eq!(recombine_planes(&a, &b), stream);
}

#[test]
fn display_gray4_sends_the_planes() {
    let ep = EPaper::new(296, 128);
    let stream = vec![0xff, 0x00, 0x27, 0x93];
    let (pa, pb) = parse_gray4_data(&stream);
    let ops = ep.display_gray4(&stream);
    assert_eq!(cmd(&ops, 0), 0x24);
    assert_eq!(data(&ops, 1), pa);
    assert_eq!(cmd(&ops, 2), 0x26);
    assert_eq!(data(&ops, 3), pb);
    assert_eq!(cmd(&ops, 4), 0x22);
}

#[test]
fn display_partial_reinitializes_then_updates() {
    let ep = EPaper::new(296, 128);
    let frame = vec![0x12, 0x34];
    let ops = ep.display_partial(&frame);
    let init = ep.init_partial_update();
    assert_eq!(ops.len(), init.len() + 6);
    assert_eq!(cmd(&ops, init.len()), 0x24);
    assert_eq!(data(&ops, init.len() + 1), frame);
    assert_eq!(cmd(&ops, init.len() + 2), 0x22);
    assert_eq!(data(&ops, init.len() + 3), vec![0x0f]);
    assert_eq!(cmd(&ops, init.len() + 4), 0x20);
    assert!(matches!(ops[init.len() + 5], BusOp::WaitBusy));
}

#[test]
fn clear_screen_whitens_both_caches() {
    let ep = EPaper::new(296, 128);
    let ops = ep.clear_screen();
    assert_eq!(cmd(&ops, 0), 0x24);
    let white = data(&ops, 1);
    assert_eq!(white.len(), 4736);
    assert!(white.iter().all(|&b| b == 0xff));
    assert_eq!(cmd(&ops, 2), 0x26);
    assert_eq!(data(&ops, 3), white);
    assert_eq!(cmd(&ops, 4), 0x22);
    assert_eq!(data(&ops, 5), vec![0xc7]);
}
