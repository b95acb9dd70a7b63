//! Panel driver: command-stream generation for the e-paper controller.
//!
//! The controller is driven over a half-duplex command/data link gated by
//! reset, power and busy lines. Everything the driver decides — opcodes,
//! payloads, waveform tables, reset pulse widths, settle times and
//! busy-wait points — is pure data, so this module computes each driving
//! step as an explicit sequence of bus operations with an exact contract.
//! The caller owns the physical lines and plays a sequence back verbatim:
//! a `Command` byte is sent with the data/command select line low, a
//! `Data` payload with it high, `WaitBusy` polls the busy line until the
//! panel deasserts it, and the remaining operations drive the power and
//! reset lines and the timed settle delays.

use vstd::prelude::*;

verus! {

/// One primitive operation on the physical link.
pub enum BusOp {
    /// Select command mode and transmit exactly one opcode byte.
    Command(u8),
    /// Select data mode and transmit the payload in a single transfer.
    /// Never empty: a zero-length payload performs no transfer at all.
    Data(Vec<u8>),
    /// Poll the busy line until the panel deasserts it (non-zero = busy).
    WaitBusy,
    /// Sleep for the given number of milliseconds.
    DelayMs(u32),
    /// Drive the power-enable line high.
    PowerOn,
    /// Drive the reset line high.
    ResetHigh,
    /// Drive the reset line low.
    ResetLow,
}

/// Mathematical model of a bus operation.
pub enum BusOpModel {
    Command(u8),
    Data(Seq<u8>),
    WaitBusy,
    DelayMs(u32),
    PowerOn,
    ResetHigh,
    ResetLow,
}

impl View for BusOp {
    type V = BusOpModel;

    open spec fn view(&self) -> BusOpModel {
        match self {
            BusOp::Command(c) => BusOpModel::Command(*c),
            BusOp::Data(d) => BusOpModel::Data(d@),
            BusOp::WaitBusy => BusOpModel::WaitBusy,
            BusOp::DelayMs(t) => BusOpModel::DelayMs(*t),
            BusOp::PowerOn => BusOpModel::PowerOn,
            BusOp::ResetHigh => BusOpModel::ResetHigh,
            BusOp::ResetLow => BusOpModel::ResetLow,
        }
    }
}

/// A bus-operation list as a sequence of models.
pub open spec fn ops_model(s: Seq<BusOp>) -> Seq<BusOpModel> {
    Seq::new(s.len(), |i: int| s[i]@)
}

/// One command write.
pub open spec fn cmd_op(c: u8) -> Seq<BusOpModel> {
    seq![BusOpModel::Command(c)]
}

/// One data write; an empty payload performs no transfer and must not
/// appear on the wire at all.
pub open spec fn data_op(d: Seq<u8>) -> Seq<BusOpModel> {
    if d.len() == 0 {
        Seq::empty()
    } else {
        seq![BusOpModel::Data(d)]
    }
}

/// A command followed by its payload.
pub open spec fn cmd_data(c: u8, d: Seq<u8>) -> Seq<BusOpModel> {
    cmd_op(c) + data_op(d)
}

/// One busy poll.
pub open spec fn wait_busy_op() -> Seq<BusOpModel> {
    seq![BusOpModel::WaitBusy]
}

/// One timed delay.
pub open spec fn delay_op(ms: u32) -> Seq<BusOpModel> {
    seq![BusOpModel::DelayMs(ms)]
}

/// Power-up: drive the power-enable line high, then let the rails settle
/// for 100 ms before any bus activity.
pub open spec fn power_up_ops() -> Seq<BusOpModel> {
    seq![BusOpModel::PowerOn, BusOpModel::DelayMs(100)]
}

/// Hardware reset pulse: high 10 ms, low 2 ms, high 100 ms. The panel is
/// not addressable until this completes.
pub open spec fn hw_reset_ops() -> Seq<BusOpModel> {
    seq![
        BusOpModel::ResetHigh,
        BusOpModel::DelayMs(10),
        BusOpModel::ResetLow,
        BusOpModel::DelayMs(2),
        BusOpModel::ResetHigh,
        BusOpModel::DelayMs(100),
    ]
}

/// Low byte of a dimension's on-wire encoding: `(d - 1) mod 256`.
pub open spec fn dim_lo(d: u16) -> u8
    recommends
        d >= 1,
{
    (((d as int) - 1) % 256) as u8
}

/// High byte of a dimension's on-wire encoding: `(d - 1) div 256`.
pub open spec fn dim_hi(d: u16) -> u8
    recommends
        d >= 1,
{
    (((d as int) - 1) / 256) as u8
}

/// Appends one operation.
fn push_op(ops: &mut Vec<BusOp>, op: BusOp)
    ensures
        ops_model(final(ops)@) == ops_model(old(ops)@) + seq![op@],
{
    let ghost before = ops@;
    ops.push(op);
    proof {
        assert(ops_model(ops@) =~= ops_model(before) + seq![ops@[before.len() as int]@]);
    }
}

/// Appends one command write.
fn push_cmd(ops: &mut Vec<BusOp>, c: u8)
    ensures
        ops_model(final(ops)@) == ops_model(old(ops)@) + cmd_op(c),
{
    push_op(ops, BusOp::Command(c));
}

/// Appends one data write, dropping an empty payload (it would perform no
/// transfer).
fn push_data(ops: &mut Vec<BusOp>, d: Vec<u8>)
    ensures
        ops_model(final(ops)@) == ops_model(old(ops)@) + data_op(d@),
{
    if d.len() == 0 {
        proof {
            assert(ops_model(ops@) =~= ops_model(ops@) + data_op(d@));
        }
    } else {
        push_op(ops, BusOp::Data(d));
    }
}

/// Builds a one-byte payload.
fn vec1(a: u8) -> (r: Vec<u8>)
    ensures
        r@ == seq![a],
{
    let mut r: Vec<u8> = Vec::new();
    r.push(a);
    proof {
        assert(r@ =~= seq![a]);
    }
    r
}

/// Builds a two-byte payload.
fn vec2(a: u8, b: u8) -> (r: Vec<u8>)
    ensures
        r@ == seq![a, b],
{
    let mut r: Vec<u8> = Vec::new();
    r.push(a);
    r.push(b);
    proof {
        assert(r@ =~= seq![a, b]);
    }
    r
}

/// Builds a three-byte payload.
fn vec3(a: u8, b: u8, c: u8) -> (r: Vec<u8>)
    ensures
        r@ == seq![a, b, c],
{
    let mut r: Vec<u8> = Vec::new();
    r.push(a);
    r.push(b);
    r.push(c);
    proof {
        assert(r@ =~= seq![a, b, c]);
    }
    r
}

/// Builds a four-byte payload.
fn vec4(a: u8, b: u8, c: u8, d: u8) -> (r: Vec<u8>)
    ensures
        r@ == seq![a, b, c, d],
{
    let mut r: Vec<u8> = Vec::new();
    r.push(a);
    r.push(b);
    r.push(c);
    r.push(d);
    proof {
        assert(r@ =~= seq![a, b, c, d]);
    }
    r
}

/// Driver for the panel controller. It owns nothing physical: it knows
/// the panel geometry and produces, for every driving step, the exact
/// operation sequence to play on the link.
pub struct EPaper {
    width: u16,
    height: u16,
}

impl EPaper {
    /// Panel width in pixels.
    pub closed spec fn spec_width(self) -> u16 {
        self.width
    }

    /// Panel height in pixels.
    pub closed spec fn spec_height(self) -> u16 {
        self.height
    }

    /// Geometry the controller's on-wire encodings can carry: the width
    /// bytes encode `width - 1`, the height is addressed in whole 8-pixel
    /// bytes with at most 256 of them, and the clear-screen buffer length
    /// `width/8 * height` must fit the link's 16-bit length arithmetic.
    pub open spec fn wf(self) -> bool {
        &&& 1 <= self.spec_width() as int
        &&& 8 <= self.spec_height() as int
        &&& self.spec_height() as int <= 2040
        &&& self.spec_height() as int % 8 == 0
        &&& (self.spec_width() as int / 8) * (self.spec_height() as int) <= u16::MAX as int
    }

    /// Creates a driver for a panel of the given geometry.
    pub fn new(width: u16, height: u16) -> (r: EPaper)
        requires
            1 <= width,
            8 <= height <= 2040,
            height as int % 8 == 0,
            (width as int / 8) * (height as int) <= u16::MAX as int,
        ensures
            r.wf(),
            r.spec_width() == width,
            r.spec_height() == height,
    {
        EPaper { width, height }
    }

    /// Width accessor.
    pub fn width(&self) -> (w: u16)
        ensures
            w == self.spec_width(),
    {
        self.width
    }

    /// Height accessor.
    pub fn height(&self) -> (h: u16)
        ensures
            h == self.spec_height(),
    {
        self.height
    }

    /// One step of the busy poll. The busy line is level-significant
    /// (non-zero means busy): while it stays high the caller waits the
    /// returned 50 ms and polls again, and the panel is addressable once
    /// it goes low. The poll itself has no bound — the panel always
    /// eventually deasserts busy — so a deployment that cannot assume
    /// that should impose a timeout at the transport and treat it as a
    /// device-not-responding failure.
    pub fn wait_busy(&self, busy: bool) -> (delay_ms: Option<u32>)
        ensures
            delay_ms == (if busy {
                Some(50u32)
            } else {
                None::<u32>
            }),
    {
        if busy {
            Some(50)
        } else {
            None
        }
    }

    /// One command write: select command mode, transmit one opcode byte.
    pub fn write_cmd(&self, cmd: u8) -> (ops: Vec<BusOp>)
        ensures
            ops_model(ops@) == cmd_op(cmd),
    {
        let mut ops: Vec<BusOp> = Vec::new();
        push_cmd(&mut ops, cmd);
        proof {
            assert(ops_model(ops@) =~= cmd_op(cmd));
        }
        ops
    }

    /// One data write: select data mode, transmit the payload in a single
    /// transfer; an empty payload emits nothing.
    pub fn write_data(&self, data: Vec<u8>) -> (ops: Vec<BusOp>)
        ensures
            ops_model(ops@) == data_op(data@),
    {
        let mut ops: Vec<BusOp> = Vec::new();
        push_data(&mut ops, data);
        proof {
            assert(ops_model(ops@) =~= Seq::<BusOpModel>::empty() + data_op(data@));
            assert(Seq::<BusOpModel>::empty() + data_op(data@) =~= data_op(data@));
        }
        ops
    }

    /// Appends the black/white mode configuration commands.
    fn append_bw_config(&self, ops: &mut Vec<BusOp>)
        requires
            self.wf(),
        ensures
            ops_model(final(ops)@) == ops_model(old(ops)@) + bw_config_ops(
                self.spec_width(),
                self.spec_height(),
            ),
    {
        let ghost before = ops@;
        let w1: u8 = ((self.width - 1) % 256) as u8;
        let w2: u8 = ((self.width - 1) / 256) as u8;
        let h1: u8 = (self.height / 8 - 1) as u8;
        push_cmd(ops, 0x01);
        push_data(ops, vec3(w1, w2, 0x00));
        push_cmd(ops, 0x11);
        push_data(ops, vec1(0x03));
        push_cmd(ops, 0x44);
        push_data(ops, vec2(0x00, h1));
        push_cmd(ops, 0x45);
        push_data(ops, vec4(0x00, 0x00, w1, w2));
        push_cmd(ops, 0x21);
        push_data(ops, vec2(0x00, 0x80));
        push_cmd(ops, 0x4e);
        push_data(ops, vec1(0x00));
        push_cmd(ops, 0x4f);
        push_data(ops, vec2(0x00, 0x00));
        proof {
            assert(w1 == dim_lo(self.spec_width()) && w2 == dim_hi(self.spec_width()));
            assert(h1 == (self.spec_height() as int / 8 - 1) as u8);
            assert(ops_model(ops@) =~= ops_model(before) + bw_config_ops(
                self.spec_width(),
                self.spec_height(),
            ));
        }
    }

    /// Appends the four-gray mode configuration commands.
    fn append_gray4_config(&self, ops: &mut Vec<BusOp>)
        requires
            self.wf(),
        ensures
            ops_model(final(ops)@) == ops_model(old(ops)@) + gray4_config_ops(
                self.spec_width(),
                self.spec_height(),
            ),
    {
        let ghost before = ops@;
        let w1: u8 = ((self.width - 1) % 256) as u8;
        let w2: u8 = ((self.width - 1) / 256) as u8;
        let h1: u8 = (self.height / 8) as u8;
        push_cmd(ops, 0x01);
        push_data(ops, vec3(w1, w2, 0x00));
        push_cmd(ops, 0x11);
        push_data(ops, vec1(0x03));
        push_cmd(ops, 0x44);
        push_data(ops, vec2(0x01, h1));
        push_cmd(ops, 0x45);
        push_data(ops, vec4(0x00, 0x00, w1, w2));
        push_cmd(ops, 0x3c);
        push_data(ops, vec1(0x04));
        push_cmd(ops, 0x4e);
        push_data(ops, vec1(0x01));
        push_cmd(ops, 0x4f);
        push_data(ops, vec2(0x00, 0x00));
        proof {
            assert(ops_model(ops@) =~= ops_model(before) + gray4_config_ops(
                self.spec_width(),
                self.spec_height(),
            ));
        }
    }

    /// Appends the window and cursor commands of a partial update.
    fn append_partial_window(&self, ops: &mut Vec<BusOp>)
        requires
            self.wf(),
        ensures
            ops_model(final(ops)@) == ops_model(old(ops)@) + partial_window_ops(
                self.spec_width(),
                self.spec_height(),
            ),
    {
        let ghost before = ops@;
        let w1: u8 = ((self.width - 1) % 256) as u8;
        let w2: u8 = ((self.width - 1) / 256) as u8;
        let h1: u8 = (self.height / 8 - 1) as u8;
        push_cmd(ops, 0x44);
        push_data(ops, vec2(0x00, h1));
        push_cmd(ops, 0x45);
        push_data(ops, vec4(0x00, 0x00, w1, w2));
        push_cmd(ops, 0x4e);
        push_data(ops, vec1(0x00));
        push_cmd(ops, 0x4f);
        push_data(ops, vec2(0x00, 0x00));
        proof {
            assert(ops_model(ops@) =~= ops_model(before) + partial_window_ops(
                self.spec_width(),
                self.spec_height(),
            ));
        }
    }

    /// Appends the clear sequence: both caches filled all-white, then a
    /// full refresh.
    fn append_clear_screen(&self, ops: &mut Vec<BusOp>)
        requires
            self.wf(),
        ensures
            ops_model(final(ops)@) == ops_model(old(ops)@) + clear_screen_ops(
                self.spec_width(),
                self.spec_height(),
            ),
    {
        let ghost before = ops@;
        let len: u16 = self.width / 8 * self.height;
        push_cmd(ops, 0x24);
        push_data(ops, fill_bytes(0xff, len as usize));
        push_cmd(ops, 0x26);
        push_data(ops, fill_bytes(0xff, len as usize));
        append_sync_screen(ops);
        proof {
            assert(Seq::new(len as nat, |i: int| 0xffu8) =~= all_white(
                self.spec_width(),
                self.spec_height(),
            ));
            assert(ops_model(ops@) =~= ops_model(before) + clear_screen_ops(
                self.spec_width(),
                self.spec_height(),
            ));
        }
    }

    /// Emits the full-refresh trigger.
    pub fn sync_screen(&self) -> (ops: Vec<BusOp>)
        ensures
            ops_model(ops@) == sync_screen_ops(),
    {
        let mut ops: Vec<BusOp> = Vec::new();
        append_sync_screen(&mut ops);
        proof {
            assert(ops_model(ops@) =~= sync_screen_ops());
        }
        ops
    }

    /// Emits the partial-refresh trigger.
    pub fn sync_partial_screen(&self) -> (ops: Vec<BusOp>)
        ensures
            ops_model(ops@) == sync_partial_screen_ops(),
    {
        let mut ops: Vec<BusOp> = Vec::new();
        append_sync_partial_screen(&mut ops);
        proof {
            assert(ops_model(ops@) =~= sync_partial_screen_ops());
        }
        ops
    }

    /// Emits the clear sequence: both controller caches filled with the
    /// all-white encoding, then a full refresh.
    pub fn clear_screen(&self) -> (ops: Vec<BusOp>)
        requires
            self.wf(),
        ensures
            ops_model(ops@) == clear_screen_ops(self.spec_width(), self.spec_height()),
    {
        let mut ops: Vec<BusOp> = Vec::new();
        self.append_clear_screen(&mut ops);
        proof {
            assert(ops_model(ops@) =~= clear_screen_ops(self.spec_width(), self.spec_height()));
        }
        ops
    }

    /// Emits the deep-sleep command. Must follow every refresh cycle that
    /// is not immediately followed by another write: an active panel
    /// degrades the electrophoretic film over time.
    pub fn halt(&self) -> (ops: Vec<BusOp>)
        ensures
            ops_model(ops@) == halt_ops(),
    {
        let mut ops: Vec<BusOp> = Vec::new();
        push_cmd(&mut ops, 0x10);
        push_data(&mut ops, vec1(0x01));
        proof {
            assert(ops_model(ops@) =~= halt_ops());
        }
        ops
    }

    /// Emits the full black/white initialization: power-up, reset, soft
    /// reset, configuration, waveform table, initial clear.
    pub fn init_black_white(&self) -> (ops: Vec<BusOp>)
        requires
            self.wf(),
        ensures
            ops_model(ops@) == init_black_white_ops(self.spec_width(), self.spec_height()),
    {
        let mut ops: Vec<BusOp> = Vec::new();
        append_power_up(&mut ops);
        append_hw_reset(&mut ops);
        append_wait_busy(&mut ops);
        push_cmd(&mut ops, 0x12);
        append_wait_busy(&mut ops);
        self.append_bw_config(&mut ops);
        append_wait_busy(&mut ops);
        append_init_lut(&mut ops, &BLACK_WHITE_LUT);
        self.append_clear_screen(&mut ops);
        append_wait_busy(&mut ops);
        proof {
            assert(ops_model(ops@) =~= init_black_white_ops(
                self.spec_width(),
                self.spec_height(),
            ));
        }
        ops
    }

    /// Emits the full four-gray initialization.
    pub fn init_gray4(&self) -> (ops: Vec<BusOp>)
        requires
            self.wf(),
        ensures
            ops_model(ops@) == init_gray4_ops(self.spec_width(), self.spec_height()),
    {
        let mut ops: Vec<BusOp> = Vec::new();
        append_power_up(&mut ops);
        append_hw_reset(&mut ops);
        append_wait_busy(&mut ops);
        push_cmd(&mut ops, 0x12);
        append_wait_busy(&mut ops);
        self.append_gray4_config(&mut ops);
        append_wait_busy(&mut ops);
        push_op(&mut ops, BusOp::DelayMs(1000));
        append_init_lut(&mut ops, &GRAY4_LUT);
        self.append_clear_screen(&mut ops);
        push_op(&mut ops, BusOp::DelayMs(1000));
        proof {
            assert(ops_model(ops@) =~= init_gray4_ops(self.spec_width(), self.spec_height()));
        }
        ops
    }

    /// Emits the partial-update initialization: power and reset, the
    /// partial waveform table, the partial option block, then the window
    /// and cursor.
    pub fn init_partial_update(&self) -> (ops: Vec<BusOp>)
        requires
            self.wf(),
        ensures
            ops_model(ops@) == init_partial_update_ops(self.spec_width(), self.spec_height()),
    {
        let mut ops: Vec<BusOp> = Vec::new();
        append_power_up(&mut ops);
        append_hw_reset(&mut ops);
        append_wait_busy(&mut ops);
        push_cmd(&mut ops, 0x32);
        push_data(&mut ops, lut_slice(&PARTIAL_UPDATE_LUT, 0, 153));
        push_cmd(&mut ops, 0x37);
        let mut opt: Vec<u8> = Vec::new();
        opt.push(0x00);
        opt.push(0x00);
        opt.push(0x00);
        opt.push(0x00);
        opt.push(0x00);
        opt.push(0x40);
        opt.push(0x00);
        opt.push(0x00);
        opt.push(0x00);
        opt.push(0x00);
        proof {
            assert(opt@ =~= seq![0x00, 0x00, 0x00, 0x00, 0x00, 0x40, 0x00, 0x00, 0x00, 0x00u8]);
        }
        push_data(&mut ops, opt);
        push_cmd(&mut ops, 0x3c);
        push_data(&mut ops, vec1(0x80));
        push_cmd(&mut ops, 0x22);
        push_data(&mut ops, vec1(0xc0));
        push_cmd(&mut ops, 0x20);
        append_wait_busy(&mut ops);
        self.append_partial_window(&mut ops);
        append_wait_busy(&mut ops);
        proof {
            assert(ops_model(ops@) =~= init_partial_update_ops(
                self.spec_width(),
                self.spec_height(),
            ));
        }
        ops
    }

    /// Emits a black/white frame: the frame into both caches, then a full
    /// refresh.
    pub fn display_black_white(&self, data: &Vec<u8>) -> (ops: Vec<BusOp>)
        ensures
            ops_model(ops@) == display_black_white_ops(data@),
    {
        let mut ops: Vec<BusOp> = Vec::new();
        push_cmd(&mut ops, 0x24);
        push_data(&mut ops, vec_copy(data));
        push_cmd(&mut ops, 0x26);
        push_data(&mut ops, vec_copy(data));
        append_sync_screen(&mut ops);
        proof {
            assert(ops_model(ops@) =~= display_black_white_ops(data@));
        }
        ops
    }

    /// Emits a four-gray frame: the packed 2bpp stream split into its two
    /// planes, one per cache, then a full refresh.
    pub fn display_gray4(&self, data: &Vec<u8>) -> (ops: Vec<BusOp>)
        ensures
            ops_model(ops@) == display_gray4_ops(data@),
    {
        let (d1, d2) = parse_gray4_data(data);
        let mut ops: Vec<BusOp> = Vec::new();
        push_cmd(&mut ops, 0x24);
        push_data(&mut ops, d1);
        push_cmd(&mut ops, 0x26);
        push_data(&mut ops, d2);
        append_sync_screen(&mut ops);
        proof {
            assert(ops_model(ops@) =~= display_gray4_ops(data@));
        }
        ops
    }

    /// Emits a partial update of the panel with the given frame.
    pub fn display_partial(&self, data: &Vec<u8>) -> (ops: Vec<BusOp>)
        requires
            self.wf(),
        ensures
            ops_model(ops@) == display_partial_ops(self.spec_width(), self.spec_height(), data@),
    {
        let mut ops: Vec<BusOp> = self.init_partial_update();
        push_cmd(&mut ops, 0x24);
        push_data(&mut ops, vec_copy(data));
        append_sync_partial_screen(&mut ops);
        proof {
            assert(ops_model(ops@) =~= display_partial_ops(
                self.spec_width(),
                self.spec_height(),
                data@,
            ));
        }
        ops
    }
}

/// Builds a payload of `len` copies of one byte.
fn fill_bytes(value: u8, len: usize) -> (r: Vec<u8>)
    ensures
        r@ == Seq::new(len as nat, |i: int| value),
{
    let mut r: Vec<u8> = Vec::new();
    let mut i: usize = 0;
    while i < len
        invariant
            0 <= i <= len,
            r@ == Seq::new(len as nat, |k: int| value).take(i as int),
        decreases len - i,
    {
        proof {
            let s = Seq::new(len as nat, |k: int| value);
            assert(s.take(i + 1) =~= s.take(i as int).push(value));
        }
        r.push(value);
        i = i + 1;
    }
    proof {
        assert(Seq::new(len as nat, |k: int| value).take(len as int) =~= Seq::new(
            len as nat,
            |k: int| value,
        ));
    }
    r
}

/// Copies a frame so it can be written to more than one cache.
fn vec_copy(data: &Vec<u8>) -> (r: Vec<u8>)
    ensures
        r@ == data@,
{
    let mut r: Vec<u8> = Vec::new();
    r.extend_from_slice(data.as_slice());
    proof {
        assert(r@ =~= data@);
    }
    r
}

/// Waveform table for a full black/white refresh: 60 bytes of
/// voltage-sequence levels (five 12-byte groups), 84 bytes of
/// timing/repeat groups, 9 bytes of frame-rate and gate configuration,
/// then end-of-option, gate voltage, three source voltages and the common
/// voltage. The values are the panel vendor's and are carried verbatim.
pub const BLACK_WHITE_LUT: [u8; 159] = [
    0x80, 0x66, 0x00, 0x00, 0x00, 0x00, 0x00, 0x00, 0x40, 0x00, 0x00, 0x00,
    0x10, 0x66, 0x00, 0x00, 0x00, 0x00, 0x00, 0x00, 0x20, 0x00, 0x00, 0x00,
    0x80, 0x66, 0x00, 0x00, 0x00, 0x00, 0x00, 0x00, 0x40, 0x00, 0x00, 0x00,
    0x10, 0x66, 0x00, 0x00, 0x00, 0x00, 0x00, 0x00, 0x20, 0x00, 0x00, 0x00,
    0x00, 0x00, 0x00, 0x00, 0x00, 0x00, 0x00, 0x00, 0x00, 0x00, 0x00, 0x00,
    0x14, 0x08, 0x00, 0x00, 0x00, 0x00, 0x01,
    0x0a, 0x0a, 0x00, 0x0a, 0x0a, 0x00, 0x01,
    0x00, 0x00, 0x00, 0x00, 0x00, 0x00, 0x00,
    0x00, 0x00, 0x00, 0x00, 0x00, 0x00, 0x00,
    0x00, 0x00, 0x00, 0x00, 0x00, 0x00, 0x00,
    0x00, 0x00, 0x00, 0x00, 0x00, 0x00, 0x00,
    0x00, 0x00, 0x00, 0x00, 0x00, 0x00, 0x00,
    0x00, 0x00, 0x00, 0x00, 0x00, 0x00, 0x00,
    0x14, 0x08, 0x00, 0x01, 0x00, 0x00, 0x01,
    0x00, 0x00, 0x00, 0x00, 0x00, 0x00, 0x01,
    0x00, 0x00, 0x00, 0x00, 0x00, 0x00, 0x00,
    0x00, 0x00, 0x00, 0x00, 0x00, 0x00, 0x00,
    0x44, 0x44, 0x44, 0x44, 0x44, 0x44, 0x00, 0x00, 0x00,
    0x22, 0x17, 0x41, 0x00, 0x32, 0x36,
];

/// Waveform table for the four-gray-level refresh, same layout as
/// `BLACK_WHITE_LUT`.
pub const GRAY4_LUT: [u8; 159] = [
    0x00, 0x60, 0x00, 0x00, 0x00, 0x00, 0x00, 0x00, 0x00, 0x00, 0x00, 0x00,
    0x20, 0x60, 0x10, 0x00, 0x00, 0x00, 0x00, 0x00, 0x00, 0x00, 0x00, 0x00,
    0x28, 0x60, 0x14, 0x00, 0x00, 0x00, 0x00, 0x00, 0x00, 0x00, 0x00, 0x00,
    0x2a, 0x60, 0x15, 0x00, 0x00, 0x00, 0x00, 0x00, 0x00, 0x00, 0x00, 0x00,
    0x00, 0x90, 0x00, 0x00, 0x00, 0x00, 0x00, 0x00, 0x00, 0x00, 0x00, 0x00,
    0x00, 0x02, 0x00, 0x05, 0x14, 0x00, 0x00,
    0x1e, 0x1e, 0x00, 0x00, 0x00, 0x00, 0x01,
    0x00, 0x02, 0x00, 0x05, 0x14, 0x00, 0x00,
    0x00, 0x00, 0x00, 0x00, 0x00, 0x00, 0x00,
    0x00, 0x00, 0x00, 0x00, 0x00, 0x00, 0x00,
    0x00, 0x00, 0x00, 0x00, 0x00, 0x00, 0x00,
    0x00, 0x00, 0x00, 0x00, 0x00, 0x00, 0x00,
    0x00, 0x00, 0x00, 0x00, 0x00, 0x00, 0x00,
    0x00, 0x00, 0x00, 0x00, 0x00, 0x00, 0x00,
    0x00, 0x00, 0x00, 0x00, 0x00, 0x00, 0x00,
    0x00, 0x00, 0x00, 0x00, 0x00, 0x00, 0x00,
    0x00, 0x00, 0x00, 0x00, 0x00, 0x00, 0x00,
    0x24, 0x22, 0x22, 0x22, 0x23, 0x32, 0x00, 0x00, 0x00,
    0x22, 0x17, 0x41, 0xae, 0x32, 0x28,
];

/// Waveform table for the partial refresh: a shorter voltage swing tuned
/// to update pixels without the visible clearing flash, same layout as
/// `BLACK_WHITE_LUT`.
pub const PARTIAL_UPDATE_LUT: [u8; 159] = [
    0x00, 0x40, 0x00, 0x00, 0x00, 0x00, 0x00, 0x00, 0x00, 0x00, 0x00, 0x00,
    0x80, 0x80, 0x00, 0x00, 0x00, 0x00, 0x00, 0x00, 0x00, 0x00, 0x00, 0x00,
    0x40, 0x40, 0x00, 0x00, 0x00, 0x00, 0x00, 0x00, 0x00, 0x00, 0x00, 0x00,
    0x00, 0x80, 0x00, 0x00, 0x00, 0x00, 0x00, 0x00, 0x00, 0x00, 0x00, 0x00,
    0x00, 0x00, 0x00, 0x00, 0x00, 0x00, 0x00, 0x00, 0x00, 0x00, 0x00, 0x00,
    0x0a, 0x00, 0x00, 0x00, 0x00, 0x00, 0x02,
    0x01, 0x00, 0x00, 0x00, 0x00, 0x00, 0x00,
    0x01, 0x00, 0x00, 0x00, 0x00, 0x00, 0x00,
    0x00, 0x00, 0x00, 0x00, 0x00, 0x00, 0x00,
    0x00, 0x00, 0x00, 0x00, 0x00, 0x00, 0x00,
    0x00, 0x00, 0x00, 0x00, 0x00, 0x00, 0x00,
    0x00, 0x00, 0x00, 0x00, 0x00, 0x00, 0x00,
    0x00, 0x00, 0x00, 0x00, 0x00, 0x00, 0x00,
    0x00, 0x00, 0x00, 0x00, 0x00, 0x00, 0x00,
    0x00, 0x00, 0x00, 0x00, 0x00, 0x00, 0x00,
    0x00, 0x00, 0x00, 0x00, 0x00, 0x00, 0x00,
    0x00, 0x00, 0x00, 0x00, 0x00, 0x00, 0x00,
    0x22, 0x22, 0x22, 0x22, 0x22, 0x22, 0x00, 0x00, 0x00,
    0x22, 0x17, 0x41, 0xb0, 0x32, 0x36,
];

/// The five commands that program a 159-byte waveform table: the first
/// 153 bytes in one payload (then a busy wait), then end-of-option, gate
/// voltage, the three source voltages, and the common voltage.
pub open spec fn init_lut_ops(lut: Seq<u8>) -> Seq<BusOpModel>
    recommends
        lut.len() == 159,
{
    cmd_data(0x32, lut.subrange(0, 153)) + wait_busy_op() + cmd_data(0x3f, seq![lut[153]])
        + cmd_data(0x03, seq![lut[154]]) + cmd_data(0x04, lut.subrange(155, 158)) + cmd_data(
        0x2c,
        seq![lut[158]],
    )
}

/// The all-white frame used to clear both controller caches.
pub open spec fn all_white(w: u16, h: u16) -> Seq<u8> {
    Seq::new(((w as int / 8) * (h as int)) as nat, |i: int| 0xffu8)
}

/// Full-refresh trigger: update control 0xC7 (including the clearing
/// waveform), activate, then wait for the panel.
pub open spec fn sync_screen_ops() -> Seq<BusOpModel> {
    cmd_data(0x22, seq![0xc7u8]) + cmd_op(0x20) + wait_busy_op()
}

/// Partial-refresh trigger: update control 0x0F (skipping the clearing
/// waveform), activate, then wait for the panel.
pub open spec fn sync_partial_screen_ops() -> Seq<BusOpModel> {
    cmd_data(0x22, seq![0x0fu8]) + cmd_op(0x20) + wait_busy_op()
}

/// Clear: fill the black/white cache and the red/gray cache with the
/// all-white pattern, then run a full refresh.
pub open spec fn clear_screen_ops(w: u16, h: u16) -> Seq<BusOpModel> {
    cmd_data(0x24, all_white(w, h)) + cmd_data(0x26, all_white(w, h)) + sync_screen_ops()
}

/// Black/white configuration: driver output control, data entry mode,
/// the addressable window in x (8-pixel bytes) and y (width pixels), the
/// display update control, and the cursor origin.
pub open spec fn bw_config_ops(w: u16, h: u16) -> Seq<BusOpModel>
    recommends
        1 <= w,
        8 <= h <= 2040,
{
    cmd_data(0x01, seq![dim_lo(w), dim_hi(w), 0x00]) + cmd_data(0x11, seq![0x03u8]) + cmd_data(
        0x44,
        seq![0x00, ((h as int / 8 - 1) as u8)],
    ) + cmd_data(0x45, seq![0x00, 0x00, dim_lo(w), dim_hi(w)]) + cmd_data(
        0x21,
        seq![0x00, 0x80u8],
    ) + cmd_data(0x4e, seq![0x00u8]) + cmd_data(0x4f, seq![0x00, 0x00u8])
}

/// Four-gray configuration: like the black/white one, but with the x
/// window and cursor starting at byte 1, the window end at `h/8`, and the
/// gray update control 0x04 on opcode 0x3C.
pub open spec fn gray4_config_ops(w: u16, h: u16) -> Seq<BusOpModel>
    recommends
        1 <= w,
        8 <= h <= 2040,
{
    cmd_data(0x01, seq![dim_lo(w), dim_hi(w), 0x00]) + cmd_data(0x11, seq![0x03u8]) + cmd_data(
        0x44,
        seq![0x01, ((h as int / 8) as u8)],
    ) + cmd_data(0x45, seq![0x00, 0x00, dim_lo(w), dim_hi(w)]) + cmd_data(0x3c, seq![0x04u8])
        + cmd_data(0x4e, seq![0x01u8]) + cmd_data(0x4f, seq![0x00, 0x00u8])
}

/// The window and cursor commands re-issued for a partial update.
pub open spec fn partial_window_ops(w: u16, h: u16) -> Seq<BusOpModel>
    recommends
        1 <= w,
        8 <= h <= 2040,
{
    cmd_data(0x44, seq![0x00, ((h as int / 8 - 1) as u8)]) + cmd_data(
        0x45,
        seq![0x00, 0x00, dim_lo(w), dim_hi(w)],
    ) + cmd_data(0x4e, seq![0x00u8]) + cmd_data(0x4f, seq![0x00, 0x00u8])
}

/// Full initialization for black/white mode: power, reset, soft reset,
/// configuration, waveform table, initial clear.
pub open spec fn init_black_white_ops(w: u16, h: u16) -> Seq<BusOpModel> {
    power_up_ops() + hw_reset_ops() + wait_busy_op() + cmd_op(0x12) + wait_busy_op()
        + bw_config_ops(w, h) + wait_busy_op() + init_lut_ops(BLACK_WHITE_LUT@) + clear_screen_ops(
        w,
        h,
    ) + wait_busy_op()
}

/// Full initialization for four-gray mode, with the vendor's settle
/// delays around the waveform load and the initial clear.
pub open spec fn init_gray4_ops(w: u16, h: u16) -> Seq<BusOpModel> {
    power_up_ops() + hw_reset_ops() + wait_busy_op() + cmd_op(0x12) + wait_busy_op()
        + gray4_config_ops(w, h) + wait_busy_op() + delay_op(1000) + init_lut_ops(GRAY4_LUT@)
        + clear_screen_ops(w, h) + delay_op(1000)
}

/// Initialization for a partial update: power and reset, the partial
/// waveform table, the partial-mode option block (0x37), border waveform
/// 0x80, update control 0xC0 activated, then the window and cursor.
pub open spec fn init_partial_update_ops(w: u16, h: u16) -> Seq<BusOpModel> {
    power_up_ops() + hw_reset_ops() + wait_busy_op() + cmd_data(
        0x32,
        PARTIAL_UPDATE_LUT@.subrange(0, 153),
    ) + cmd_data(0x37, seq![0x00, 0x00, 0x00, 0x00, 0x00, 0x40, 0x00, 0x00, 0x00, 0x00u8])
        + cmd_data(0x3c, seq![0x80u8]) + cmd_data(0x22, seq![0xc0u8]) + cmd_op(0x20)
        + wait_busy_op() + partial_window_ops(w, h) + wait_busy_op()
}

/// A black/white frame shown: the frame is written to both the
/// black/white cache and the red/gray cache (so the controller's
/// previous-frame cache matches and the next partial update shows no
/// ghost), then a full refresh runs.
pub open spec fn display_black_white_ops(frame: Seq<u8>) -> Seq<BusOpModel> {
    cmd_data(0x24, frame) + cmd_data(0x26, frame) + sync_screen_ops()
}

/// A four-gray frame shown: plane A to the black/white cache, plane B to
/// the red/gray cache, then a full refresh.
pub open spec fn display_gray4_ops(frame: Seq<u8>) -> Seq<BusOpModel> {
    cmd_data(0x24, plane_a_seq(frame)) + cmd_data(0x26, plane_b_seq(frame)) + sync_screen_ops()
}

/// A partial update: partial initialization, the frame into the
/// black/white cache, then a partial refresh.
pub open spec fn display_partial_ops(w: u16, h: u16, frame: Seq<u8>) -> Seq<BusOpModel> {
    init_partial_update_ops(w, h) + cmd_data(0x24, frame) + sync_partial_screen_ops()
}

/// Deep sleep: the panel retains its image at near-zero power.
pub open spec fn halt_ops() -> Seq<BusOpModel> {
    cmd_data(0x10, seq![0x01u8])
}

/// Copies a range of a waveform table into a payload.
fn lut_slice(lut: &[u8; 159], from: usize, to: usize) -> (r: Vec<u8>)
    requires
        from <= to <= 159,
    ensures
        r@ == lut@.subrange(from as int, to as int),
{
    let mut r: Vec<u8> = Vec::new();
    let mut i = from;
    while i < to
        invariant
            from <= i <= to <= 159,
            r@ == lut@.subrange(from as int, i as int),
        decreases to - i,
    {
        proof {
            assert(lut@.subrange(from as int, i + 1) =~= lut@.subrange(from as int, i as int).push(
                lut@[i as int],
            ));
        }
        r.push(lut[i]);
        i = i + 1;
    }
    r
}

/// Appends the power-up steps.
fn append_power_up(ops: &mut Vec<BusOp>)
    ensures
        ops_model(final(ops)@) == ops_model(old(ops)@) + power_up_ops(),
{
    let ghost before = ops@;
    push_op(ops, BusOp::PowerOn);
    push_op(ops, BusOp::DelayMs(100));
    proof {
        assert(ops_model(ops@) =~= ops_model(before) + power_up_ops());
    }
}

/// Appends the hardware reset pulse.
fn append_hw_reset(ops: &mut Vec<BusOp>)
    ensures
        ops_model(final(ops)@) == ops_model(old(ops)@) + hw_reset_ops(),
{
    let ghost before = ops@;
    push_op(ops, BusOp::ResetHigh);
    push_op(ops, BusOp::DelayMs(10));
    push_op(ops, BusOp::ResetLow);
    push_op(ops, BusOp::DelayMs(2));
    push_op(ops, BusOp::ResetHigh);
    push_op(ops, BusOp::DelayMs(100));
    proof {
        assert(ops_model(ops@) =~= ops_model(before) + hw_reset_ops());
    }
}

/// Appends one busy wait.
fn append_wait_busy(ops: &mut Vec<BusOp>)
    ensures
        ops_model(final(ops)@) == ops_model(old(ops)@) + wait_busy_op(),
{
    let ghost before = ops@;
    push_op(ops, BusOp::WaitBusy);
    proof {
        assert(ops_model(ops@) =~= ops_model(before) + wait_busy_op());
    }
}

/// Appends the five waveform-table commands.
fn append_init_lut(ops: &mut Vec<BusOp>, lut: &[u8; 159])
    ensures
        ops_model(final(ops)@) == ops_model(old(ops)@) + init_lut_ops(lut@),
{
    let ghost before = ops@;
    push_cmd(ops, 0x32);
    push_data(ops, lut_slice(lut, 0, 153));
    append_wait_busy(ops);
    push_cmd(ops, 0x3f);
    push_data(ops, vec1(lut[153]));
    push_cmd(ops, 0x03);
    push_data(ops, vec1(lut[154]));
    push_cmd(ops, 0x04);
    push_data(ops, lut_slice(lut, 155, 158));
    push_cmd(ops, 0x2c);
    push_data(ops, vec1(lut[158]));
    proof {
        assert(ops_model(ops@) =~= ops_model(before) + init_lut_ops(lut@));
    }
}

/// Appends the full-refresh trigger.
fn append_sync_screen(ops: &mut Vec<BusOp>)
    ensures
        ops_model(final(ops)@) == ops_model(old(ops)@) + sync_screen_ops(),
{
    let ghost before = ops@;
    push_cmd(ops, 0x22);
    push_data(ops, vec1(0xc7));
    push_cmd(ops, 0x20);
    append_wait_busy(ops);
    proof {
        assert(ops_model(ops@) =~= ops_model(before) + sync_screen_ops());
    }
}

/// Appends the partial-refresh trigger.
fn append_sync_partial_screen(ops: &mut Vec<BusOp>)
    ensures
        ops_model(final(ops)@) == ops_model(old(ops)@) + sync_partial_screen_ops(),
{
    let ghost before = ops@;
    push_cmd(ops, 0x22);
    push_data(ops, vec1(0x0f));
    push_cmd(ops, 0x20);
    append_wait_busy(ops);
    proof {
        assert(ops_model(ops@) =~= ops_model(before) + sync_partial_screen_ops());
    }
}

/// Bytes of byte 0 of a pair that land in plane A (bits 7, 5, 3, 1 of the
/// 2bpp stream), packed into the high nibble; plane A's low nibble comes
/// from the same bits of byte 1.
pub open spec fn plane_a_byte(a: u8, b: u8) -> u8 {
    (a & 0x80) | ((a & 0x20) << 1) | ((a & 0x08) << 2) | ((a & 0x02) << 3) | ((b & 0x80) >> 4) | (
    (b & 0x20) >> 3) | ((b & 0x08) >> 2) | ((b & 0x02) >> 1)
}

/// Bits 6, 4, 2, 0 of the pair's two bytes, packed the same way into
/// plane B.
pub open spec fn plane_b_byte(a: u8, b: u8) -> u8 {
    ((a & 0x40) << 1) | ((a & 0x10) << 2) | ((a & 0x04) << 3) | ((a & 0x01) << 4) | ((b & 0x40)
        >> 3) | ((b & 0x10) >> 2) | ((b & 0x04) >> 1) | (b & 0x01)
}

/// Plane A of a packed 2bpp stream, one byte per input byte pair; a
/// trailing odd byte is dropped.
pub open spec fn plane_a_seq(data: Seq<u8>) -> Seq<u8> {
    Seq::new((data.len() / 2) as nat, |i: int| plane_a_byte(data[2 * i], data[2 * i + 1]))
}

/// Plane B of a packed 2bpp stream.
pub open spec fn plane_b_seq(data: Seq<u8>) -> Seq<u8> {
    Seq::new((data.len() / 2) as nat, |i: int| plane_b_byte(data[2 * i], data[2 * i + 1]))
}

/// Byte 0 of a pair, reassembled from one plane-A and one plane-B byte.
pub open spec fn recombine_hi(d1: u8, d2: u8) -> u8 {
    (d1 & 0x80) | ((d2 & 0x80) >> 1) | ((d1 & 0x40) >> 1) | ((d2 & 0x40) >> 2) | ((d1 & 0x20)
        >> 2) | ((d2 & 0x20) >> 3) | ((d1 & 0x10) >> 3) | ((d2 & 0x10) >> 4)
}

/// Byte 1 of a pair, reassembled from one plane-A and one plane-B byte.
pub open spec fn recombine_lo(d1: u8, d2: u8) -> u8 {
    ((d1 & 0x08) << 4) | ((d2 & 0x08) << 3) | ((d1 & 0x04) << 3) | ((d2 & 0x04) << 2) | ((d1
        & 0x02) << 2) | ((d2 & 0x02) << 1) | ((d1 & 0x01) << 1) | (d2 & 0x01)
}

/// The 2bpp stream reassembled from its two planes.
pub open spec fn recombine_seq(d1: Seq<u8>, d2: Seq<u8>) -> Seq<u8>
    recommends
        d1.len() == d2.len(),
{
    Seq::new(
        (2 * d1.len()) as nat,
        |i: int|
            if i % 2 == 0 {
                recombine_hi(d1[i / 2], d2[i / 2])
            } else {
                recombine_lo(d1[i / 2], d2[i / 2])
            },
    )
}

/// LAW (plane split round-trips, byte level): reassembling one byte pair
/// from its plane bytes gives the pair back exactly.
pub proof fn lemma_plane_bytes_roundtrip(a: u8, b: u8)
    by (bit_vector)
    ensures
        recombine_hi(plane_a_byte(a, b), plane_b_byte(a, b)) == a,
        recombine_lo(plane_a_byte(a, b), plane_b_byte(a, b)) == b,
{
}

/// LAW (plane split round-trips): for a 2bpp stream of even length,
/// re-interleaving planes A and B reproduces the stream bit for bit.
pub proof fn lemma_dual_plane_roundtrip(data: Seq<u8>)
    requires
        data.len() % 2 == 0,
    ensures
        recombine_seq(plane_a_seq(data), plane_b_seq(data)) == data,
{
    let d1 = plane_a_seq(data);
    let d2 = plane_b_seq(data);
    let r = recombine_seq(d1, d2);
    assert(2 * (data.len() as int / 2) == data.len());
    assert forall|i: int| 0 <= i < data.len() implies r[i] == data[i] by {
        let p = i / 2;
        assert(0 <= p < d1.len());
        assert(d1[p] == plane_a_byte(data[2 * p], data[2 * p + 1]));
        assert(d2[p] == plane_b_byte(data[2 * p], data[2 * p + 1]));
        lemma_plane_bytes_roundtrip(data[2 * p], data[2 * p + 1]);
        if i % 2 == 0 {
            assert(2 * p == i);
        } else {
            assert(2 * p + 1 == i);
        }
    }
    assert(r =~= data);
}

/// Splits a packed 2bpp stream into the two 1-bit planes the controller's
/// gray-level command expects, two input bytes per plane byte. The
/// controller combines the planes with its own logic into four voltage
/// levels, so this exact bit redistribution is part of the wire format.
pub fn parse_gray4_data(data: &Vec<u8>) -> (r: (Vec<u8>, Vec<u8>))
    ensures
        r.0@ == plane_a_seq(data@),
        r.1@ == plane_b_seq(data@),
{
    let n = data.len() / 2;
    let mut d1: Vec<u8> = Vec::new();
    let mut d2: Vec<u8> = Vec::new();
    let mut i: usize = 0;
    while i < n
        invariant
            n == data@.len() / 2,
            data@.len() <= usize::MAX as int,
            0 <= i <= n,
            d1@ == plane_a_seq(data@).take(i as int),
            d2@ == plane_b_seq(data@).take(i as int),
        decreases n - i,
    {
        proof {
            assert(2 * (i as int) + 1 < data@.len());
        }
        let a = data[2 * i];
        let b = data[2 * i + 1];
        let pa: u8 = (a & 0x80) | ((a & 0x20) << 1) | ((a & 0x08) << 2) | ((a & 0x02) << 3) | ((b
            & 0x80) >> 4) | ((b & 0x20) >> 3) | ((b & 0x08) >> 2) | ((b & 0x02) >> 1);
        let pb: u8 = ((a & 0x40) << 1) | ((a & 0x10) << 2) | ((a & 0x04) << 3) | ((a & 0x01) << 4)
            | ((b & 0x40) >> 3) | ((b & 0x10) >> 2) | ((b & 0x04) >> 1) | (b & 0x01);
        proof {
            assert(pa == plane_a_byte(a, b));
            assert(pb == plane_b_byte(a, b));
            assert(plane_a_seq(data@).take(i + 1) =~= plane_a_seq(data@).take(i as int).push(
                plane_a_seq(data@)[i as int],
            ));
            assert(plane_b_seq(data@).take(i + 1) =~= plane_b_seq(data@).take(i as int).push(
                plane_b_seq(data@)[i as int],
            ));
        }
        d1.push(pa);
        d2.push(pb);
        i = i + 1;
    }
    proof {
        assert(plane_a_seq(data@).take(n as int) =~= plane_a_seq(data@));
        assert(plane_b_seq(data@).take(n as int) =~= plane_b_seq(data@));
    }
    (d1, d2)
}

/// Reassembles a packed 2bpp stream from its two planes.
pub fn recombine_planes(d1: &Vec<u8>, d2: &Vec<u8>) -> (r: Vec<u8>)
    requires
        d1@.len() == d2@.len(),
        2 * d1@.len() <= usize::MAX as int,
    ensures
        r@ == recombine_seq(d1@, d2@),
{
    let n = d1.len();
    let mut r: Vec<u8> = Vec::new();
    let mut i: usize = 0;
    while i < n
        invariant
            n == d1@.len() == d2@.len(),
            2 * (n as int) <= usize::MAX as int,
            0 <= i <= n,
            r@ == recombine_seq(d1@, d2@).take(2 * i as int),
        decreases n - i,
    {
        let a = d1[i];
        let b = d2[i];
        let hi: u8 = (a & 0x80) | ((b & 0x80) >> 1) | ((a & 0x40) >> 1) | ((b & 0x40) >> 2) | ((a
            & 0x20) >> 2) | ((b & 0x20) >> 3) | ((a & 0x10) >> 3) | ((b & 0x10) >> 4);
        let lo: u8 = ((a & 0x08) << 4) | ((b & 0x08) << 3) | ((a & 0x04) << 3) | ((b & 0x04) << 2)
            | ((a & 0x02) << 2) | ((b & 0x02) << 1) | ((a & 0x01) << 1) | (b & 0x01);
        proof {
            let s = recombine_seq(d1@, d2@);
            assert(hi == recombine_hi(a, b));
            assert(lo == recombine_lo(a, b));
            assert((2 * (i as int)) / 2 == i as int);
            assert((2 * (i as int) + 1) / 2 == i as int);
            assert(s[2 * (i as int)] == recombine_hi(a, b));
            assert(s[2 * (i as int) + 1] == recombine_lo(a, b));
            assert(s.take(2 * (i + 1) as int) =~= s.take(2 * i as int).push(s[2 * (i as int)]).push(
                s[2 * (i as int) + 1],
            ));
        }
        r.push(hi);
        r.push(lo);
        i = i + 1;
    }
    proof {
        assert(recombine_seq(d1@, d2@).take(2 * n as int) =~= recombine_seq(d1@, d2@));
    }
    r
}

} // verus!
