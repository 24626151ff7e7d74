//! Polled ATA (IDE) drives: two channels of two drives each, driven through
//! I/O ports with programmed transfers of 16-bit words.
//!
//! Every wait for the drive is bounded: a drive that stays busy ends the
//! command with `DriveError::Timeout`.
use vstd::prelude::*;
use crate::bytes::u16_bytes;
use crate::disk::{identify_fields, DiskDriver, DiskIdentifyInfo, DriveError, MAX_SECTORS_PER_REQUEST, SECTOR_BYTES, SECTOR_WORDS};

verus! {

/// Data register offset.
pub const ATA_REGISTER_DATA: u16 = 0x00;
/// Error register offset.
pub const ATA_REGISTER_ERROR: u16 = 0x01;
/// Sector count register offset.
pub const ATA_REGISTER_SECTOR_COUNT0: u16 = 0x02;
/// LBA bits 0..7 register offset.
pub const ATA_REGISTER_LBA0: u16 = 0x03;
/// LBA bits 8..15 register offset.
pub const ATA_REGISTER_LBA1: u16 = 0x04;
/// LBA bits 16..23 register offset.
pub const ATA_REGISTER_LBA2: u16 = 0x05;
/// Device/head register offset.
pub const ATA_REGISTER_DEVICE: u16 = 0x06;
/// Command register offset (written).
pub const ATA_REGISTER_COMMAND: u16 = 0x07;
/// Status register offset (read).
pub const ATA_REGISTER_STATUS: u16 = 0x07;

/// Base port of the primary channel.
pub const PORT_IDE0_BASE: u16 = 0x1F0;
/// Base port of the secondary channel.
pub const PORT_IDE1_BASE: u16 = 0x170;
/// Control port of the primary channel.
pub const PORT_IDE0_CONTROL: u16 = 0x3F6;
/// Control port of the secondary channel.
pub const PORT_IDE1_CONTROL: u16 = 0x376;

/// Command: read sectors.
pub const ATA_CMD_READ_PIO: u8 = 0x20;
/// Command: write sectors.
pub const ATA_CMD_WRITE_PIO: u8 = 0x30;
/// Command: identify the drive.
pub const ATA_CMD_IDENTIFY: u8 = 0xEC;

/// Status bit: busy.
pub const ATA_STATUS_BUSY: u8 = 0x80;
/// Status bit: ready.
pub const ATA_STATUS_READY: u8 = 0x40;
/// Status bit: write fault.
pub const ATA_STATUS_WRITE_FAULT: u8 = 0x20;
/// Status bit: seek complete.
pub const ATA_STATUS_SEEK_COMPLETE: u8 = 0x10;
/// Status bit: data request.
pub const ATA_STATUS_REQUEST_READY: u8 = 0x08;
/// Status bit: error.
pub const ATA_STATUS_ERROR: u8 = 0x01;

/// How many times a wait reads the status register before giving up.
pub const ATA_MAX_POLLS: u32 = 100_000;

/// The sectors that 28-bit addressing reaches.
pub const ATA_LBA28_LIMIT: u64 = 0x1000_0000;

/// Byte and word access to I/O ports. The values read are whatever the
/// hardware answers: nothing is assumed of them.
pub trait PortIo {
    fn in_u8(&mut self, port: u16) -> u8;

    fn out_u8(&mut self, port: u16, value: u8);

    fn in_u16(&mut self, port: u16) -> u16;

    fn out_u16(&mut self, port: u16, value: u16);
}

/// The status is still busy.
pub open spec fn is_busy(status: u8) -> bool {
    status & ATA_STATUS_BUSY != 0
}

/// The status reports an error or a write fault.
pub open spec fn is_failed(status: u8) -> bool {
    status & (ATA_STATUS_WRITE_FAULT | ATA_STATUS_ERROR) != 0
}

/// Whether the status is still busy.
pub fn status_busy(status: u8) -> (r: bool)
    ensures
        r == is_busy(status),
{
    status & ATA_STATUS_BUSY != 0
}

/// Whether the status reports an error or a write fault.
pub fn status_failed(status: u8) -> (r: bool)
    ensures
        r == is_failed(status),
{
    status & (ATA_STATUS_WRITE_FAULT | ATA_STATUS_ERROR) != 0
}

/// The device/head register value that selects drive `index` in LBA mode
/// with LBA bits 24..27 of `sector`.
pub open spec fn device_select(index: u8, sector: u64) -> u8 {
    (0xE0u8 | ((index & 1) << 4u8) | ((sector >> 24u64) & 0xF) as u8) as u8
}

/// One access to an I/O port, with the value moved.
#[derive(Clone, Copy, Debug, PartialEq, Eq, Structural)]
pub enum PortEvent {
    In8 { port: u16, value: u8 },
    Out8 { port: u16, value: u8 },
    In16 { port: u16, value: u16 },
    Out16 { port: u16, value: u16 },
}

/// Ports together with the record of every access made through them, the
/// values read included.
pub struct LoggedPorts<P: PortIo> {
    pub io: P,
    pub events: Ghost<Seq<PortEvent>>,
}

impl<P: PortIo> LoggedPorts<P> {
    /// Ports with nothing recorded yet.
    pub fn new(io: P) -> (r: LoggedPorts<P>)
        ensures
            r.events@ == Seq::<PortEvent>::empty(),
    {
        LoggedPorts { io, events: Ghost(Seq::empty()) }
    }

    pub fn in_u8(&mut self, port: u16) -> (r: u8)
        ensures
            final(self).events@ == old(self).events@.push(PortEvent::In8 { port, value: r }),
    {
        let value: u8 = self.io.in_u8(port);
        self.events = Ghost(self.events@.push(PortEvent::In8 { port, value }));
        value
    }

    pub fn out_u8(&mut self, port: u16, value: u8)
        ensures
            final(self).events@ == old(self).events@.push(PortEvent::Out8 { port, value }),
    {
        self.io.out_u8(port, value);
        self.events = Ghost(self.events@.push(PortEvent::Out8 { port, value }));
    }

    pub fn in_u16(&mut self, port: u16) -> (r: u16)
        ensures
            final(self).events@ == old(self).events@.push(PortEvent::In16 { port, value: r }),
    {
        let value: u16 = self.io.in_u16(port);
        self.events = Ghost(self.events@.push(PortEvent::In16 { port, value }));
        value
    }

    pub fn out_u16(&mut self, port: u16, value: u16)
        ensures
            final(self).events@ == old(self).events@.push(PortEvent::Out16 { port, value }),
    {
        self.io.out_u16(port, value);
        self.events = Ghost(self.events@.push(PortEvent::Out16 { port, value }));
    }
}

/// `now` continues the record `before`.
pub open spec fn extends(now: Seq<PortEvent>, before: Seq<PortEvent>) -> bool {
    before.len() <= now.len() && now.take(before.len() as int) == before
}

/// The accesses recorded in `now` after `before`.
pub open spec fn after(now: Seq<PortEvent>, before: Seq<PortEvent>) -> Seq<PortEvent> {
    now.skip(before.len() as int)
}

/// The byte writes among `ev`, in order.
pub open spec fn outs8(ev: Seq<PortEvent>) -> Seq<(u16, u8)>
    decreases ev.len(),
{
    if ev.len() == 0 {
        Seq::empty()
    } else {
        outs8(ev.drop_last()) + match ev.last() {
            PortEvent::Out8 { port, value } => seq![(port, value)],
            _ => Seq::empty(),
        }
    }
}

/// The words read among `ev`, in order.
pub open spec fn ins16(ev: Seq<PortEvent>) -> Seq<u16>
    decreases ev.len(),
{
    if ev.len() == 0 {
        Seq::empty()
    } else {
        ins16(ev.drop_last()) + match ev.last() {
            PortEvent::In16 { port, value } => seq![value],
            _ => Seq::empty(),
        }
    }
}

/// The words written among `ev`, in order.
pub open spec fn outs16(ev: Seq<PortEvent>) -> Seq<u16>
    decreases ev.len(),
{
    if ev.len() == 0 {
        Seq::empty()
    } else {
        outs16(ev.drop_last()) + match ev.last() {
            PortEvent::Out16 { port, value } => seq![value],
            _ => Seq::empty(),
        }
    }
}

/// `e` reads the status register of the channel at `base`.
pub open spec fn is_status_read(e: PortEvent, base: u16) -> bool {
    match e {
        PortEvent::In8 { port, value } => port == base + ATA_REGISTER_STATUS,
        _ => false,
    }
}

/// The value that a read event got.
pub open spec fn read_value(e: PortEvent) -> u8 {
    match e {
        PortEvent::In8 { port, value } => value,
        _ => 0,
    }
}

/// `e` reads a status that is no longer busy.
pub open spec fn is_ready_read(e: PortEvent, base: u16) -> bool {
    is_status_read(e, base) && !is_busy(read_value(e))
}

/// Some access of `ev` found the drive not busy.
pub open spec fn ready_seen(ev: Seq<PortEvent>, base: u16) -> bool {
    exists|i: int| 0 <= i < ev.len() && is_ready_read(#[trigger] ev[i], base)
}

/// `ev` ends with `ATA_MAX_POLLS` status reads that all found the drive busy.
pub open spec fn timed_out(ev: Seq<PortEvent>, base: u16) -> bool {
    ev.len() >= ATA_MAX_POLLS && forall|i: int|
        ev.len() - ATA_MAX_POLLS <= i < ev.len() ==> is_status_read(#[trigger] ev[i], base) && is_busy(
            read_value(ev[i]),
        )
}

/// `ev` ends with a status read that found an error or a write fault.
pub open spec fn faulted(ev: Seq<PortEvent>, base: u16) -> bool {
    ev.len() >= 1 && is_ready_read(ev.last(), base) && is_failed(read_value(ev.last()))
}

/// Every access of `ev` is a status read.
pub open spec fn all_status(ev: Seq<PortEvent>, base: u16) -> bool {
    forall|i: int| 0 <= i < ev.len() ==> is_status_read(#[trigger] ev[i], base)
}

/// Byte `k` of `words` laid out little-endian.
pub open spec fn byte_of_words(words: Seq<u16>, k: int) -> u8 {
    if k % 2 == 0 {
        (words[k / 2] % 256) as u8
    } else {
        (words[k / 2] / 256) as u8
    }
}

/// `words` laid out little-endian.
pub open spec fn words_bytes(words: Seq<u16>) -> Seq<u8> {
    Seq::new(2 * words.len(), |k: int| byte_of_words(words, k))
}

/// The little-endian word at byte `2 * k` of `b`.
pub open spec fn word_of_bytes(b: Seq<u8>, k: int) -> u16 {
    (b[2 * k] + 256 * b[2 * k + 1]) as u16
}

proof fn lemma_filters_concat(a: Seq<PortEvent>, b: Seq<PortEvent>)
    ensures
        outs8(a + b) == outs8(a) + outs8(b),
        ins16(a + b) == ins16(a) + ins16(b),
        outs16(a + b) == outs16(a) + outs16(b),
    decreases b.len(),
{
    if b.len() == 0 {
        assert(a + b =~= a);
        assert(outs8(a) + outs8(b) =~= outs8(a));
        assert(ins16(a) + ins16(b) =~= ins16(a));
        assert(outs16(a) + outs16(b) =~= outs16(a));
    } else {
        lemma_filters_concat(a, b.drop_last());
        assert((a + b).drop_last() =~= a + b.drop_last());
        assert((a + b).last() == b.last());
        assert(outs8(a + b) =~= outs8(a) + outs8(b));
        assert(ins16(a + b) =~= ins16(a) + ins16(b));
        assert(outs16(a + b) =~= outs16(a) + outs16(b));
    }
}

proof fn lemma_status_filters(ev: Seq<PortEvent>, base: u16)
    requires
        all_status(ev, base),
    ensures
        outs8(ev) == Seq::<(u16, u8)>::empty(),
        ins16(ev) == Seq::<u16>::empty(),
        outs16(ev) == Seq::<u16>::empty(),
    decreases ev.len(),
{
    if ev.len() > 0 {
        assert(is_status_read(ev[ev.len() - 1], base));
        assert forall|i: int| 0 <= i < ev.drop_last().len() implies is_status_read(#[trigger] ev.drop_last()[i], base) by {
            assert(ev.drop_last()[i] == ev[i]);
        }
        lemma_status_filters(ev.drop_last(), base);
    }
}

proof fn lemma_after_chain(a: Seq<PortEvent>, b: Seq<PortEvent>, c: Seq<PortEvent>)
    requires
        extends(b, a),
        extends(c, b),
    ensures
        extends(c, a),
        after(c, a) == after(b, a) + after(c, b),
{
    assert(c.take(a.len() as int) =~= b.take(a.len() as int)) by {
        assert forall|i: int| 0 <= i < a.len() implies c[i] == b[i] by {
            assert(c.take(b.len() as int)[i] == b[i]);
        }
    }
    assert(after(c, a) =~= after(b, a) + after(c, b)) by {
        assert forall|i: int| 0 <= i < after(c, a).len() implies after(c, a)[i] == (after(b, a) + after(c, b))[i] by {
            if i < b.len() - a.len() {
                assert(c.take(b.len() as int)[a.len() + i] == b[a.len() + i]);
            }
        }
    }
}

proof fn lemma_ready_seen_grows(a: Seq<PortEvent>, b: Seq<PortEvent>, base: u16)
    ensures
        ready_seen(a, base) ==> ready_seen(a + b, base),
        ready_seen(b, base) ==> ready_seen(a + b, base),
{
    if ready_seen(a, base) {
        let i = choose|i: int| 0 <= i < a.len() && is_ready_read(#[trigger] a[i], base);
        assert((a + b)[i] == a[i]);
    }
    if ready_seen(b, base) {
        let i = choose|i: int| 0 <= i < b.len() && is_ready_read(#[trigger] b[i], base);
        assert((a + b)[a.len() + i] == b[i]);
    }
}

/// What a byte write event wrote, as a pair.
pub open spec fn out8_pair(e: PortEvent) -> (u16, u8) {
    match e {
        PortEvent::Out8 { port, value } => (port, value),
        _ => (0u16, 0u8),
    }
}

proof fn lemma_all_out8(ev: Seq<PortEvent>)
    requires
        forall|i: int| 0 <= i < ev.len() ==> (#[trigger] ev[i]) is Out8,
    ensures
        outs8(ev) == Seq::new(ev.len(), |i: int| out8_pair(ev[i])),
        ins16(ev) == Seq::<u16>::empty(),
        outs16(ev) == Seq::<u16>::empty(),
    decreases ev.len(),
{
    if ev.len() > 0 {
        let p = ev.drop_last();
        assert forall|i: int| 0 <= i < p.len() implies (#[trigger] p[i]) is Out8 by {
            assert(p[i] == ev[i]);
        }
        lemma_all_out8(p);
        assert(ev[ev.len() - 1] is Out8);
        assert(outs8(ev) =~= Seq::new(ev.len(), |i: int| out8_pair(ev[i])));
    }
}

/// `ev` ends with a status read that found no drive: a zero status, or an
/// error or a write fault.
pub open spec fn no_device_seen(ev: Seq<PortEvent>, base: u16) -> bool {
    ev.len() >= 1 && is_status_read(ev.last(), base) && (read_value(ev.last()) == 0 || is_failed(
        read_value(ev.last()),
    ))
}

/// Joining two stretches of record: the filters join, a ready status in
/// either is seen in both, and what the second ends with, the whole ends
/// with.
proof fn lemma_step(start: Seq<PortEvent>, mid: Seq<PortEvent>, now: Seq<PortEvent>, base: u16)
    requires
        extends(mid, start),
        extends(now, mid),
    ensures
        extends(now, start),
        after(now, start) == after(mid, start) + after(now, mid),
        outs8(after(now, start)) == outs8(after(mid, start)) + outs8(after(now, mid)),
        ins16(after(now, start)) == ins16(after(mid, start)) + ins16(after(now, mid)),
        outs16(after(now, start)) == outs16(after(mid, start)) + outs16(after(now, mid)),
        ready_seen(after(mid, start), base) ==> ready_seen(after(now, start), base),
        ready_seen(after(now, mid), base) ==> ready_seen(after(now, start), base),
        timed_out(after(now, mid), base) ==> timed_out(after(now, start), base),
        faulted(after(now, mid), base) ==> faulted(after(now, start), base),
        no_device_seen(after(now, mid), base) ==> no_device_seen(after(now, start), base),
{
    lemma_after_chain(start, mid, now);
    let a = after(mid, start);
    let b = after(now, mid);
    lemma_filters_concat(a, b);
    lemma_ready_seen_grows(a, b, base);
    if b.len() >= 1 {
        assert((a + b).last() == b.last());
    }
    if timed_out(b, base) {
        assert forall|i: int| (a + b).len() - ATA_MAX_POLLS <= i < (a + b).len() implies is_status_read(
            #[trigger] (a + b)[i],
            base,
        ) && is_busy(read_value((a + b)[i])) by {
            assert((a + b)[i] == b[i - a.len()]);
        }
    }
}

proof fn lemma_extends_push(before: Seq<PortEvent>, start: Seq<PortEvent>, e: PortEvent)
    requires
        extends(before, start),
    ensures
        extends(before.push(e), start),
        after(before.push(e), start) == after(before, start).push(e),
{
    assert(before.push(e).take(start.len() as int) =~= start) by {
        assert forall|i: int| 0 <= i < start.len() implies before.push(e)[i] == start[i] by {
            assert(before.take(start.len() as int)[i] == start[i]);
        }
    }
    assert(after(before.push(e), start) =~= after(before, start).push(e));
}

proof fn lemma_extends_refl(s: Seq<PortEvent>)
    ensures
        extends(s, s),
        after(s, s) == Seq::<PortEvent>::empty(),
{
    assert(s.take(s.len() as int) =~= s);
    assert(after(s, s) =~= Seq::<PortEvent>::empty());
}

/// The byte writes that select drive `d` and sectors `sector ..
/// sector + count`: interrupts on, count, three LBA bytes, device/head.
pub open spec fn select_writes(d: IdeDiskDriver, sector: u64, count: u8) -> Seq<(u16, u8)> {
    seq![
        (d.port_control, 0u8),
        ((d.port_base + ATA_REGISTER_SECTOR_COUNT0) as u16, count),
        ((d.port_base + ATA_REGISTER_LBA0) as u16, (sector % 256) as u8),
        ((d.port_base + ATA_REGISTER_LBA1) as u16, ((sector / 256) % 256) as u8),
        ((d.port_base + ATA_REGISTER_LBA2) as u16, ((sector / 65536) % 256) as u8),
        ((d.port_base + ATA_REGISTER_DEVICE) as u16, device_select(d.index, sector)),
    ]
}

/// The byte writes of a command on sectors: selection, then the command.
pub open spec fn command_writes(d: IdeDiskDriver, sector: u64, count: u8, command: u8) -> Seq<(u16, u8)> {
    select_writes(d, sector, count).push(((d.port_base + ATA_REGISTER_COMMAND) as u16, command))
}

/// The device/head value that selects drive `index` for IDENTIFY.
pub open spec fn identify_select(index: u8) -> u8 {
    (0xE0u8 | ((index & 1) << 4u8)) as u8
}

/// One of the four drives: its slot and its channel's ports.
#[derive(Clone, Copy, Debug)]
pub struct IdeDiskDriver {
    pub index: u8,
    pub port_base: u16,
    pub port_control: u16,
}

impl IdeDiskDriver {
    /// Drive `index`: 0 and 1 are master and slave of the primary channel,
    /// 2 and 3 of the secondary.
    pub fn new(index: u8) -> (r: IdeDiskDriver)
        requires
            index < 4,
        ensures
            r.index == index,
            r.port_base == if index < 2 { PORT_IDE0_BASE } else { PORT_IDE1_BASE },
            r.port_control == if index < 2 { PORT_IDE0_CONTROL } else { PORT_IDE1_CONTROL },
            r.wf(),
    {
        if index < 2 {
            IdeDiskDriver { index, port_base: PORT_IDE0_BASE, port_control: PORT_IDE0_CONTROL }
        } else {
            IdeDiskDriver { index, port_base: PORT_IDE1_BASE, port_control: PORT_IDE1_CONTROL }
        }
    }

    /// The ports of this drive do not wrap around.
    pub open spec fn wf(&self) -> bool {
        self.port_base <= 0xFFF0
    }

    /// The device/head value that selects this drive for `sector`.
    pub fn device_register(&self, sector: u64) -> (r: u8)
        ensures
            r == device_select(self.index, sector),
    {
        0xE0u8 | ((self.index & 1) << 4u8) | ((sector >> 24u64) & 0xF) as u8
    }

    /// Reads the status register until the drive is not busy, at most
    /// `ATA_MAX_POLLS` times; returns the last status read, or `Timeout`
    /// when every read found the drive busy.
    pub fn wait<P: PortIo>(&self, io: &mut LoggedPorts<P>) -> (r: Result<u8, DriveError>)
        requires
            self.wf(),
        ensures
            extends(final(io).events@, old(io).events@),
            ({
                let ev = after(final(io).events@, old(io).events@);
                &&& all_status(ev, self.port_base)
                &&& 1 <= ev.len() <= ATA_MAX_POLLS
                &&& forall|i: int| 0 <= i < ev.len() - 1 ==> is_busy(read_value(#[trigger] ev[i]))
                &&& r is Ok ==> is_ready_read(ev.last(), self.port_base) && r->Ok_0 == read_value(ev.last())
                    && ready_seen(ev, self.port_base)
                &&& r is Err ==> r->Err_0 == DriveError::Timeout && timed_out(ev, self.port_base)
                &&& !ready_seen(ev, self.port_base) ==> r == Err::<u8, DriveError>(DriveError::Timeout)
            }),
    {
        let ghost start = io.events@;
        proof {
            lemma_extends_refl(start);
        }
        let mut polls: u32 = 0;
        loop
            invariant
                self.wf(),
                polls < ATA_MAX_POLLS,
                extends(io.events@, start),
                start == old(io).events@,
                after(io.events@, start).len() == polls,
                all_status(after(io.events@, start), self.port_base),
                forall|i: int| 0 <= i < polls ==> is_busy(read_value(#[trigger] after(io.events@, start)[i])),
            decreases ATA_MAX_POLLS - polls,
        {
            let ghost before = io.events@;
            let status: u8 = io.in_u8(self.port_base + ATA_REGISTER_STATUS);
            let ghost ev = after(io.events@, start);
            proof {
                let e = PortEvent::In8 { port: (self.port_base + ATA_REGISTER_STATUS) as u16, value: status };
                lemma_extends_push(before, start, e);
                assert(ev[ev.len() - 1] == e);
                assert forall|i: int| 0 <= i < ev.len() implies is_status_read(#[trigger] ev[i], self.port_base) by {
                    if i < ev.len() - 1 {
                        assert(ev[i] == after(before, start)[i]);
                    }
                }
                assert forall|i: int| 0 <= i < polls implies is_busy(read_value(#[trigger] ev[i])) by {
                    assert(ev[i] == after(before, start)[i]);
                }
            }
            if !status_busy(status) {
                proof {
                    assert(is_ready_read(ev[ev.len() - 1], self.port_base));
                }
                return Ok(status);
            }
            polls = polls + 1;
            if polls == ATA_MAX_POLLS {
                return Err(DriveError::Timeout);
            }
        }
    }

    /// Waits until the drive is not busy, then fails with `DeviceFault` if
    /// the status reports an error or a write fault.
    pub fn wait_error<P: PortIo>(&self, io: &mut LoggedPorts<P>) -> (r: Result<(), DriveError>)
        requires
            self.wf(),
        ensures
            extends(final(io).events@, old(io).events@),
            ({
                let ev = after(final(io).events@, old(io).events@);
                &&& all_status(ev, self.port_base)
                &&& ev.len() >= 1
                &&& r is Ok ==> is_ready_read(ev.last(), self.port_base) && !is_failed(read_value(ev.last()))
                    && ready_seen(ev, self.port_base)
                &&& r is Err ==> (r->Err_0 == DriveError::Timeout && timed_out(ev, self.port_base)
                    || r->Err_0 == DriveError::DeviceFault && faulted(ev, self.port_base) && ready_seen(ev, self.port_base))
                &&& !ready_seen(ev, self.port_base) ==> r == Err::<(), DriveError>(DriveError::Timeout)
            }),
    {
        match self.wait(io) {
            Ok(status) => {
                if status_failed(status) {
                    Err(DriveError::DeviceFault)
                } else {
                    Ok(())
                }
            },
            Err(e) => Err(e),
        }
    }

    /// Selects this drive and the sectors `sector .. sector + count`, once
    /// the drive is not busy.
    pub fn select<P: PortIo>(&self, io: &mut LoggedPorts<P>, sector: u64, count: u8) -> (r: Result<(), DriveError>)
        requires
            self.wf(),
            count != 0,
        ensures
            extends(final(io).events@, old(io).events@),
            ({
                let ev = after(final(io).events@, old(io).events@);
                &&& ins16(ev) == Seq::<u16>::empty()
                &&& outs16(ev) == Seq::<u16>::empty()
                &&& r is Ok ==> outs8(ev) == select_writes(*self, sector, count) && ready_seen(ev, self.port_base)
                &&& r is Err ==> r->Err_0 == DriveError::Timeout && timed_out(ev, self.port_base) && outs8(ev)
                    == Seq::<(u16, u8)>::empty()
                &&& !ready_seen(ev, self.port_base) ==> r == Err::<(), DriveError>(DriveError::Timeout)
            }),
    {
        let ghost start = io.events@;
        match self.wait(io) {
            Ok(_) => {},
            Err(e) => {
                proof {
                    lemma_status_filters(after(io.events@, start), self.port_base);
                }
                return Err(e);
            },
        }
        let ghost mid = io.events@;
        proof {
            lemma_status_filters(after(mid, start), self.port_base);
        }
        assert((sector & 0xFF) == sector % 256 && ((sector >> 8u64) & 0xFF) == (sector / 256) % 256 && ((sector
            >> 16u64) & 0xFF) == (sector / 65536) % 256) by (bit_vector);
        io.out_u8(self.port_control, 0);
        io.out_u8(self.port_base + ATA_REGISTER_SECTOR_COUNT0, count);
        io.out_u8(self.port_base + ATA_REGISTER_LBA0, (sector & 0xFF) as u8);
        io.out_u8(self.port_base + ATA_REGISTER_LBA1, ((sector >> 8u64) & 0xFF) as u8);
        io.out_u8(self.port_base + ATA_REGISTER_LBA2, ((sector >> 16u64) & 0xFF) as u8);
        let device: u8 = self.device_register(sector);
        io.out_u8(self.port_base + ATA_REGISTER_DEVICE, device);
        proof {
            let tail = seq![
                PortEvent::Out8 { port: self.port_control, value: 0u8 },
                PortEvent::Out8 { port: (self.port_base + ATA_REGISTER_SECTOR_COUNT0) as u16, value: count },
                PortEvent::Out8 { port: (self.port_base + ATA_REGISTER_LBA0) as u16, value: (sector % 256) as u8 },
                PortEvent::Out8 { port: (self.port_base + ATA_REGISTER_LBA1) as u16, value: ((sector / 256) % 256) as u8 },
                PortEvent::Out8 { port: (self.port_base + ATA_REGISTER_LBA2) as u16, value: ((sector / 65536) % 256) as u8 },
                PortEvent::Out8 { port: (self.port_base + ATA_REGISTER_DEVICE) as u16, value: device },
            ];
            assert(io.events@ =~= mid + tail);
            assert(io.events@.take(mid.len() as int) =~= mid);
            assert(after(io.events@, mid) =~= tail);
            lemma_step(start, mid, io.events@, self.port_base);
            lemma_all_out8(tail);
            assert(outs8(tail) =~= select_writes(*self, sector, count));
            assert(outs8(after(mid, start)) + outs8(tail) =~= outs8(tail));
            assert(ins16(after(mid, start)) + ins16(tail) =~= Seq::<u16>::empty());
            assert(outs16(after(mid, start)) + outs16(tail) =~= Seq::<u16>::empty());
        }
        Ok(())
    }

    /// Reads one sector's words from the data port into `data` at `off`.
    fn read_words<P: PortIo>(&self, io: &mut LoggedPorts<P>, data: &mut Vec<u8>, off: usize)
        requires
            self.wf(),
            off + SECTOR_BYTES <= old(data)@.len(),
        ensures
            final(data)@.len() == old(data)@.len(),
            extends(final(io).events@, old(io).events@),
            ({
                let ev = after(final(io).events@, old(io).events@);
                &&& ins16(ev).len() == SECTOR_WORDS
                &&& outs8(ev) == Seq::<(u16, u8)>::empty()
                &&& outs16(ev) == Seq::<u16>::empty()
                &&& forall|i: int| 0 <= i < ev.len() ==> !is_status_read(#[trigger] ev[i], self.port_base)
                &&& forall|k: int| 0 <= k < SECTOR_BYTES ==> final(data)@[off + k] == byte_of_words(ins16(ev), k)
                &&& forall|k: int|
                    0 <= k < old(data)@.len() && !(off <= k < off + SECTOR_BYTES) ==> final(data)@[k] == old(
                        data,
                    )@[k]
            }),
    {
        let ghost start = io.events@;
        proof {
            lemma_extends_refl(start);
        }
        let len: usize = data.len();
        let mut w: usize = 0;
        while w < SECTOR_WORDS
            invariant
                self.wf(),
                len == data@.len(),
                off + SECTOR_BYTES <= data@.len(),
                data@.len() == old(data)@.len(),
                w <= SECTOR_WORDS,
                extends(io.events@, start),
                start == old(io).events@,
                ins16(after(io.events@, start)).len() == w,
                outs8(after(io.events@, start)) == Seq::<(u16, u8)>::empty(),
                outs16(after(io.events@, start)) == Seq::<u16>::empty(),
                forall|i: int| 0 <= i < after(io.events@, start).len() ==> !is_status_read(#[trigger] after(io.events@, start)[i], self.port_base),
                forall|k: int| 0 <= k < 2 * w ==> data@[off + k] == byte_of_words(ins16(after(io.events@, start)), k),
                forall|k: int|
                    0 <= k < old(data)@.len() && !(off <= k < off + 2 * w) ==> data@[k] == old(data)@[k],
            decreases SECTOR_WORDS - w,
        {
            let ghost before = io.events@;
            let ghost words_before = ins16(after(before, start));
            let word: u16 = io.in_u16(self.port_base + ATA_REGISTER_DATA);
            proof {
                let e = PortEvent::In16 { port: (self.port_base + ATA_REGISTER_DATA) as u16, value: word };
                assert(after(io.events@, start) =~= after(before, start).push(e));
                assert(after(io.events@, start).drop_last() =~= after(before, start));
                assert(io.events@.take(start.len() as int) =~= start) by {
                    assert forall|i: int| 0 <= i < start.len() implies io.events@[i] == start[i] by {
                        assert(before.take(start.len() as int)[i] == start[i]);
                    }
                }
                assert(ins16(after(io.events@, start)) =~= words_before.push(word));
                assert(outs8(after(io.events@, start)) =~= outs8(after(before, start)));
                assert(outs16(after(io.events@, start)) =~= outs16(after(before, start)));
            }
            let (lo, hi) = u16_bytes(word);
            let ghost d0 = data@;
            data.set(off + 2 * w, lo);
            data.set(off + 2 * w + 1, hi);
            assert(data@[off + 2 * w] == lo && data@[off + 2 * w + 1] == hi);
            proof {
                let ws = ins16(after(io.events@, start));
                assert(ws[w as int] == word);
                assert forall|k: int| 0 <= k < 2 * w + 2 implies data@[off + k] == byte_of_words(ws, k) by {
                    if k < 2 * w {
                        assert(data@[off + k] == d0[off + k]);
                        assert(d0[off + k] == byte_of_words(words_before, k));
                        assert(ws[k / 2] == words_before[k / 2]);
                        assert(byte_of_words(ws, k) == byte_of_words(words_before, k));
                    } else if k == 2 * w {
                        assert(k / 2 == w && k % 2 == 0);
                        assert(byte_of_words(ws, k) == (word % 256) as u8);
                    } else {
                        assert(k / 2 == w && k % 2 == 1);
                        assert(byte_of_words(ws, k) == (word / 256) as u8);
                    }
                }
            }
            w = w + 1;
        }
    }

    /// Writes one sector's words from `data` at `off` to the data port.
    fn write_words<P: PortIo>(&self, io: &mut LoggedPorts<P>, data: &Vec<u8>, off: usize)
        requires
            self.wf(),
            off + SECTOR_BYTES <= data@.len(),
        ensures
            extends(final(io).events@, old(io).events@),
            ({
                let ev = after(final(io).events@, old(io).events@);
                &&& outs16(ev).len() == SECTOR_WORDS
                &&& forall|k: int| 0 <= k < SECTOR_WORDS ==> outs16(ev)[k] == (data@[off + 2 * k] + 256 * data@[off + 2 * k + 1]) as u16
                &&& outs8(ev) == Seq::<(u16, u8)>::empty()
                &&& ins16(ev) == Seq::<u16>::empty()
                &&& forall|i: int| 0 <= i < ev.len() ==> !is_status_read(#[trigger] ev[i], self.port_base)
            }),
    {
        let ghost start = io.events@;
        proof {
            lemma_extends_refl(start);
        }
        let len: usize = data.len();
        let mut w: usize = 0;
        while w < SECTOR_WORDS
            invariant
                self.wf(),
                len == data@.len(),
                off + SECTOR_BYTES <= data@.len(),
                w <= SECTOR_WORDS,
                extends(io.events@, start),
                start == old(io).events@,
                outs16(after(io.events@, start)).len() == w,
                forall|k: int| 0 <= k < w ==> outs16(after(io.events@, start))[k] == (data@[off + 2 * k] + 256 * data@[off + 2 * k + 1]) as u16,
                outs8(after(io.events@, start)) == Seq::<(u16, u8)>::empty(),
                ins16(after(io.events@, start)) == Seq::<u16>::empty(),
                forall|i: int| 0 <= i < after(io.events@, start).len() ==> !is_status_read(#[trigger] after(io.events@, start)[i], self.port_base),
            decreases SECTOR_WORDS - w,
        {
            let lo: u8 = data[off + 2 * w];
            let hi: u8 = data[off + 2 * w + 1];
            let word: u16 = lo as u16 | ((hi as u16) << 8u16);
            assert(word == lo + 256 * hi) by (bit_vector)
                requires word == lo as u16 | ((hi as u16) << 8u16);
            let ghost before = io.events@;
            let ghost words_before = outs16(after(before, start));
            io.out_u16(self.port_base + ATA_REGISTER_DATA, word);
            proof {
                let e = PortEvent::Out16 { port: (self.port_base + ATA_REGISTER_DATA) as u16, value: word };
                assert(after(io.events@, start) =~= after(before, start).push(e));
                assert(after(io.events@, start).drop_last() =~= after(before, start));
                assert(io.events@.take(start.len() as int) =~= start) by {
                    assert forall|i: int| 0 <= i < start.len() implies io.events@[i] == start[i] by {
                        assert(before.take(start.len() as int)[i] == start[i]);
                    }
                }
                assert(outs16(after(io.events@, start)) =~= words_before.push(word));
                assert(outs8(after(io.events@, start)) =~= outs8(after(before, start)));
                assert(ins16(after(io.events@, start)) =~= ins16(after(before, start)));
            }
            w = w + 1;
        }
    }

    /// Writes one command byte, recording it.
    fn command<P: PortIo>(&self, io: &mut LoggedPorts<P>, command: u8)
        requires
            self.wf(),
        ensures
            final(io).events@ == old(io).events@.push(
                PortEvent::Out8 { port: (self.port_base + ATA_REGISTER_COMMAND) as u16, value: command },
            ),
    {
        io.out_u8(self.port_base + ATA_REGISTER_COMMAND, command);
    }

    /// Identifies the drive: selects it, sends IDENTIFY and reads the 256
    /// words of the answer. A status of zero after the command, or an error
    /// status, means that no drive is there.
    #[verifier::rlimit(60)]
    pub fn init<P: PortIo>(&self, io: &mut LoggedPorts<P>) -> (r: Result<DiskIdentifyInfo, DriveError>)
        requires
            self.wf(),
        ensures
            extends(final(io).events@, old(io).events@),
            ({
                let ev = after(final(io).events@, old(io).events@);
                let sel = ((self.port_base + ATA_REGISTER_DEVICE) as u16, identify_select(self.index));
                let cmd = ((self.port_base + ATA_REGISTER_COMMAND) as u16, ATA_CMD_IDENTIFY);
                &&& r is Err ==> (r->Err_0 == DriveError::Timeout && timed_out(ev, self.port_base)
                    || r->Err_0 == DriveError::NoDevice && no_device_seen(ev, self.port_base))
                &&& !ready_seen(ev, self.port_base) ==> r == Err::<DiskIdentifyInfo, DriveError>(DriveError::Timeout)
                    && ins16(ev).len() == 0
                &&& outs16(ev) == Seq::<u16>::empty()
                &&& (outs8(ev) == Seq::<(u16, u8)>::empty() || outs8(ev) == seq![sel] || outs8(ev) == seq![sel, cmd])
                &&& r is Ok ==> outs8(ev) == seq![sel, cmd] && ins16(ev).len() == SECTOR_WORDS && identify_fields(
                    r->Ok_0,
                    words_bytes(ins16(ev)),
                )
            }),
    {
        let ghost start = io.events@;
        let ghost base = self.port_base;
        let ghost sel = ((self.port_base + ATA_REGISTER_DEVICE) as u16, identify_select(self.index));
        let ghost cmd = ((self.port_base + ATA_REGISTER_COMMAND) as u16, ATA_CMD_IDENTIFY);
        let r1 = self.wait(io);
        let ghost m1 = io.events@;
        proof {
            lemma_status_filters(after(m1, start), base);
        }
        match r1 {
            Ok(_) => {},
            Err(e) => return Err(e),
        }
        let device: u8 = 0xE0u8 | ((self.index & 1) << 4u8);
        io.out_u8(self.port_base + ATA_REGISTER_DEVICE, device);
        let ghost m2 = io.events@;
        proof {
            lemma_extends_refl(m1);
            lemma_extends_push(m1, m1, PortEvent::Out8 { port: sel.0, value: sel.1 });
            lemma_all_out8(after(m2, m1));
            lemma_step(start, m1, m2, base);
            assert(outs8(after(m2, start)) =~= seq![sel]);
        }
        let r2 = self.wait(io);
        let ghost m3 = io.events@;
        proof {
            lemma_status_filters(after(m3, m2), base);
            lemma_step(start, m2, m3, base);
            assert(outs8(after(m3, start)) =~= seq![sel]);
        }
        match r2 {
            Ok(_) => {},
            Err(e) => return Err(e),
        }
        self.command(io, ATA_CMD_IDENTIFY);
        let ghost m4 = io.events@;
        proof {
            lemma_extends_refl(m3);
            lemma_extends_push(m3, m3, PortEvent::Out8 { port: cmd.0, value: cmd.1 });
            lemma_all_out8(after(m4, m3));
            lemma_step(start, m3, m4, base);
            assert(outs8(after(m4, start)) =~= seq![sel, cmd]);
        }
        let r3 = self.wait(io);
        let ghost m5 = io.events@;
        proof {
            lemma_status_filters(after(m5, m4), base);
            lemma_step(start, m4, m5, base);
            assert(outs8(after(m5, start)) =~= seq![sel, cmd]);
        }
        match r3 {
            Ok(_) => {},
            Err(e) => return Err(e),
        }
        let status: u8 = io.in_u8(self.port_base + ATA_REGISTER_STATUS);
        let ghost m6 = io.events@;
        proof {
            lemma_extends_refl(m5);
            lemma_extends_push(m5, m5, PortEvent::In8 { port: (base + ATA_REGISTER_STATUS) as u16, value: status });
            assert(all_status(after(m6, m5), base));
            lemma_status_filters(after(m6, m5), base);
            lemma_step(start, m5, m6, base);
            assert(outs8(after(m6, start)) =~= seq![sel, cmd]);
            assert(after(m6, m5).last() == after(m6, start).last());
        }
        if status == 0 {
            return Err(DriveError::NoDevice);
        }
        let r4 = self.wait_error(io);
        let ghost m7 = io.events@;
        proof {
            lemma_status_filters(after(m7, m6), base);
            lemma_step(start, m6, m7, base);
            assert(outs8(after(m7, start)) =~= seq![sel, cmd]);
        }
        match r4 {
            Ok(()) => {},
            Err(DriveError::Timeout) => return Err(DriveError::Timeout),
            Err(_) => return Err(DriveError::NoDevice),
        }
        let mut data: Vec<u8> = vec![0u8; SECTOR_BYTES];
        self.read_words(io, &mut data, 0);
        let ghost m8 = io.events@;
        proof {
            lemma_step(start, m7, m8, base);
            assert(outs8(after(m8, start)) =~= seq![sel, cmd]);
            assert(ins16(after(m8, start)) =~= ins16(after(m8, m7)));
            assert(data@ =~= words_bytes(ins16(after(m8, start))));
        }
        Ok(DiskIdentifyInfo::from_bytes(&data))
    }

    /// Reads `count` sectors starting at `sector` into `data`. Each sector
    /// waits for the drive and fails with `DeviceFault` on an error status;
    /// the words of the sectors read before are in `data`.
    pub fn read<P: PortIo>(&self, io: &mut LoggedPorts<P>, sector: u64, count: usize, data: &mut Vec<u8>) -> (r: Result<(), DriveError>)
        requires
            self.wf(),
            1 <= count <= MAX_SECTORS_PER_REQUEST,
            old(data)@.len() == count * SECTOR_BYTES,
        ensures
            final(data)@.len() == old(data)@.len(),
            extends(final(io).events@, old(io).events@),
            ({
                let ev = after(final(io).events@, old(io).events@);
                let words = ins16(ev);
                &&& (sector + count > ATA_LBA28_LIMIT) == (r == Err::<(), DriveError>(DriveError::AddressOutOfRange))
                &&& sector + count > ATA_LBA28_LIMIT ==> ev.len() == 0
                &&& r is Err ==> (r->Err_0 == DriveError::AddressOutOfRange || r->Err_0 == DriveError::Timeout
                    && timed_out(ev, self.port_base) || r->Err_0 == DriveError::DeviceFault && faulted(ev, self.port_base))
                &&& sector + count <= ATA_LBA28_LIMIT && !ready_seen(ev, self.port_base) ==> r == Err::<(), DriveError>(
                    DriveError::Timeout,
                ) && words.len() == 0
                &&& outs8(ev) == Seq::<(u16, u8)>::empty() || outs8(ev) == command_writes(*self, sector, count as u8, ATA_CMD_READ_PIO)
                &&& (r is Ok || r == Err::<(), DriveError>(DriveError::DeviceFault)) ==> outs8(ev) == command_writes(*self, sector, count as u8, ATA_CMD_READ_PIO)
                &&& outs16(ev) == Seq::<u16>::empty()
                &&& words.len() % (SECTOR_WORDS as nat) == 0
                &&& words.len() <= count * SECTOR_WORDS
                &&& r is Ok ==> words.len() == count * SECTOR_WORDS
                &&& forall|k: int| 0 <= k < 2 * words.len() ==> final(data)@[k] == byte_of_words(words, k)
                &&& forall|k: int| 2 * words.len() <= k < old(data)@.len() ==> final(data)@[k] == old(data)@[k]
            }),
    {
        let ghost start = io.events@;
        let ghost base = self.port_base;
        proof {
            lemma_extends_refl(start);
        }
        if sector > ATA_LBA28_LIMIT - count as u64 {
            return Err(DriveError::AddressOutOfRange);
        }
        match self.select(io, sector, count as u8) {
            Ok(()) => {},
            Err(e) => return Err(e),
        }
        let ghost m1 = io.events@;
        self.command(io, ATA_CMD_READ_PIO);
        let ghost m2 = io.events@;
        proof {
            lemma_extends_refl(m1);
            lemma_extends_push(m1, m1, PortEvent::Out8 { port: (base + ATA_REGISTER_COMMAND) as u16, value: ATA_CMD_READ_PIO });
            lemma_all_out8(after(m2, m1));
            lemma_step(start, m1, m2, base);
            assert(outs8(after(m2, start)) =~= command_writes(*self, sector, count as u8, ATA_CMD_READ_PIO));
        }
        let mut i: usize = 0;
        while i < count
            invariant
                self.wf(),
                base == self.port_base,
                count <= MAX_SECTORS_PER_REQUEST,
                sector + count <= ATA_LBA28_LIMIT,
                data@.len() == count * SECTOR_BYTES,
                data@.len() == old(data)@.len(),
                i <= count,
                extends(io.events@, start),
                start == old(io).events@,
                outs8(after(io.events@, start)) == command_writes(*self, sector, count as u8, ATA_CMD_READ_PIO),
                outs16(after(io.events@, start)) == Seq::<u16>::empty(),
                ins16(after(io.events@, start)).len() == i * SECTOR_WORDS,
                ready_seen(after(io.events@, start), base),
                forall|k: int| 0 <= k < 2 * ins16(after(io.events@, start)).len() ==> data@[k] == byte_of_words(ins16(after(io.events@, start)), k),
                forall|k: int| 2 * ins16(after(io.events@, start)).len() <= k < old(data)@.len() ==> data@[k] == old(data)@[k],
            decreases count - i,
        {
            let ghost m3 = io.events@;
            let ghost words3 = ins16(after(m3, start));
            let rw = self.wait_error(io);
            let ghost m4 = io.events@;
            proof {
                lemma_status_filters(after(m4, m3), base);
                lemma_step(start, m3, m4, base);
                assert(outs8(after(m4, start)) =~= outs8(after(m3, start)));
                assert(ins16(after(m4, start)) =~= words3);
                assert(outs16(after(m4, start)) =~= Seq::<u16>::empty());
            }
            match rw {
                Ok(()) => {},
                Err(e) => return Err(e),
            }
            assert(i * SECTOR_BYTES + SECTOR_BYTES <= count * SECTOR_BYTES) by (nonlinear_arith)
                requires i < count;
            let off: usize = i * SECTOR_BYTES;
            let ghost d4 = data@;
            self.read_words(io, data, off);
            let ghost m5 = io.events@;
            proof {
                lemma_step(start, m4, m5, base);
                let ws = ins16(after(m5, start));
                let neww = ins16(after(m5, m4));
                assert(ws =~= words3 + neww);
                assert(outs8(after(m5, start)) =~= outs8(after(m4, start)));
                assert(outs16(after(m5, start)) =~= Seq::<u16>::empty());
                assert(off == 2 * words3.len());
                assert forall|k: int| 0 <= k < 2 * ws.len() implies data@[k] == byte_of_words(ws, k) by {
                    if k < off {
                        assert(ws[k / 2] == words3[k / 2]);
                    } else {
                        let m = k - off;
                        assert(data@[off + m] == byte_of_words(neww, m));
                        assert(k / 2 == words3.len() + m / 2);
                        assert(k % 2 == m % 2);
                        assert(ws[k / 2] == neww[m / 2]);
                    }
                }
            }
            i = i + 1;
        }
        Ok(())
    }

    /// Writes `count` sectors from `data` starting at `sector`. Each sector
    /// waits for the drive and fails with `DeviceFault` on an error status.
    pub fn write<P: PortIo>(&self, io: &mut LoggedPorts<P>, sector: u64, count: usize, data: &Vec<u8>) -> (r: Result<(), DriveError>)
        requires
            self.wf(),
            1 <= count <= MAX_SECTORS_PER_REQUEST,
            data@.len() == count * SECTOR_BYTES,
        ensures
            extends(final(io).events@, old(io).events@),
            ({
                let ev = after(final(io).events@, old(io).events@);
                let words = outs16(ev);
                &&& (sector + count > ATA_LBA28_LIMIT) == (r == Err::<(), DriveError>(DriveError::AddressOutOfRange))
                &&& sector + count > ATA_LBA28_LIMIT ==> ev.len() == 0
                &&& r is Err ==> (r->Err_0 == DriveError::AddressOutOfRange || r->Err_0 == DriveError::Timeout
                    && timed_out(ev, self.port_base) || r->Err_0 == DriveError::DeviceFault && faulted(ev, self.port_base))
                &&& sector + count <= ATA_LBA28_LIMIT && !ready_seen(ev, self.port_base) ==> r == Err::<(), DriveError>(
                    DriveError::Timeout,
                ) && words.len() == 0
                &&& outs8(ev) == Seq::<(u16, u8)>::empty() || outs8(ev) == command_writes(*self, sector, count as u8, ATA_CMD_WRITE_PIO)
                &&& (r is Ok || r == Err::<(), DriveError>(DriveError::DeviceFault)) ==> outs8(ev) == command_writes(*self, sector, count as u8, ATA_CMD_WRITE_PIO)
                &&& ins16(ev) == Seq::<u16>::empty()
                &&& words.len() % (SECTOR_WORDS as nat) == 0
                &&& words.len() <= count * SECTOR_WORDS
                &&& r is Ok ==> words.len() == count * SECTOR_WORDS
                &&& forall|k: int| 0 <= k < words.len() ==> words[k] == word_of_bytes(data@, k)
            }),
    {
        let ghost start = io.events@;
        let ghost base = self.port_base;
        proof {
            lemma_extends_refl(start);
        }
        if sector > ATA_LBA28_LIMIT - count as u64 {
            return Err(DriveError::AddressOutOfRange);
        }
        match self.select(io, sector, count as u8) {
            Ok(()) => {},
            Err(e) => return Err(e),
        }
        let ghost m1 = io.events@;
        self.command(io, ATA_CMD_WRITE_PIO);
        let ghost m2 = io.events@;
        proof {
            lemma_extends_refl(m1);
            lemma_extends_push(m1, m1, PortEvent::Out8 { port: (base + ATA_REGISTER_COMMAND) as u16, value: ATA_CMD_WRITE_PIO });
            lemma_all_out8(after(m2, m1));
            lemma_step(start, m1, m2, base);
            assert(outs8(after(m2, start)) =~= command_writes(*self, sector, count as u8, ATA_CMD_WRITE_PIO));
        }
        let mut i: usize = 0;
        while i < count
            invariant
                self.wf(),
                base == self.port_base,
                count <= MAX_SECTORS_PER_REQUEST,
                sector + count <= ATA_LBA28_LIMIT,
                data@.len() == count * SECTOR_BYTES,
                i <= count,
                extends(io.events@, start),
                start == old(io).events@,
                outs8(after(io.events@, start)) == command_writes(*self, sector, count as u8, ATA_CMD_WRITE_PIO),
                ins16(after(io.events@, start)) == Seq::<u16>::empty(),
                outs16(after(io.events@, start)).len() == i * SECTOR_WORDS,
                ready_seen(after(io.events@, start), base),
                forall|k: int| 0 <= k < outs16(after(io.events@, start)).len() ==> outs16(after(io.events@, start))[k] == word_of_bytes(data@, k),
            decreases count - i,
        {
            let ghost m3 = io.events@;
            let ghost words3 = outs16(after(m3, start));
            let rw = self.wait_error(io);
            let ghost m4 = io.events@;
            proof {
                lemma_status_filters(after(m4, m3), base);
                lemma_step(start, m3, m4, base);
                assert(outs8(after(m4, start)) =~= outs8(after(m3, start)));
                assert(outs16(after(m4, start)) =~= words3);
                assert(ins16(after(m4, start)) =~= Seq::<u16>::empty());
            }
            match rw {
                Ok(()) => {},
                Err(e) => return Err(e),
            }
            assert(i * SECTOR_BYTES + SECTOR_BYTES <= count * SECTOR_BYTES) by (nonlinear_arith)
                requires i < count;
            let off: usize = i * SECTOR_BYTES;
            self.write_words(io, data, off);
            let ghost m5 = io.events@;
            proof {
                lemma_step(start, m4, m5, base);
                let ws = outs16(after(m5, start));
                let neww = outs16(after(m5, m4));
                assert(ws =~= words3 + neww);
                assert(outs8(after(m5, start)) =~= outs8(after(m4, start)));
                assert(ins16(after(m5, start)) =~= Seq::<u16>::empty());
                assert(off == 2 * words3.len());
                assert forall|k: int| 0 <= k < ws.len() implies ws[k] == word_of_bytes(data@, k) by {
                    if k >= words3.len() {
                        let m = k - words3.len();
                        assert(ws[k] == neww[m]);
                        assert(off + 2 * m == 2 * k);
                    }
                }
            }
            i = i + 1;
        }
        Ok(())
    }
}

/// An IDE drive together with the ports it is reached through.
pub struct IdeDisk<P: PortIo> {
    pub driver: IdeDiskDriver,
    pub ports: LoggedPorts<P>,
}

impl<P: PortIo> IdeDisk<P> {
    /// Drive `index` reached through `ports`.
    pub fn new(index: u8, ports: P) -> (r: IdeDisk<P>)
        requires
            index < 4,
        ensures
            r.driver.index == index,
            r.driver.wf(),
    {
        IdeDisk { driver: IdeDiskDriver::new(index), ports: LoggedPorts::new(ports) }
    }
}

impl<P: PortIo> DiskDriver for IdeDisk<P> {
    fn init(&mut self) -> (r: Result<DiskIdentifyInfo, DriveError>) {
        if self.driver.port_base > 0xFFF0 {
            return Err(DriveError::NoDevice);
        }
        self.driver.init(&mut self.ports)
    }

    fn read(&mut self, sector: u64, count: usize, data: &mut Vec<u8>) -> (r: Result<(), DriveError>) {
        if self.driver.port_base > 0xFFF0 {
            return Err(DriveError::NoDevice);
        }
        self.driver.read(&mut self.ports, sector, count, data)
    }

    fn write(&mut self, sector: u64, count: usize, data: &Vec<u8>) -> (r: Result<(), DriveError>) {
        if self.driver.port_base > 0xFFF0 {
            return Err(DriveError::NoDevice);
        }
        self.driver.write(&mut self.ports, sector, count, data)
    }
}

/// The handler of an IDE interrupt: transfers are polled, so there is
/// nothing to do.
pub fn ide_handler(ide_index: usize) {
}

} // verus!
