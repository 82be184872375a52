//! An ATA channel (controller), which drives up to two disks: its port
//! addresses, the values it writes to them, and the decisions it takes on what
//! it reads back. The port I/O itself is done by the caller.
use crate::block::block_core::BlockSector;
use vstd::prelude::*;

verus! {

// Error register bits
/// Address mark not found
pub const ERR_AMNF: u8 = 0x01;
/// Bad block detected
pub const ERR_BBK: u8 = 0x80;

// Device register bits
/// Selects the drive: 0 = master, 1 = slave
pub const DEV_DRV: u8 = 0x10;
/// Linear block addressing
pub const DEV_LBA: u8 = 0x40;
/// Bits 5 and 7, which must be set
pub const DEV_MBS: u8 = 0xa0;

// Status register bits
/// An error occurred
pub const STA_ERR: u8 = 0x01;
/// The drive has data to transfer, or is ready to accept data
pub const STA_DRQ: u8 = 0x08;
/// The drive is ready (clear when spun down or after an error)
pub const STA_RDY: u8 = 0x40;
/// The drive is busy
pub const STA_BSY: u8 = 0x80;

// Control register bits
/// Software reset
pub const CTL_SRST: u8 = 0x04;

/// Offset of the control block from the command block (0x3F6 - 0x1F0).
pub const CTL_OFFSET: u16 = 0x206;

/// An ATA channel, with up to two disks.
pub struct AtaChannel {
    /// Name, e.g. "ide0"
    pub name: [char; 8],
    /// Base I/O port
    pub reg_base: u16,
    /// Interrupt in use
    pub irq: u8,
    /// True if an interrupt is expected, false if any interrupt would be spurious
    pub expecting_interrupt: bool,
    /// Completions the interrupt handler has signalled and no one has taken yet
    pub completion_count: u32,
    /// Name of the master disk
    pub d0_name: [char; 8],
    pub d0_is_ata: bool,
    /// Name of the slave disk
    pub d1_name: [char; 8],
    pub d1_is_ata: bool,
    pub channel_num: u8,
}

/// The base port of channel `n`: 0x1F0 for the primary bus, 0x170 for the
/// secondary.
pub open spec fn channel_base(n: u8) -> u16 {
    if n == 0 {
        0x1F0
    } else {
        0x170
    }
}

/// The interrupt of channel `n`: 14 for the primary bus, 15 for the secondary.
pub open spec fn channel_irq(n: u8) -> u8 {
    if n == 0 {
        14
    } else {
        15
    }
}

/// The device-register value that selects disk `dev_num` (with the bits that
/// must be set).
pub open spec fn select_value(dev_num: u8) -> u8 {
    DEV_MBS | if dev_num == 1 {
        DEV_DRV
    } else {
        0
    }
}

/// Whether the register values read after selecting a disk show an ATA disk
/// worth probing: `None` to ignore the device (an error other than "address
/// mark not found", except that the master may also report a bad block; or a
/// drive that is not ready, or busy), else whether its signature is that of a
/// parallel (0, 0) or serial (0x3c, 0xc3) ATA disk.
pub open spec fn device_type(dev_num: u8, error: u8, lbam: u8, lbah: u8, status: u8) -> Option<bool> {
    if (error != ERR_AMNF && (error != (ERR_AMNF | ERR_BBK) || dev_num == 1)) || (status & STA_RDY) == 0 || (status & STA_BSY)
        != 0 {
        None
    } else {
        Some((lbam == 0 && lbah == 0) || (lbam == 0x3c && lbah == 0xc3))
    }
}

impl AtaChannel {
    /// The channel number is 0 or 1, and the ports and interrupt are those of
    /// that channel.
    pub open spec fn wf(&self) -> bool {
        &&& self.channel_num < 2
        &&& self.reg_base == channel_base(self.channel_num)
        &&& self.irq == channel_irq(self.channel_num)
    }

    /// Read/write data register.
    pub fn reg_data(&self) -> (r: u16)
        requires
            self.wf(),
        ensures
            r == self.reg_base,
    {
        self.reg_base
    }

    /// Error register (read).
    pub fn reg_error(&self) -> (r: u16)
        requires
            self.wf(),
        ensures
            r == self.reg_base + 1,
    {
        self.reg_base + 1
    }

    /// Sector count register.
    pub fn reg_nsect(&self) -> (r: u16)
        requires
            self.wf(),
        ensures
            r == self.reg_base + 2,
    {
        self.reg_base + 2
    }

    /// Sector number register (LBA bits 0-7).
    pub fn reg_lbal(&self) -> (r: u16)
        requires
            self.wf(),
        ensures
            r == self.reg_base + 3,
    {
        self.reg_base + 3
    }

    /// Cylinder low register (LBA bits 8-15).
    pub fn reg_lbam(&self) -> (r: u16)
        requires
            self.wf(),
        ensures
            r == self.reg_base + 4,
    {
        self.reg_base + 4
    }

    /// Cylinder high register (LBA bits 16-23).
    pub fn reg_lbah(&self) -> (r: u16)
        requires
            self.wf(),
        ensures
            r == self.reg_base + 5,
    {
        self.reg_base + 5
    }

    /// Device/head register.
    pub fn reg_device(&self) -> (r: u16)
        requires
            self.wf(),
        ensures
            r == self.reg_base + 6,
    {
        self.reg_base + 6
    }

    /// Status register (read).
    pub fn reg_status(&self) -> (r: u16)
        requires
            self.wf(),
        ensures
            r == self.reg_base + 7,
    {
        self.reg_base + 7
    }

    /// Command register (write).
    pub fn reg_command(&self) -> (r: u16)
        requires
            self.wf(),
        ensures
            r == self.reg_base + 7,
    {
        self.reg_base + 7
    }

    /// Alternate status register (read), which does not affect interrupts.
    pub fn reg_alt_status(&self) -> (r: u16)
        requires
            self.wf(),
        ensures
            r == self.reg_base + CTL_OFFSET,
    {
        self.reg_base + CTL_OFFSET
    }

    /// Device control register (write).
    pub fn reg_ctl(&self) -> (r: u16)
        requires
            self.wf(),
        ensures
            r == self.reg_base + CTL_OFFSET,
    {
        self.reg_base + CTL_OFFSET
    }

    /// Channel `channel_num` (0 for the primary bus, 1 for the secondary),
    /// with no name and no disk known yet.
    pub fn new(channel_num: u8) -> (r: AtaChannel)
        requires
            channel_num < 2,
        ensures
            r.wf(),
            r.channel_num == channel_num,
            r.name@ == Seq::new(8, |i: int| '\0'),
            r.d0_name@ == Seq::new(8, |i: int| '\0'),
            r.d1_name@ == Seq::new(8, |i: int| '\0'),
            !r.expecting_interrupt,
            r.completion_count == 0,
            !r.d0_is_ata && !r.d1_is_ata,
    {
        let reg_base: u16 = if channel_num == 0 { 0x1F0 } else { 0x170 };
        let irq: u8 = if channel_num == 0 { 14 } else { 15 };
        let r = AtaChannel {
            name: ['\0', '\0', '\0', '\0', '\0', '\0', '\0', '\0'],
            reg_base,
            irq,
            expecting_interrupt: false,
            completion_count: 0,
            d0_name: ['\0', '\0', '\0', '\0', '\0', '\0', '\0', '\0'],
            d0_is_ata: false,
            d1_name: ['\0', '\0', '\0', '\0', '\0', '\0', '\0', '\0'],
            d1_is_ata: false,
            channel_num,
        };
        assert(r.name@ =~= Seq::new(8, |i: int| '\0'));
        assert(r.d0_name@ =~= Seq::new(8, |i: int| '\0'));
        assert(r.d1_name@ =~= Seq::new(8, |i: int| '\0'));
        r
    }

    /// Name the channel `ide0` or `ide1`, and its disks `hda`/`hdb` or
    /// `hdc`/`hdd`, after its number.
    pub fn set_names(&mut self)
        requires
            old(self).wf(),
        ensures
            final(self).wf(),
            final(self).channel_num == old(self).channel_num,
            final(self).name@ == seq!['i', 'd', 'e', if old(self).channel_num == 0 { '0' } else { '1' }, '\0', '\0', '\0', '\0'],
            final(self).d0_name@ == seq!['h', 'd', if old(self).channel_num == 0 { 'a' } else { 'c' }, '\0', '\0', '\0', '\0', '\0'],
            final(self).d1_name@ == seq!['h', 'd', if old(self).channel_num == 0 { 'b' } else { 'd' }, '\0', '\0', '\0', '\0', '\0'],
            final(self).d0_is_ata == old(self).d0_is_ata,
            final(self).d1_is_ata == old(self).d1_is_ata,
            final(self).expecting_interrupt == old(self).expecting_interrupt,
            final(self).completion_count == old(self).completion_count,
    {
        let (name_char, d0_char, d1_char) = if self.channel_num == 0 {
            ('0', 'a', 'b')
        } else {
            ('1', 'c', 'd')
        };
        self.name = ['i', 'd', 'e', name_char, '\0', '\0', '\0', '\0'];
        self.d0_name = ['h', 'd', d0_char, '\0', '\0', '\0', '\0', '\0'];
        self.d1_name = ['h', 'd', d1_char, '\0', '\0', '\0', '\0', '\0'];
        assert(self.name@ =~= seq!['i', 'd', 'e', name_char, '\0', '\0', '\0', '\0']);
        assert(self.d0_name@ =~= seq!['h', 'd', d0_char, '\0', '\0', '\0', '\0', '\0']);
        assert(self.d1_name@ =~= seq!['h', 'd', d1_char, '\0', '\0', '\0', '\0', '\0']);
    }

    /// Record whether disk `dev_no` (0 or 1) is an ATA disk.
    pub fn set_is_ata(&mut self, dev_no: u8, is_ata: bool)
        requires
            dev_no < 2,
        ensures
            final(self).d0_is_ata == if dev_no == 0 { is_ata } else { old(self).d0_is_ata },
            final(self).d1_is_ata == if dev_no == 1 { is_ata } else { old(self).d1_is_ata },
            final(self).name == old(self).name,
            final(self).reg_base == old(self).reg_base,
            final(self).irq == old(self).irq,
            final(self).expecting_interrupt == old(self).expecting_interrupt,
            final(self).completion_count == old(self).completion_count,
            final(self).d0_name == old(self).d0_name,
            final(self).d1_name == old(self).d1_name,
            final(self).channel_num == old(self).channel_num,
    {
        if dev_no == 0 {
            self.d0_is_ata = is_ata;
        } else {
            self.d1_is_ata = is_ata;
        }
    }

    /// Whether disk `dev_no` is an ATA disk (false when it is absent or
    /// `dev_no` names no disk).
    pub fn is_ata(&self, dev_no: u8) -> (r: bool)
        ensures
            r == if dev_no == 0 {
                self.d0_is_ata
            } else if dev_no == 1 {
                self.d1_is_ata
            } else {
                false
            },
    {
        if dev_no == 0 {
            self.d0_is_ata
        } else if dev_no == 1 {
            self.d1_is_ata
        } else {
            false
        }
    }

    /// The channel's number.
    pub fn get_channel_num(&self) -> (r: u8)
        ensures
            r == self.channel_num,
    {
        self.channel_num
    }

    /// The channel's name.
    pub fn get_name(&self) -> (r: [char; 8])
        ensures
            r == self.name,
    {
        self.name
    }

    /// The name of the master disk.
    pub fn get_d0_name(&self) -> (r: [char; 8])
        ensures
            r == self.d0_name,
    {
        self.d0_name
    }

    /// The name of the slave disk.
    pub fn get_d1_name(&self) -> (r: [char; 8])
        ensures
            r == self.d1_name,
    {
        self.d1_name
    }

    /// The channel's interrupt.
    pub fn get_irq(&self) -> (r: u8)
        ensures
            r == self.irq,
    {
        self.irq
    }

    /// Whether an interrupt is expected.
    pub fn is_expect_interrupt(&self) -> (r: bool)
        ensures
            r == self.expecting_interrupt,
    {
        self.expecting_interrupt
    }

    /// Take a completion that the interrupt handler signalled (there must be
    /// one: the caller waits for it before).
    pub fn sem_down(&mut self)
        requires
            old(self).completion_count > 0,
        ensures
            final(self).completion_count == old(self).completion_count - 1,
            final(self).expecting_interrupt == old(self).expecting_interrupt,
    {
        self.completion_count = self.completion_count - 1;
    }

    /// Signal a completion (from the interrupt handler).
    pub fn sem_up(&mut self)
        requires
            old(self).completion_count < u32::MAX,
        ensures
            final(self).completion_count == old(self).completion_count + 1,
            final(self).expecting_interrupt == old(self).expecting_interrupt,
    {
        self.completion_count = self.completion_count + 1;
    }

    /// Take a completion if one was signalled; whether one was.
    pub fn sem_try_down(&mut self) -> (r: bool)
        ensures
            r == (old(self).completion_count > 0),
            final(self).completion_count == if r { (old(self).completion_count - 1) as u32 } else { old(self).completion_count },
            final(self).expecting_interrupt == old(self).expecting_interrupt,
    {
        if self.completion_count > 0 {
            self.completion_count = self.completion_count - 1;
            true
        } else {
            false
        }
    }

    /// Decide from the registers read after selecting disk `dev_num` (error,
    /// LBA mid and high, status) whether it is an ATA disk, and record it.
    /// For the master, returns whether a slave may exist on the channel; for
    /// the slave the result means nothing.
    pub fn check_device_type(&mut self, dev_num: u8, error: u8, lbam: u8, lbah: u8, status: u8) -> (r: bool)
        requires
            dev_num < 2,
        ensures
            r == device_type(dev_num, error, lbam, lbah, status) is Some,
            (if dev_num == 0 { final(self).d0_is_ata } else { final(self).d1_is_ata }) == match device_type(
                dev_num,
                error,
                lbam,
                lbah,
                status,
            ) {
                None => false,
                Some(is_ata) => is_ata,
            },
            (if dev_num == 0 { final(self).d1_is_ata } else { final(self).d0_is_ata }) == (if dev_num == 0 {
                old(self).d1_is_ata
            } else {
                old(self).d0_is_ata
            }),
            final(self).channel_num == old(self).channel_num,
            final(self).reg_base == old(self).reg_base,
            final(self).irq == old(self).irq,
    {
        if (error != ERR_AMNF && (error != (ERR_AMNF | ERR_BBK) || dev_num == 1)) || (status & STA_RDY) == 0 || (status & STA_BSY)
            != 0 {
            self.set_is_ata(dev_num, false);
            false
        } else {
            let is_ata: bool = (lbam == 0 && lbah == 0) || (lbam == 0x3c && lbah == 0xc3);
            self.set_is_ata(dev_num, is_ata);
            true
        }
    }

    /// The register write that selects disk `dev_num`: its port and value.
    pub fn select_device(&self, dev_num: u8) -> (r: (u16, u8))
        requires
            self.wf(),
        ensures
            r == ((self.reg_base + 6) as u16, select_value(dev_num)),
    {
        let dev: u8 = DEV_MBS | if dev_num == 1 { DEV_DRV } else { 0 };
        (self.reg_device(), dev)
    }

    /// The register writes, in order, that address sector `sector` of disk
    /// `dev_no` in 28-bit LBA mode, for one sector: the device register (with
    /// the top bits of the sector), the sector count, then the low, middle and
    /// high bytes of the sector number.
    pub fn select_sector(&self, dev_no: u8, sector: BlockSector) -> (r: [(u16, u8); 5])
        requires
            self.wf(),
        ensures
            r@ == seq![
                (
                    (self.reg_base + 6) as u16,
                    DEV_MBS | DEV_LBA | (if dev_no == 1 { DEV_DRV } else { 0u8 }) | (sector >> 24) as u8,
                ),
                ((self.reg_base + 2) as u16, 1u8),
                ((self.reg_base + 3) as u16, sector as u8),
                ((self.reg_base + 4) as u16, (sector >> 8) as u8),
                ((self.reg_base + 5) as u16, (sector >> 16) as u8),
            ],
    {
        let device = DEV_MBS | DEV_LBA | (if dev_no == 1 { DEV_DRV } else { 0u8 }) | (sector >> 24) as u8;
        let r = [
            (self.reg_device(), device),
            (self.reg_nsect(), 1u8),
            (self.reg_lbal(), sector as u8),
            (self.reg_lbam(), (sector >> 8) as u8),
            (self.reg_lbah(), (sector >> 16) as u8),
        ];
        assert(r@ =~= seq![
            ((self.reg_base + 6) as u16, device),
            ((self.reg_base + 2) as u16, 1u8),
            ((self.reg_base + 3) as u16, sector as u8),
            ((self.reg_base + 4) as u16, (sector >> 8) as u8),
            ((self.reg_base + 5) as u16, (sector >> 16) as u8),
        ]);
        r
    }

    /// Prepare for the completion interrupt of `command`, and give the
    /// register write that issues it.
    pub fn issue_pio_command(&mut self, command: u8) -> (r: (u16, u8))
        requires
            old(self).wf(),
        ensures
            final(self).expecting_interrupt,
            final(self).wf(),
            final(self).completion_count == old(self).completion_count,
            r == ((old(self).reg_base + 7) as u16, command),
    {
        self.expecting_interrupt = true;
        (self.reg_command(), command)
    }
}

/// Whether a status register value shows an idle channel: neither busy nor
/// requesting data.
pub fn status_idle(status: u8) -> (r: bool)
    ensures
        r == ((status & (STA_BSY | STA_DRQ)) == 0),
{
    (status & (STA_BSY | STA_DRQ)) == 0
}

/// Whether a status register value shows a busy channel.
pub fn status_busy(status: u8) -> (r: bool)
    ensures
        r == ((status & STA_BSY) != 0),
{
    (status & STA_BSY) != 0
}

/// Whether a status register value shows a data request.
pub fn status_drq(status: u8) -> (r: bool)
    ensures
        r == ((status & STA_DRQ) != 0),
{
    (status & STA_DRQ) != 0
}

/// Whether the values read back from the sector-count and LBA-low registers
/// after the probe pattern show a disk present (0x55 and 0xaa).
pub fn device_present(nsect: u8, lbal: u8) -> (r: bool)
    ensures
        r == (nsect == 0x55 && lbal == 0xaa),
{
    nsect == 0x55 && lbal == 0xaa
}

} // verus!
