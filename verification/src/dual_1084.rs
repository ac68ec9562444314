//! Bit-addressed register image of the Distopik Dual 1084 equalizer.
use vstd::prelude::*;
use crate::utils::{bit_of, write_bit_16};
use crate::driver::{InstanceDriverCommand, InstanceDriverError};

verus! {

/// Bit `b` of a register image made of 16-bit words: word `b / 16`, bit `b % 16`.
pub open spec fn memory_bit(memory: Seq<u16>, b: int) -> bool {
    bit_of(memory[b / 16], (b % 16) as u16)
}

/// Which value, if any, a region assigns to memory bit `b`: the bit of `value` at the
/// last position `i` with `bits[i] == b` (later positions overwrite earlier ones).
pub open spec fn region_assignment(bits: Seq<usize>, value: u16, b: int) -> Option<bool>
    decreases bits.len(),
{
    if bits.len() == 0 {
        None
    } else if bits.last() == b {
        Some(bit_of(value, (bits.len() - 1) as u16))
    } else {
        region_assignment(bits.drop_last(), value, b)
    }
}

/// The register image after a region has written `value` into `memory`.
pub open spec fn region_written(bits: Seq<usize>, value: u16, memory: Seq<u16>, b: int) -> bool {
    match region_assignment(bits, value, b) {
        Some(v) => v,
        None => memory_bit(memory, b),
    }
}

/// A group of memory bits that together hold one parameter value: bit `i` of the value
/// is stored at memory bit `bits[i]`.
#[derive(Debug)]
pub struct UnipotRegion {
    pub bits: Vec<usize>,
}

impl UnipotRegion {
    /// A region whose `i`-th value bit lives at memory bit `bits[i]`.
    pub fn new(bits: Vec<usize>) -> (r: Self)
        ensures
            r.bits@ == bits@,
    {
        Self { bits }
    }

    /// Whether every bit of the region fits in a register image of `len` words and the
    /// region is no wider than a 16-bit value.
    pub open spec fn fits(&self, len: nat) -> bool {
        &&& self.bits@.len() <= 16
        &&& forall|i: int| 0 <= i < self.bits@.len() ==> (#[trigger] self.bits@[i]) / 16 < len
    }

    /// For every `i`-th bit of `value`, sets (or clears) the `bits[i]`-th bit of `memory`;
    /// memory bits outside the region keep their value.
    pub fn write(&self, memory: &mut [u16], value: u16)
        requires
            self.fits(old(memory)@.len()),
        ensures
            final(memory)@.len() == old(memory)@.len(),
            forall|b: int| 0 <= b < old(memory)@.len() * 16 ==>
                memory_bit(final(memory)@, b) == #[trigger] region_written(self.bits@, value, old(memory)@, b),
    {
        let n = self.bits.len();
        let mut i: usize = 0;
        while i < n
            invariant
                n == self.bits@.len(),
                0 <= i <= n,
                self.fits(old(memory)@.len()),
                memory@.len() == old(memory)@.len(),
                forall|b: int| 0 <= b < old(memory)@.len() * 16 ==>
                    memory_bit(memory@, b) == #[trigger] region_written(self.bits@.take(i as int), value, old(memory)@, b),
            decreases n - i,
        {
            let bit = self.bits[i];
            let word = bit / 16;
            let pos = (bit % 16) as u16;
            let bit_value = value & (1u16 << (i as u16));
            let mut w = memory[word];
            let ghost before = memory@;
            write_bit_16(&mut w, pos, bit_value);
            memory[word] = w;
            proof {
                let ii = i as u16;
                assert((value & (1u16 << ii) != 0) == bit_of(value, ii)) by (bit_vector)
                    requires ii < 16;
                let prefix = self.bits@.take(i as int + 1);
                assert(prefix.drop_last() =~= self.bits@.take(i as int));
                assert(prefix.last() == bit);
                assert forall|b: int| 0 <= b < old(memory)@.len() * 16 implies
                    memory_bit(memory@, b) == #[trigger] region_written(prefix, value, old(memory)@, b) by {
                    if b == bit as int {
                        assert(b / 16 == word as int);
                        assert(b % 16 == pos as int);
                        assert(memory@[word as int] == w);
                        assert(region_assignment(prefix, value, b) == Some(bit_of(value, ii)));
                    } else {
                        assert(region_assignment(prefix, value, b) == region_assignment(self.bits@.take(i as int), value, b));
                        assert(region_written(self.bits@.take(i as int), value, old(memory)@, b) == memory_bit(before, b));
                        if b / 16 == word as int {
                            assert(b % 16 != pos as int);
                            assert(memory@[word as int] == w);
                            assert(bit_of(w, (b % 16) as u16) == bit_of(before[word as int], (b % 16) as u16));
                        } else {
                            assert(memory@[b / 16] == before[b / 16]);
                        }
                    }
                }
            }
            i = i + 1;
        }
        proof {
            assert(self.bits@.take(n as int) =~= self.bits@);
        }
    }
}

/// One SPI transfer to the I/O expander chain: nine 32-bit words.
#[derive(Debug)]
pub struct SpiTransfer {
    pub data: [u32; 9],
}

impl SpiTransfer {
    /// Builds a transfer from exactly nine words.
    pub fn write(buff: &[u32]) -> (r: Self)
        requires
            buff@.len() == 9,
        ensures
            r.data@ == buff@,
    {
        let data: [u32; 9] = [buff[0], buff[1], buff[2], buff[3], buff[4], buff[5], buff[6], buff[7], buff[8]];
        assert(data@ =~= buff@);
        SpiTransfer { data }
    }
}


/// Configuration of a Dual 1084: the device node of its SPI interface.
#[derive(Debug)]
pub struct Config {
    pub device: String,
}

impl Config {
    /// The device node used when the configuration names none.
    pub fn default_device() -> (r: String)
        ensures
            r@ == "/dev/PIVO"@,
    {
        String::from_str("/dev/PIVO")
    }
}

/// A memory bit after writing the given values, one per region, in order.
pub open spec fn regions_written(regions: Seq<Seq<usize>>, values: Seq<u16>, memory: Seq<u16>, b: int) -> bool
    decreases values.len(),
{
    if values.len() == 0 {
        memory_bit(memory, b)
    } else {
        match region_assignment(regions[values.len() - 1], values.last(), b) {
            Some(v) => v,
            None => regions_written(regions, values.drop_last(), memory, b),
        }
    }
}

/// The register image of a Dual 1084 and the regions of its two low-gain controls.
#[derive(Debug)]
pub struct Dual1084 {
    /// Eight I/O expanders of six 16-bit words each.
    pub io_exp_data: Vec<Vec<u16>>,
    /// The low-gain potentiometers of the two channels.
    pub low_gain: Vec<UnipotRegion>,
}

/// The expander that holds the low-gain controls.
pub const LOW_GAIN_EXPANDER: usize = 3;

impl Dual1084 {
    /// A cleared register image; the first channel's low gain lives at memory bits 57 to 63,
    /// the second channel's at bits 28 down to 21.
    pub fn with_registers() -> (r: Self)
        ensures
            r.io_exp_data@.len() == 8,
            forall|i: int| 0 <= i < 8 ==> (#[trigger] r.io_exp_data@[i])@ == seq![0u16, 0, 0, 0, 0, 0],
            r.low_gain@.len() == 2,
            r.low_gain@[0].bits@ == seq![57usize, 58, 59, 60, 61, 62, 63],
            r.low_gain@[1].bits@ == seq![28usize, 27, 26, 25, 24, 23, 22, 21],
    {
        let mut io_exp_data: Vec<Vec<u16>> = Vec::new();
        let mut i: usize = 0;
        while i < 8
            invariant
                i <= 8,
                io_exp_data@.len() == i,
                forall|j: int| 0 <= j < i ==> (#[trigger] io_exp_data@[j])@ == seq![0u16, 0, 0, 0, 0, 0],
            decreases 8 - i,
        {
            io_exp_data.push(vec![0u16, 0, 0, 0, 0, 0]);
            i = i + 1;
        }
        let mut low_gain: Vec<UnipotRegion> = Vec::new();
        low_gain.push(UnipotRegion::new(vec![57usize, 58, 59, 60, 61, 62, 63]));
        low_gain.push(UnipotRegion::new(vec![28usize, 27, 26, 25, 24, 23, 22, 21]));
        Dual1084 { io_exp_data, low_gain }
    }

    /// Whether every region fits the low-gain expander.
    pub open spec fn regions_fit(&self) -> bool {
        &&& self.io_exp_data@.len() > LOW_GAIN_EXPANDER
        &&& forall|c: int| 0 <= c < self.low_gain@.len() ==> (#[trigger] self.low_gain@[c]).fits(
            self.io_exp_data@[LOW_GAIN_EXPANDER as int]@.len(),
        )
    }

    /// Handles a driver command: the connection check succeeds, transport commands fail for
    /// want of media, and new low-gain values are written, channel by channel, into the
    /// low-gain expander.
    pub fn handle(&mut self, command: InstanceDriverCommand) -> (r: Result<(), InstanceDriverError>)
        requires
            old(self).regions_fit(),
            command matches InstanceDriverCommand::SetParameters { low_gain: Some(values) } ==> values@.len()
                <= old(self).low_gain@.len(),
        ensures
            final(self).low_gain == old(self).low_gain,
            final(self).io_exp_data@.len() == old(self).io_exp_data@.len(),
            forall|e: int| 0 <= e < old(self).io_exp_data@.len() && e != LOW_GAIN_EXPANDER ==> (
            #[trigger] final(self).io_exp_data@[e])@ == old(self).io_exp_data@[e]@,
            final(self).io_exp_data@[LOW_GAIN_EXPANDER as int]@.len() == old(self).io_exp_data@[LOW_GAIN_EXPANDER as int]@.len(),
            match command {
                InstanceDriverCommand::CheckConnection => r is Ok && final(self).io_exp_data@ == old(self).io_exp_data@,
                InstanceDriverCommand::SetParameters { low_gain } => r is Ok && match low_gain {
                    None => final(self).io_exp_data@ == old(self).io_exp_data@,
                    Some(values) => forall|b: int| 0 <= b < old(self).io_exp_data@[LOW_GAIN_EXPANDER as int]@.len() * 16 ==>
                        #[trigger] memory_bit(final(self).io_exp_data@[LOW_GAIN_EXPANDER as int]@, b) == regions_written(
                            old(self).low_gain@.map_values(|g: UnipotRegion| g.bits@),
                            values@,
                            old(self).io_exp_data@[LOW_GAIN_EXPANDER as int]@,
                            b,
                        ),
                },
                _ => r == Err::<(), InstanceDriverError>(InstanceDriverError::MediaNotPresent)
                    && final(self).io_exp_data@ == old(self).io_exp_data@,
            },
    {
        match command {
            InstanceDriverCommand::CheckConnection => Ok(()),
            InstanceDriverCommand::SetParameters { low_gain } => {
                match low_gain {
                    None => {},
                    Some(values) => {
                        let ghost regions = self.low_gain@.map_values(|g: UnipotRegion| g.bits@);
                        let ghost mem0 = self.io_exp_data@[LOW_GAIN_EXPANDER as int]@;
                        let ghost data0 = self.io_exp_data@;
                        let mut row = self.io_exp_data.remove(LOW_GAIN_EXPANDER);
                        let n = values.len();
                        let mut ch: usize = 0;
                        while ch < n
                            invariant
                                n == values@.len(),
                                n <= self.low_gain@.len(),
                                ch <= n,
                                self.low_gain == old(self).low_gain,
                                regions == self.low_gain@.map_values(|g: UnipotRegion| g.bits@),
                                forall|c: int| 0 <= c < self.low_gain@.len() ==> (#[trigger] self.low_gain@[c]).fits(mem0.len()),
                                row@.len() == mem0.len(),
                                forall|b: int| 0 <= b < mem0.len() * 16 ==> #[trigger] memory_bit(row@, b) == regions_written(
                                    regions,
                                    values@.take(ch as int),
                                    mem0,
                                    b,
                                ),
                            decreases n - ch,
                        {
                            let ghost before = row@;
                            self.low_gain[ch].write(row.as_mut_slice(), values[ch]);
                            proof {
                                let vs = values@.take(ch as int + 1);
                                assert(vs.drop_last() =~= values@.take(ch as int));
                                assert(regions[ch as int] == self.low_gain@[ch as int].bits@);
                                assert forall|b: int| 0 <= b < mem0.len() * 16 implies #[trigger] memory_bit(row@, b)
                                    == regions_written(regions, vs, mem0, b) by {
                                    assert(region_written(self.low_gain@[ch as int].bits@, values@[ch as int], before, b)
                                        == memory_bit(row@, b));
                                }
                            }
                            ch = ch + 1;
                        }
                        proof {
                            assert(values@.take(n as int) =~= values@);
                        }
                        self.io_exp_data.insert(LOW_GAIN_EXPANDER, row);
                        proof {
                            assert forall|e: int| 0 <= e < data0.len() && e != LOW_GAIN_EXPANDER implies (
                            #[trigger] self.io_exp_data@[e])@ == data0[e]@ by {
                            }
                        }
                    },
                }
                Ok(())
            },
            _ => Err(InstanceDriverError::MediaNotPresent),
        }
    }
}

} // verus!
