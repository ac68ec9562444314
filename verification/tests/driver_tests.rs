use audiocloud::driver::{InstanceDriverCommand, InstanceDriverError};
use audiocloud::dual_1084::{Config, Dual1084, SpiTransfer, UnipotRegion, LOW_GAIN_EXPANDER};
use audiocloud::ids::{PlayId, RenderId};
use audiocloud::utils::{swap_u16, write_bit_16};

#[test]
fn write_bit_sets_and_clears() {
    let mut word: u16 = 0b1010;
    write_bit_16(&mut word, 0, 1);
    assert_eq!(word, 0b1011);
    write_bit_16(&mut word, 3, 0);
    assert_eq!(word, 0b0011);
    write_bit_16(&mut word, 15, 7);
    assert_eq!(word, 0x8003);
    write_bit_16(&mut word, 15, 0);
    assert_eq!(word, 0x0003);
}

#[test]
fn swap_exchanges_bytes() {
    assert_eq!(swap_u16(0x1234), 0x3412);
    assert_eq!(swap_u16(0x00ff), 0xff00);
    assert_eq!(swap_u16(swap_u16(0xabcd)), 0xabcd);
}

#[test]
fn unipot_region_writes_value_bits() {
    let region = UnipotRegion::new(vec![0, 1, 17]);
    let mut memory = [0u16, 0u16];
    region.write(&mut memory, 0b101);
    assert_eq!(memory, [0b01, 0b10]);
    region.write(&mut memory, 0b010);
    assert_eq!(memory, [0b10, 0b00]);
}

#[test]
fn unipot_region_keeps_other_bits() {
    let region = UnipotRegion::new(vec![4]);
    let mut memory = [0xffffu16];
    region.write(&mut memory, 0);
    assert_eq!(memory, [0xffef]);
}

#[test]
fn spi_transfer_takes_nine_words() {
    let words = [1u32, 2, 3, 4, 5, 6, 7, 8, 9];
    let transfer = SpiTransfer::write(&words);
    assert_eq!(transfer.data, words);
}

#[test]
fn default_device_node() {
    assert_eq!(Config::default_device(), "/dev/PIVO");
}

#[test]
fn dual_1084_writes_low_gain() {
    let mut dev = Dual1084::with_registers();
    let r = dev.handle(InstanceDriverCommand::SetParameters { low_gain: Some(vec![0x7f, 0x01]) });
    assert!(r.is_ok());
    let row = &dev.io_exp_data[LOW_GAIN_EXPANDER];
    // bits 57..=63 of the first channel, bit 28 for the second channel's lowest value bit
    assert_eq!(row[3], 0xfe00);
    assert_eq!(row[1], 1 << 12);
    assert_eq!(row[0], 0);
    for (e, other) in dev.io_exp_data.iter().enumerate() {
        if e != LOW_GAIN_EXPANDER {
            assert_eq!(other, &vec![0u16; 6]);
        }
    }
}

#[test]
fn dual_1084_without_media() {
    let mut dev = Dual1084::with_registers();
    assert_eq!(dev.handle(InstanceDriverCommand::CheckConnection), Ok(()));
    assert_eq!(dev.handle(InstanceDriverCommand::Play { play_id: PlayId(1) }), Err(InstanceDriverError::MediaNotPresent));
    assert_eq!(dev.handle(InstanceDriverCommand::Render { render_id: RenderId(2) }), Err(InstanceDriverError::MediaNotPresent));
    assert_eq!(dev.handle(InstanceDriverCommand::Stop), Err(InstanceDriverError::MediaNotPresent));
    assert_eq!(dev.handle(InstanceDriverCommand::Rewind), Err(InstanceDriverError::MediaNotPresent));
    assert_eq!(dev.handle(InstanceDriverCommand::SetParameters { low_gain: None }), Ok(()));
    assert!(dev.io_exp_data.iter().all(|row| row.iter().all(|w| *w == 0)));
}
