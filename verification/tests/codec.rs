use sbus_rs::{
    is_flag_set, pack_channels, pack_frame, unpack_channels, Flags, SbusError, SbusPacket,
    CHANNEL_COUNT, CHANNEL_MAX, SBUS_FOOTER, SBUS_FRAME_LENGTH, SBUS_HEADER,
};

/// The frame that carries 1000 on every channel and no flag.
const ALL_1000: [u8; 25] = [
    0x0F, 0xE8, 0x43, 0x1F, 0xFA, 0xD0, 0x87, 0x3E, 0xF4, 0xA1, 0x0F, 0x7D, 0xE8, 0x43, 0x1F, 0xFA,
    0xD0, 0x87, 0x3E, 0xF4, 0xA1, 0x0F, 0x7D, 0x00, 0x00,
];

#[test]
fn constants_have_the_protocol_values() {
    assert_eq!(SBUS_HEADER, 0x0F);
    assert_eq!(SBUS_FOOTER, 0x00);
    assert_eq!(SBUS_FRAME_LENGTH, 25);
    assert_eq!(CHANNEL_COUNT, 16);
    assert_eq!(CHANNEL_MAX, 2047);
}

#[test]
fn pack_frame_gives_the_known_bytes() {
    assert_eq!(pack_frame(&[1000; 16], 0), ALL_1000);
}

#[test]
fn pack_frame_of_zeros_is_header_and_zeros() {
    let mut expected = [0u8; 25];
    expected[0] = 0x0F;
    assert_eq!(pack_frame(&[0; 16], 0), expected);
}

#[test]
fn pack_frame_of_maxima_fills_the_payload() {
    let mut expected = [0xFFu8; 25];
    expected[0] = 0x0F;
    expected[23] = 0x0A;
    expected[24] = 0x00;
    assert_eq!(pack_frame(&[CHANNEL_MAX; 16], 0x0A), expected);
}

#[test]
fn each_channel_lands_on_its_bits() {
    // Channel 0: bits 0 to 10 of the payload.
    let mut channels = [0u16; 16];
    channels[0] = 0x07FF;
    let frame = pack_frame(&channels, 0);
    assert_eq!(&frame[1..4], &[0xFF, 0x07, 0x00]);
    assert!(frame[4..24].iter().all(|&b| b == 0));

    // Channel 1: bits 11 to 21.
    let mut channels = [0u16; 16];
    channels[1] = 0x07FF;
    let frame = pack_frame(&channels, 0);
    assert_eq!(&frame[1..5], &[0x00, 0xF8, 0x3F, 0x00]);

    // Channel 2: bits 22 to 32, over three bytes.
    let mut channels = [0u16; 16];
    channels[2] = 0x07FF;
    let frame = pack_frame(&channels, 0);
    assert_eq!(&frame[1..7], &[0x00, 0x00, 0xC0, 0xFF, 0x01, 0x00]);

    // Channel 15: bits 165 to 175, the end of the payload.
    let mut channels = [0u16; 16];
    channels[15] = 0x07FF;
    let frame = pack_frame(&channels, 0);
    assert!(frame[1..21].iter().all(|&b| b == 0));
    assert_eq!(&frame[21..25], &[0xE0, 0xFF, 0x00, 0x00]);

    // A single low bit of channel 8 is bit 88: bit 0 of payload byte 11.
    let mut channels = [0u16; 16];
    channels[8] = 1;
    let frame = pack_frame(&channels, 0);
    assert_eq!(frame[12], 0x01);
    assert_eq!(frame.iter().filter(|&&b| b != 0).count(), 2);
}

#[test]
fn pack_channels_leaves_header_flags_and_footer() {
    let mut buffer = [0x77u8; 25];
    pack_channels(&mut buffer, &[1000; 16]);
    assert_eq!(buffer[0], 0x77);
    assert_eq!(buffer[23], 0x77);
    assert_eq!(buffer[24], 0x77);
    assert_eq!(&buffer[1..23], &ALL_1000[1..23]);
}

#[test]
fn pack_channels_overwrites_what_the_payload_held() {
    let mut dirty = [0xFFu8; 25];
    let mut clean = [0u8; 25];
    let channels = [0, 1, 2, 3, 4, 5, 6, 7, 8, 9, 10, 11, 12, 13, 14, 15];
    pack_channels(&mut dirty, &channels);
    pack_channels(&mut clean, &channels);
    assert_eq!(&dirty[1..23], &clean[1..23]);
}

#[test]
fn from_array_decodes_the_known_bytes() {
    let packet = SbusPacket::from_array(&ALL_1000).unwrap();
    assert_eq!(packet.channels, [1000; 16]);
    assert_eq!(
        packet.flags,
        Flags { d1: false, d2: false, failsafe: false, frame_lost: false }
    );
}

#[test]
fn unpack_channels_reads_the_payload_only() {
    let mut frame = ALL_1000;
    frame[0] = 0xAB;
    frame[24] = 0xCD;
    assert_eq!(unpack_channels(&frame), [1000; 16]);
}

#[test]
fn round_trip_for_every_flag_combination() {
    let channels = [
        0, 2047, 1, 1024, 1023, 512, 1365, 682, 2046, 7, 1000, 1500, 2000, 33, 1999, 2047,
    ];
    for flag_byte in 0u8..16 {
        let frame = pack_frame(&channels, flag_byte);
        let packet = SbusPacket::from_array(&frame).unwrap();
        assert_eq!(packet.channels, channels);
        assert_eq!(packet.flags.d1, flag_byte & 1 != 0);
        assert_eq!(packet.flags.d2, flag_byte & 2 != 0);
        assert_eq!(packet.flags.frame_lost, flag_byte & 4 != 0);
        assert_eq!(packet.flags.failsafe, flag_byte & 8 != 0);
    }
}

#[test]
fn round_trip_for_each_channel_alone() {
    for i in 0..CHANNEL_COUNT {
        for value in [1u16, 2, 1024, 1365, 2047] {
            let mut channels = [0u16; 16];
            channels[i] = value;
            let packet = SbusPacket::from_array(&pack_frame(&channels, 0)).unwrap();
            assert_eq!(packet.channels, channels);
        }
    }
}

#[test]
fn out_of_range_channels_are_cut_to_eleven_bits() {
    let mut channels = [0u16; 16];
    channels[0] = 2048;
    channels[1] = 0xFFFF;
    channels[2] = 3048;
    channels[3] = 0x0800 | 5;
    channels[15] = 0xF800;
    let packet = SbusPacket::from_array(&pack_frame(&channels, 0)).unwrap();
    assert_eq!(packet.channels[0], 0);
    assert_eq!(packet.channels[1], 2047);
    assert_eq!(packet.channels[2], 1000);
    assert_eq!(packet.channels[3], 5);
    assert_eq!(packet.channels[15], 0);
    for i in 4..15 {
        assert_eq!(packet.channels[i], 0);
    }
    // The frame is the one that the values in range give.
    let mut cut = [0u16; 16];
    cut[1] = 2047;
    cut[2] = 1000;
    cut[3] = 5;
    assert_eq!(pack_frame(&channels, 0), pack_frame(&cut, 0));
}

#[test]
fn from_array_rejects_a_wrong_header() {
    let mut frame = ALL_1000;
    frame[0] = 0x00;
    assert_eq!(SbusPacket::from_array(&frame), Err(SbusError::InvalidHeader(0x00)));
    frame[0] = 0xF0;
    assert_eq!(SbusPacket::from_array(&frame), Err(SbusError::InvalidHeader(0xF0)));
}

#[test]
fn from_array_rejects_a_wrong_footer() {
    let mut frame = ALL_1000;
    frame[24] = 0xFF;
    assert_eq!(SbusPacket::from_array(&frame), Err(SbusError::InvalidFooter(0xFF)));
    frame[24] = 0x04;
    assert_eq!(SbusPacket::from_array(&frame), Err(SbusError::InvalidFooter(0x04)));
}

#[test]
fn from_array_rejects_reserved_flag_bits() {
    for flag_byte in [0x10u8, 0x20, 0x40, 0x80, 0x1F, 0xF0, 0xFF] {
        let mut frame = ALL_1000;
        frame[23] = flag_byte;
        assert_eq!(SbusPacket::from_array(&frame), Err(SbusError::InvalidFooter(flag_byte)));
    }
}

#[test]
fn from_array_looks_at_header_then_footer_then_flags() {
    let mut frame = ALL_1000;
    frame[0] = 0x01;
    frame[24] = 0x02;
    frame[23] = 0x30;
    assert_eq!(SbusPacket::from_array(&frame), Err(SbusError::InvalidHeader(0x01)));
    frame[0] = SBUS_HEADER;
    assert_eq!(SbusPacket::from_array(&frame), Err(SbusError::InvalidFooter(0x02)));
    frame[24] = SBUS_FOOTER;
    assert_eq!(SbusPacket::from_array(&frame), Err(SbusError::InvalidFooter(0x30)));
    frame[23] = 0x03;
    assert!(SbusPacket::from_array(&frame).is_ok());
}

#[test]
fn from_array_does_not_judge_channel_values() {
    let mut frame = [0xFFu8; 25];
    frame[0] = SBUS_HEADER;
    frame[23] = 0x0F;
    frame[24] = SBUS_FOOTER;
    let packet = SbusPacket::from_array(&frame).unwrap();
    assert_eq!(packet.channels, [CHANNEL_MAX; 16]);
    assert!(packet.flags.d1 && packet.flags.d2 && packet.flags.frame_lost && packet.flags.failsafe);
}

#[test]
fn flags_from_byte_reads_the_four_low_bits() {
    assert_eq!(
        Flags::from_byte(0b0101),
        Flags { d1: true, d2: false, frame_lost: true, failsafe: false }
    );
    assert_eq!(
        Flags::from_byte(0b1010),
        Flags { d1: false, d2: true, frame_lost: false, failsafe: true }
    );
    // Bits above the fourth are not flags.
    assert_eq!(
        Flags::from_byte(0xF0),
        Flags { d1: false, d2: false, frame_lost: false, failsafe: false }
    );
}

#[test]
fn is_flag_set_reads_one_bit() {
    assert!(is_flag_set(0b0000_0100, 2));
    assert!(!is_flag_set(0b0000_0100, 1));
    assert!(!is_flag_set(0b0000_0100, 3));
    assert!(is_flag_set(0x80, 7));
    assert!(!is_flag_set(0x7F, 7));
    assert!(is_flag_set(0x01, 0));
    assert!(!is_flag_set(0xFE, 0));
}
