use wireless_m_bus::crc::checksum;
use wireless_m_bus::frame::{label, ACK, BROADCAST, RSP_UD, SND_NR, SND_UD};
use wireless_m_bus::text::encode_hex;
use wireless_m_bus::{Frame, TransportError, MAX_DATA};

const ADDRESS: [u8; 8] = [0xb0, 0x61, 0x78, 0x56, 0x34, 0x12, 1, 7];

#[test]
fn a_frame_encodes_with_a_crc_a_block_and_decodes_back() {
    let frame = Frame {
        control: SND_NR,
        address: ADDRESS,
        ci: 0x7a,
        data: (0..40).collect(),
    };
    let bytes = frame.encode().expect("encode");
    assert_eq!(bytes[0], 50, "the length counts no CRC");
    assert_eq!(
        bytes.len(),
        12 + 18 + 18 + 11,
        "three blocks past the first"
    );
    assert_eq!(Frame::decode(&bytes).expect("decode"), frame);
    let empty = Frame {
        control: ACK,
        address: ADDRESS,
        ci: 0x7a,
        data: vec![],
    };
    let bytes = empty.encode().expect("encode");
    assert_eq!(bytes.len(), 12 + 3);
    assert_eq!(Frame::decode(&bytes).expect("decode"), empty);
    let full = Frame {
        control: SND_UD,
        address: BROADCAST,
        ci: 0x51,
        data: vec![9; MAX_DATA],
    };
    assert_eq!(
        Frame::decode(&full.encode().expect("encode")).expect("decode"),
        full
    );
    assert!(Frame {
        data: vec![9; MAX_DATA + 1],
        ..full
    }
    .encode()
    .is_err());
}

#[test]
fn a_frame_whose_blocks_do_not_check_is_refused() {
    let frame = Frame {
        control: RSP_UD,
        address: ADDRESS,
        ci: 0x7a,
        data: vec![1, 2, 3],
    };
    let good = frame.encode().expect("encode");
    let mut first_block = good.clone();
    first_block[3] ^= 0x01;
    assert!(Frame::decode(&first_block).is_err(), "the first CRC");
    let mut second_block = good.clone();
    second_block[14] ^= 0x01;
    assert!(Frame::decode(&second_block).is_err(), "the second CRC");
    assert!(Frame::decode(&good[..12]).is_err(), "cut short");
    let mut trailing = good.clone();
    trailing.push(0);
    assert!(
        Frame::decode(&trailing).is_err(),
        "bytes after the last block"
    );
    assert!(Frame::decode(&[0; 5]).is_err(), "shorter than a block");
    let mut short_length = good;
    short_length[0] = 9;
    assert!(
        Frame::decode(&short_length).is_err(),
        "the CRC catches the length"
    );
}

#[test]
fn a_link_address_reads_back_as_the_meter_label() {
    assert_eq!(label(&ADDRESS), "XMP-12345678");
    assert_eq!(label(&[0x41, 0x04, 0x01, 0, 0, 0, 0, 0]), "ABA-00000001");
}

#[test]
fn the_checksum_has_the_check_value_of_its_catalogue() {
    assert_eq!(checksum(b"123456789"), 0xc2b7);
    assert_eq!(checksum(b""), 0xffff);
}

#[test]
fn the_checksum_tells_one_changed_byte() {
    let data: Vec<u8> = (0..16).collect();
    let sum = checksum(&data);
    for i in 0..data.len() {
        for byte in 0..=255u8 {
            let mut changed = data.clone();
            changed[i] = byte;
            assert_eq!(checksum(&changed) == sum, byte == data[i]);
        }
    }
}

#[test]
fn a_meters_transmission_has_known_bytes() {
    let frame = Frame {
        control: SND_NR,
        address: [0xae, 0x0c, 0x78, 0x56, 0x34, 0x12, 0x01, 0x07],
        ci: 0x78,
        data: vec![0x0b, 0x13, 0x43, 0x65, 0x87],
    };
    let air = vec![
        0x0f, 0x44, 0xae, 0x0c, 0x78, 0x56, 0x34, 0x12, 0x01, 0x07, 0x44, 0x47, 0x78, 0x0b, 0x13,
        0x43, 0x65, 0x87, 0x1e, 0x6d,
    ];
    assert_eq!(frame.encode(), Ok(air.clone()));
    assert_eq!(Frame::decode(&air), Ok(frame));
    assert_eq!(
        label(&[0xae, 0x0c, 0x78, 0x56, 0x34, 0x12, 0x01, 0x07]),
        "CEN-12345678"
    );
}

#[test]
fn every_length_of_data_round_trips() {
    for len in 0..=MAX_DATA {
        let frame = Frame {
            control: RSP_UD,
            address: ADDRESS,
            ci: 0x7a,
            data: (0..len).map(|n| (n * 7) as u8).collect(),
        };
        let bytes = frame.encode().expect("encode");
        assert_eq!(usize::from(bytes[0]), 10 + len);
        assert_eq!(bytes.len(), 12 + 1 + len + 2 * ((1 + len + 15) / 16));
        assert_eq!(Frame::decode(&bytes), Ok(frame));
    }
}

#[test]
fn one_changed_byte_is_refused_wherever_it_stands() {
    let frame = Frame {
        control: RSP_UD,
        address: ADDRESS,
        ci: 0x7a,
        data: (0..40).collect(),
    };
    let good = frame.encode().expect("encode");
    for i in 0..good.len() {
        for change in 1..=255u8 {
            let mut changed = good.clone();
            changed[i] ^= change;
            assert_eq!(
                Frame::decode(&changed),
                Err(TransportError::ChecksumMismatch)
            );
        }
    }
}

#[test]
fn a_cut_frame_is_refused_wherever_it_is_cut() {
    let frame = Frame {
        control: RSP_UD,
        address: ADDRESS,
        ci: 0x7a,
        data: (0..40).collect(),
    };
    let good = frame.encode().expect("encode");
    for k in 0..good.len() {
        let error = if k < 12 {
            TransportError::FrameTooShort
        } else {
            TransportError::FrameCutShort
        };
        assert_eq!(Frame::decode(&good[..k]), Err(error));
    }
    let mut more = good.clone();
    more.extend_from_slice(&good);
    assert_eq!(Frame::decode(&more), Err(TransportError::TrailingBytes));
}

#[test]
fn a_length_shorter_than_the_first_block_is_refused() {
    for length in 0..10u8 {
        let mut bytes = vec![length, RSP_UD];
        bytes.extend_from_slice(&ADDRESS);
        let sum = checksum(&bytes);
        bytes.extend_from_slice(&sum.to_be_bytes());
        assert_eq!(Frame::decode(&bytes), Err(TransportError::LengthTooShort));
    }
}

#[test]
fn data_over_a_frame_is_refused_with_its_length() {
    let frame = Frame {
        control: SND_UD,
        address: ADDRESS,
        ci: 0x51,
        data: vec![0; 300],
    };
    let error = frame.encode().expect_err("too long");
    assert_eq!(error, TransportError::DataTooLong { len: 300 });
    assert_eq!(
        error.message(),
        "300 bytes of user data is over a wireless frame's 245"
    );
}

#[test]
fn the_errors_say_what_is_the_matter() {
    assert_eq!(
        TransportError::FrameTooShort.message(),
        "a frame shorter than its first block"
    );
    assert_eq!(
        TransportError::LengthTooShort.message(),
        "a length shorter than the first block"
    );
    assert_eq!(
        TransportError::FrameCutShort.message(),
        "a frame cut short inside a block"
    );
    assert_eq!(
        TransportError::ChecksumMismatch.message(),
        "a block whose CRC does not check"
    );
    assert_eq!(
        TransportError::TrailingBytes.message(),
        "bytes after the last block"
    );
    assert_eq!(
        TransportError::NotMeterData {
            control: 0,
            ci: 0x7a
        }
        .message(),
        format!(
            "control {:#04x} with information {:#04x} is not the meter's data",
            0, 0x7a
        )
    );
    assert_eq!(
        TransportError::NotAcknowledged { control: 8 }.message(),
        format!("control {:#04x} where an acknowledgement was due", 8)
    );
    assert_eq!(
        TransportError::NoAnswer.message(),
        "the meter did not answer"
    );
    assert!(TransportError::NoAnswer.retryable());
    assert!(!TransportError::ChecksumMismatch.retryable());
}

#[test]
fn bytes_are_written_in_hexadecimal() {
    assert_eq!(encode_hex(&[0x00, 0x9f, 0xa0, 0xff]), "009fa0ff");
    assert_eq!(label(&BROADCAST), "___-ffffffff");
}

#[test]
fn a_label_names_one_meter() {
    for i in 0..8 {
        for bit in 0..8 {
            let mut other = ADDRESS;
            other[i] ^= 1 << bit;
            let named = i < 6 && !(i == 1 && bit == 7);
            assert_eq!(label(&other) != label(&ADDRESS), named);
        }
    }
}
