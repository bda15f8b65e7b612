use wireless_m_bus::device::{
    acknowledged, records_of, Answered, Arrived, Directions, ListenStep, Listened, ReadStep,
    Timeout, Writing,
};
use wireless_m_bus::frame::{ACK, REQ_UD2, RSP_UD, SND_NKE, SND_NR, SND_UD};
use wireless_m_bus::loopback::LoopbackRadio;
use wireless_m_bus::record::{CI_DATA_SEND, CI_VARIABLE_SHORT};
use wireless_m_bus::{Frame, TransportError, WirelessMBusTransport, ANSWER_ROOM, MAX_DATA};

/// `ABC`, identification 1, version 0, medium 3.
const METER: [u8; 8] = [0x43, 0x04, 0x01, 0, 0, 0, 0, 3];

fn device() -> WirelessMBusTransport {
    WirelessMBusTransport::new(String::from("street"), METER)
}

fn from_meter(control: u8, data: &[u8]) -> Option<Vec<u8>> {
    let mut body = vec![1, 0, 0, 0];
    body.extend_from_slice(data);
    let frame = Frame {
        control,
        address: METER,
        ci: CI_VARIABLE_SHORT,
        data: body,
    };
    Some(frame.encode().expect("encode"))
}

#[test]
fn a_device_names_itself_and_the_meter_it_talks_to() {
    let mut radio = LoopbackRadio::new(METER);
    let device = WirelessMBusTransport::new(radio.name(), radio.meter());
    assert_eq!(device.name(), "wireless-m-bus");
    assert!(device.directions().receives && device.directions().sends);
    assert_eq!(
        device.origin(&device.address),
        "wmbus://loopback/ABC-00000001"
    );
    assert!(matches!(
        device.listen().heard(radio.receive()).expect("quiet"),
        Listened::Quiet(None)
    ));
}

#[test]
fn a_frame_that_is_not_the_meters_data_is_refused() {
    let frame = Frame {
        control: ACK,
        address: METER,
        ci: CI_VARIABLE_SHORT,
        data: vec![1, 0, 0, 0],
    };
    acknowledged(&frame).expect("an acknowledgement");
    assert!(
        records_of(&frame, RSP_UD).is_err(),
        "an acknowledgement is no data"
    );
    let data = Frame {
        control: RSP_UD,
        ci: CI_DATA_SEND,
        ..frame
    };
    assert!(records_of(&data, RSP_UD).is_err(), "no short header");
    assert!(acknowledged(&data).is_err(), "data is no acknowledgement");
}

#[test]
fn a_device_waits_a_second_unless_told_otherwise() {
    let device = device();
    assert_eq!(device.timeout, Timeout { secs: 1, nanos: 0 });
    let patient = device.timing_out_after(Timeout {
        secs: 5,
        nanos: 250_000_000,
    });
    assert_eq!(
        patient.timeout,
        Timeout {
            secs: 5,
            nanos: 250_000_000
        }
    );
    assert_eq!(patient.address, METER);
    assert_eq!(patient.air, "street");
    assert_eq!(
        patient.directions(),
        Directions {
            receives: true,
            sends: true
        }
    );
}

#[test]
fn records_stand_behind_the_short_header() {
    let frame = |data: &[u8]| Frame {
        control: RSP_UD,
        address: METER,
        ci: CI_VARIABLE_SHORT,
        data: data.to_vec(),
    };
    assert_eq!(
        records_of(&frame(&[1, 0, 0, 0, 7, 8]), RSP_UD),
        Ok(vec![7, 8])
    );
    assert_eq!(records_of(&frame(&[1, 0, 0, 0]), RSP_UD), Ok(vec![]));
    assert_eq!(records_of(&frame(&[1, 0, 0]), RSP_UD), Ok(vec![]));
    assert_eq!(
        records_of(&frame(&[]), SND_NR),
        Err(TransportError::NotMeterData {
            control: RSP_UD,
            ci: CI_VARIABLE_SHORT
        })
    );
    assert_eq!(ANSWER_ROOM, 241);
}

#[test]
fn an_exchange_transmits_the_request_and_takes_the_answer() {
    let device = device();
    let exchange = device
        .exchange(SND_UD, CI_DATA_SEND, vec![1, 2, 3])
        .expect("fits");
    assert_eq!(
        Frame::decode(&exchange.telegram),
        Ok(Frame {
            control: SND_UD,
            address: METER,
            ci: CI_DATA_SEND,
            data: vec![1, 2, 3]
        })
    );
    let answer = exchange
        .answered(from_meter(ACK, &[]))
        .expect("an answer");
    assert_eq!(answer.control, ACK);
    assert_eq!(answer.address, METER);
    let exchange = device.exchange(REQ_UD2, 0x7b, vec![]).expect("fits");
    assert_eq!(
        exchange.answered(Some(vec![0; 20])),
        Err(TransportError::ChecksumMismatch)
    );
    let exchange = device.exchange(REQ_UD2, 0x7b, vec![]).expect("fits");
    let silence = exchange.answered(None).expect_err("silence");
    assert_eq!(silence, TransportError::NoAnswer);
    assert!(device
        .exchange(SND_UD, CI_DATA_SEND, vec![0; MAX_DATA + 1])
        .is_err());
}

#[test]
fn a_meter_is_initialised_once_it_acknowledges() {
    let device = device();
    let initialising = device.initialise();
    assert_eq!(
        Frame::decode(&initialising.telegram),
        Ok(Frame {
            control: SND_NKE,
            address: METER,
            ci: CI_DATA_SEND,
            data: vec![]
        })
    );
    assert_eq!(initialising.answered(from_meter(ACK, &[])), Ok(()));
    assert_eq!(
        device.initialise().answered(from_meter(RSP_UD, &[])),
        Err(TransportError::NotAcknowledged { control: RSP_UD })
    );
    assert_eq!(
        device.initialise().answered(None),
        Err(TransportError::NoAnswer)
    );
}

#[test]
fn a_stream_is_written_a_telegram_at_a_time() {
    let device = device();
    let telegrams = vec![vec![1, 2], vec![], vec![3]];
    let mut transmitted = Vec::new();
    let mut writing = device.write_stream(telegrams.clone()).expect("fits");
    while let Writing::Exchange(sending) = writing {
        transmitted.push(Frame::decode(&sending.telegram).expect("a frame"));
        writing = sending
            .answered(from_meter(ACK, &[]))
            .expect("acknowledged");
    }
    assert_eq!(transmitted.len(), 3);
    for (frame, data) in transmitted.into_iter().zip(telegrams) {
        assert_eq!(
            frame,
            Frame {
                control: SND_UD,
                address: METER,
                ci: CI_DATA_SEND,
                data
            }
        );
    }
    assert!(matches!(
        device.write_stream(vec![]).expect("nothing to write"),
        Writing::Written
    ));
}

#[test]
fn a_telegram_that_is_not_acknowledged_ends_the_writing() {
    let device = device();
    let first = |heard| match device
        .write_stream(vec![vec![1], vec![0; MAX_DATA + 1]])
        .expect("the first fits")
    {
        Writing::Exchange(sending) => sending.answered(heard).expect_err("ends"),
        Writing::Written => unreachable!(),
    };
    assert_eq!(first(None), TransportError::NoAnswer);
    assert_eq!(
        first(from_meter(RSP_UD, &[])),
        TransportError::NotAcknowledged { control: RSP_UD }
    );
    assert_eq!(
        first(from_meter(ACK, &[])),
        TransportError::DataTooLong { len: MAX_DATA + 1 }
    );
    assert!(device.write_stream(vec![vec![0; MAX_DATA + 1]]).is_err());
}

#[test]
fn a_stream_is_read_until_no_more_follow() {
    let device = device();
    let reading = device.read_stream();
    assert_eq!(
        Frame::decode(&reading.telegram),
        Ok(Frame {
            control: REQ_UD2,
            address: METER,
            ci: CI_DATA_SEND,
            data: vec![]
        })
    );
    let answered: Answered = reading
        .answered(from_meter(RSP_UD, &[10, 11]))
        .expect("data");
    assert_eq!(answered.records, vec![10, 11]);
    let reading = match answered.unpacked(vec![1, 2], true) {
        ReadStep::Ask(reading) => reading,
        ReadStep::Arrived(_) => unreachable!(),
    };
    let answered = reading.answered(from_meter(RSP_UD, &[12])).expect("data");
    match answered.unpacked(vec![3], false) {
        ReadStep::Arrived(arrived) => {
            assert_eq!(arrived.bytes, vec![1, 2, 3]);
            assert_eq!(arrived.origin_uri, "wmbus://street/ABC-00000001");
        }
        ReadStep::Ask(_) => unreachable!(),
    }
    assert_eq!(
        device
            .read_stream()
            .answered(from_meter(ACK, &[]))
            .expect_err("no data"),
        TransportError::NotMeterData {
            control: ACK,
            ci: CI_VARIABLE_SHORT
        }
    );
    assert_eq!(
        device.read_stream().answered(None).expect_err("silence"),
        TransportError::NoAnswer
    );
}

#[test]
fn a_stream_that_breaks_off_is_what_there_is_of_it() {
    let device = device();
    let overheard = match device.listen().heard(from_meter(SND_NR, &[9])).expect("data") {
        Listened::Telegram(overheard) => overheard,
        Listened::Quiet(_) => unreachable!(),
    };
    assert_eq!(overheard.records, vec![9]);
    let listening = match overheard.unpacked(vec![1, 2], true) {
        ListenStep::Listen(listening) => listening,
        ListenStep::Arrived(_) => unreachable!(),
    };
    match listening.heard(None).expect("quiet") {
        Listened::Quiet(Some(arrived)) => {
            assert_eq!(arrived.bytes, vec![1, 2]);
            assert_eq!(
                arrived.origin_uri,
                "wmbus://street/ABC-00000001?unsolicited=true"
            );
        }
        _ => unreachable!(),
    }
    assert_eq!(
        device
            .listen()
            .heard(from_meter(RSP_UD, &[9]))
            .expect_err("an answer is not sent unasked"),
        TransportError::NotMeterData {
            control: RSP_UD,
            ci: CI_VARIABLE_SHORT
        }
    );
    assert_eq!(
        device.listen().heard(Some(vec![])).expect_err("no frame"),
        TransportError::FrameTooShort
    );
}

#[test]
fn what_came_unasked_is_received_and_the_meter_is_asked_otherwise() {
    let device = device();
    let arrived = Arrived {
        origin_uri: String::from("wmbus://street/ABC-00000001?unsolicited=true"),
        bytes: vec![1],
    };
    match device.receive(Some(arrived.clone())) {
        ReadStep::Arrived(same) => assert_eq!(same, arrived),
        ReadStep::Ask(_) => unreachable!(),
    }
    match device.receive(None) {
        ReadStep::Ask(reading) => assert_eq!(reading.telegram, device.read_stream().telegram),
        ReadStep::Arrived(_) => unreachable!(),
    }
}

#[test]
fn every_wait_is_under_the_timeout() {
    let timeout = Timeout { secs: 3, nanos: 7 };
    let device = device().timing_out_after(timeout);
    assert_eq!(device.initialise().timeout, timeout);
    let exchange = device.exchange(REQ_UD2, 0x7b, vec![]).expect("fits");
    assert_eq!(exchange.timeout, timeout);
    let mut writing = device.write_stream(vec![vec![1], vec![2]]).expect("fits");
    while let Writing::Exchange(sending) = writing {
        assert_eq!(sending.timeout, timeout);
        assert_eq!(sending.address, METER);
        writing = sending
            .answered(from_meter(ACK, &[]))
            .expect("acknowledged");
    }
    assert_eq!(device.read_stream().device.timeout, timeout);
    assert_eq!(device.listen().device.timeout, timeout);
}
