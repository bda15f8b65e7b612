use wireless_m_bus::device::{Arrived, ListenStep, Listened, ReadStep, Timeout, Writing};
use wireless_m_bus::frame::{BROADCAST, SND_NR};
use wireless_m_bus::loopback::{Asked, LoopbackRadio};
use wireless_m_bus::record::CI_DATA_SEND;
use wireless_m_bus::{Frame, TransportError, WirelessMBusTransport, ANSWER_ROOM, MAX_DATA};

const TEN_MILLIS: Timeout = Timeout {
    secs: 0,
    nanos: 10_000_000,
};

/// The byte behind the records of a telegram whose Stream goes on in the next.
const MORE_FOLLOW: u8 = 0x1f;

/// `bytes` as telegrams of at most `room`: a byte of length ahead of the record, and a mark
/// behind it where more follow. The last telegram ends in the Stream's own last byte.
fn pack(bytes: &[u8], room: usize) -> Vec<Vec<u8>> {
    let mut parts: Vec<&[u8]> = bytes.chunks(room - 2).collect();
    if parts.is_empty() {
        parts.push(&[]);
    }
    let last = parts.len() - 1;
    parts
        .into_iter()
        .enumerate()
        .map(|(i, part)| {
            let mut data = vec![part.len() as u8];
            data.extend_from_slice(part);
            if i < last {
                data.push(MORE_FOLLOW);
            }
            data
        })
        .collect()
}

fn unpack(data: &[u8]) -> (Vec<u8>, bool) {
    let len = usize::from(data[0]);
    (data[1..1 + len].to_vec(), data.len() > 1 + len)
}

/// A meter that holds one Stream.
struct Meter {
    held: Vec<u8>,
    ended: bool,
    next: usize,
    access: u8,
}

impl Meter {
    fn new() -> Self {
        Meter {
            held: Vec::new(),
            ended: true,
            next: 0,
            access: 0,
        }
    }

    fn reset(&mut self) {
        *self = Meter::new();
    }

    fn take(&mut self, data: &[u8]) {
        if self.ended {
            self.held.clear();
        }
        let (chunk, more) = unpack(data);
        self.held.extend_from_slice(&chunk);
        self.ended = !more;
        self.next = 0;
    }

    fn give(&mut self, room: usize) -> Vec<u8> {
        let telegrams = pack(&self.held, room);
        let data = telegrams[self.next].clone();
        self.next = (self.next + 1) % telegrams.len();
        data
    }

    fn header(&mut self) -> [u8; 4] {
        self.access = self.access.wrapping_add(1);
        [self.access, 0, 0, 0]
    }
}

/// A radio and the meter behind it.
struct Air {
    radio: LoopbackRadio,
    meter: Meter,
}

impl Air {
    fn new(address: [u8; 8]) -> Self {
        Air {
            radio: LoopbackRadio::new(address),
            meter: Meter::new(),
        }
    }

    fn transmit(&mut self, bytes: &[u8]) -> Result<(), TransportError> {
        let asked = self.radio.transmit(bytes)?;
        let given = match &asked {
            Asked::Nothing => return Ok(()),
            Asked::Reset => {
                self.meter.reset();
                Vec::new()
            }
            Asked::Take(data) => {
                self.meter.take(data);
                Vec::new()
            }
            Asked::Give(room) => self.meter.give(*room),
        };
        let header = self.meter.header();
        self.radio.reply(&asked, header, given)
    }

    fn receive(&mut self) -> Option<Vec<u8>> {
        self.radio.receive()
    }

    fn send_unasked(&mut self) -> Result<(), TransportError> {
        loop {
            let data = self.meter.give(ANSWER_ROOM);
            let (_, more) = unpack(&data);
            let header = self.meter.header();
            if !self.radio.send_unasked(header, data, more)? {
                return Ok(());
            }
        }
    }
}

fn initialise(device: &WirelessMBusTransport, air: &mut Air) -> Result<(), TransportError> {
    let initialising = device.initialise();
    air.transmit(&initialising.telegram)?;
    initialising.answered(air.receive())
}

fn write(
    device: &WirelessMBusTransport,
    air: &mut Air,
    bytes: &[u8],
) -> Result<usize, TransportError> {
    let mut exchanges = 0;
    let mut writing = device.write_stream(pack(bytes, MAX_DATA))?;
    while let Writing::Exchange(sending) = writing {
        air.transmit(&sending.telegram)?;
        writing = sending.answered(air.receive())?;
        exchanges += 1;
    }
    Ok(exchanges)
}

fn read(
    device: &WirelessMBusTransport,
    air: &mut Air,
    mut step: ReadStep,
) -> Result<Arrived, TransportError> {
    assert_eq!(device.air, "loopback");
    loop {
        match step {
            ReadStep::Arrived(arrived) => return Ok(arrived),
            ReadStep::Ask(reading) => {
                air.transmit(&reading.telegram)?;
                let answered = reading.answered(air.receive())?;
                let (chunk, more) = unpack(&answered.records);
                step = answered.unpacked(chunk, more);
            }
        }
    }
}

fn listen(
    device: &WirelessMBusTransport,
    air: &mut Air,
) -> Result<Option<Arrived>, TransportError> {
    let mut listening = device.listen();
    loop {
        match listening.heard(air.receive())? {
            Listened::Quiet(arrived) => return Ok(arrived),
            Listened::Telegram(overheard) => {
                let (chunk, more) = unpack(&overheard.records);
                match overheard.unpacked(chunk, more) {
                    ListenStep::Arrived(arrived) => return Ok(Some(arrived)),
                    ListenStep::Listen(next) => listening = next,
                }
            }
        }
    }
}

fn receive(device: &WirelessMBusTransport, air: &mut Air) -> Result<Arrived, TransportError> {
    let unasked = listen(device, air)?;
    read(device, air, device.receive(unasked))
}

#[test]
fn the_loopback_returns_the_edges_whole() {
    let (loopback, radio) = WirelessMBusTransport::loopback(TEN_MILLIS);
    assert_eq!(loopback.timeout, TEN_MILLIS);
    let mut air = Air {
        radio,
        meter: Meter::new(),
    };
    let edges: Vec<(&str, Vec<u8>)> = vec![
        ("empty", vec![]),
        ("one byte", vec![0]),
        ("every byte", (0..=255).collect()),
        ("zeros", vec![0; 1000]),
        ("ones", vec![0xff; 1000]),
        ("the mark of more", vec![MORE_FOLLOW; 700]),
        ("a full telegram", vec![7; MAX_DATA - 2]),
        ("a full answer", vec![7; ANSWER_ROOM - 2]),
        ("one over an answer", vec![7; ANSWER_ROOM - 1]),
        ("long", (0..100_000u32).map(|n| (n % 251) as u8).collect()),
    ];
    for (name, bytes) in edges {
        write(&loopback, &mut air, &bytes).unwrap_or_else(|error| panic!("{name}: {error:?}"));
        let step = ReadStep::Ask(loopback.read_stream());
        let arrived = read(&loopback, &mut air, step)
            .unwrap_or_else(|error| panic!("{name}: {error:?}"));
        assert_eq!(arrived.bytes, bytes, "{name}");
        assert_eq!(
            arrived.origin_uri, "wmbus://loopback/XMP-12345678",
            "{name}"
        );
    }
}

#[test]
fn a_long_stream_crosses_in_many_telegrams_and_the_meter_sends_it_unasked() {
    // `ABC`, identification 42, version 2, medium 2.
    let mut air = Air::new([0x43, 0x04, 0x42, 0, 0, 0, 2, 2]);
    let device = WirelessMBusTransport::new(air.radio.name(), air.radio.meter())
        .timing_out_after(TEN_MILLIS);
    let long: Vec<u8> = (0..3000u32)
        .map(|n| u8::try_from(n % 253).unwrap_or(0))
        .collect();
    initialise(&device, &mut air).expect("SND_NKE");
    assert_eq!(
        write(&device, &mut air, &long).expect("thirteen telegrams"),
        13
    );
    assert_eq!(air.meter.held, long);
    let read = receive(&device, &mut air).expect("asked");
    assert_eq!(read.bytes, long);
    assert_eq!(read.origin_uri, "wmbus://loopback/ABC-00000042");
    air.send_unasked().expect("SND_NR");
    let heard = receive(&device, &mut air).expect("unasked");
    assert_eq!(heard.bytes, long);
    assert_eq!(
        heard.origin_uri,
        "wmbus://loopback/ABC-00000042?unsolicited=true"
    );
}

#[test]
fn a_meter_that_is_not_addressed_does_not_answer_and_a_broadcast_reaches_it() {
    // `XYZ`, identification 7, version 0, medium 7.
    let mut air = Air::new([0x3a, 0x63, 0x07, 0, 0, 0, 0, 7]);
    let elsewhere =
        WirelessMBusTransport::new(air.radio.name(), [0; 8]).timing_out_after(TEN_MILLIS);
    let error = initialise(&elsewhere, &mut air).expect_err("silence");
    assert!(error.retryable(), "a meter may be out of range");
    let everyone =
        WirelessMBusTransport::new(air.radio.name(), BROADCAST).timing_out_after(TEN_MILLIS);
    write(&everyone, &mut air, b"to whom it may concern").expect("broadcast");
    assert_eq!(air.meter.held, b"to whom it may concern");
    let unasked = Frame {
        control: SND_NR,
        address: [1; 8],
        ci: CI_DATA_SEND,
        data: vec![],
    };
    air.radio.queue(unasked.encode().expect("encode"));
    assert!(
        listen(&elsewhere, &mut air).is_err(),
        "no short header is no data"
    );
}

#[test]
fn the_radio_asks_the_meter_for_what_the_frame_says() {
    let meter = [0x3a, 0x63, 0x07, 0, 0, 0, 0, 7];
    let radio = LoopbackRadio::new(meter);
    let ask = |control, address, ci, data: &[u8]| {
        radio.answer(&Frame {
            control,
            address,
            ci,
            data: data.to_vec(),
        })
    };
    assert_eq!(ask(0x40, meter, 0x00, &[]), Asked::Reset);
    assert_eq!(ask(0x53, meter, 0x51, &[1, 2]), Asked::Take(vec![1, 2]));
    assert_eq!(ask(0x53, meter, 0x52, &[1, 2]), Asked::Nothing);
    assert_eq!(ask(0x5b, BROADCAST, 0x7b, &[]), Asked::Give(ANSWER_ROOM));
    assert_eq!(ask(0x44, meter, 0x51, &[]), Asked::Nothing);
    assert_eq!(ask(0x40, [0; 8], 0x51, &[]), Asked::Nothing);
    assert_eq!(
        radio.transmit(&[1, 2, 3]),
        Err(TransportError::FrameTooShort)
    );
}

#[test]
fn a_meter_that_gives_too_much_sends_nothing() {
    let mut radio = LoopbackRadio::new([7; 8]);
    let too_much = vec![0; ANSWER_ROOM + 1];
    let error = TransportError::DataTooLong { len: MAX_DATA + 1 };
    assert_eq!(
        radio.reply(&Asked::Give(ANSWER_ROOM), [1, 0, 0, 0], too_much.clone()),
        Err(error)
    );
    assert_eq!(radio.send_unasked([1, 0, 0, 0], too_much, true), Err(error));
    assert_eq!(radio.receive(), None);
}

#[test]
fn the_meters_telegrams_queue_in_order() {
    let mut radio = LoopbackRadio::new([7; 8]);
    assert_eq!(
        radio.send_unasked([1, 0, 0, 0], vec![5, MORE_FOLLOW], true),
        Ok(true)
    );
    assert_eq!(
        radio.send_unasked([2, 0, 0, 0], vec![6, MORE_FOLLOW], false),
        Ok(false)
    );
    assert_eq!(radio.send_unasked([3, 0, 0, 0], vec![], false), Ok(false));
    assert_eq!(radio.reply(&Asked::Reset, [4, 0, 0, 0], vec![9]), Ok(()));
    assert_eq!(
        radio.reply(&Asked::Give(ANSWER_ROOM), [5, 0, 0, 0], vec![9]),
        Ok(())
    );
    assert_eq!(radio.reply(&Asked::Nothing, [6, 0, 0, 0], vec![9]), Ok(()));
    let mut heard = Vec::new();
    while let Some(bytes) = radio.receive() {
        let frame = Frame::decode(&bytes).expect("a frame");
        assert_eq!(frame.address, [7; 8]);
        assert_eq!(frame.ci, 0x7a);
        heard.push((frame.control, frame.data));
    }
    assert_eq!(
        heard,
        vec![
            (0x44, vec![1, 0, 0, 0, 5, MORE_FOLLOW]),
            (0x44, vec![2, 0, 0, 0, 6, MORE_FOLLOW]),
            (0x44, vec![3, 0, 0, 0]),
            (0x00, vec![4, 0, 0, 0]),
            (0x08, vec![5, 0, 0, 0, 9]),
        ]
    );
}

#[test]
fn initialising_resets_the_meter() {
    let mut air = Air::new([7; 8]);
    let device = WirelessMBusTransport::new(air.radio.name(), [7; 8]);
    write(&device, &mut air, b"held").expect("written");
    assert_eq!(air.meter.held, b"held");
    initialise(&device, &mut air).expect("SND_NKE");
    assert!(air.meter.held.is_empty());
    assert_eq!(air.receive(), None);
}

#[test]
fn what_was_left_on_the_air_is_heard_first() {
    let mut air = Air::new([7; 8]);
    let device = WirelessMBusTransport::new(air.radio.name(), [7; 8]);
    air.send_unasked().expect("SND_NR");
    assert_eq!(
        write(&device, &mut air, b"late"),
        Err(TransportError::NotAcknowledged { control: SND_NR })
    );
}

#[test]
fn a_stream_that_ends_in_the_mark_of_more_is_sent_unasked_once() {
    for stream in [
        vec![MORE_FOLLOW],
        vec![MORE_FOLLOW; ANSWER_ROOM - 2],
        vec![MORE_FOLLOW; 700],
    ] {
        let mut air = Air::new([7; 8]);
        let device = WirelessMBusTransport::new(air.radio.name(), [1; 8]);
        air.meter.held = stream.clone();
        let telegrams = pack(&stream, ANSWER_ROOM);
        assert_eq!(telegrams[telegrams.len() - 1].last(), Some(&MORE_FOLLOW));
        air.send_unasked().expect("SND_NR");
        let heard = listen(&device, &mut air).expect("heard").expect("a Stream");
        assert_eq!(heard.bytes, stream);
        assert_eq!(listen(&device, &mut air), Ok(None));
        assert_eq!(air.meter.held, stream);
    }
}

#[test]
fn a_stream_is_read_as_often_as_it_is_asked_for() {
    let mut air = Air::new([7; 8]);
    let device = WirelessMBusTransport::new(air.radio.name(), BROADCAST);
    let stream: Vec<u8> = (0..1000u32).map(|n| (n % 256) as u8).collect();
    write(&device, &mut air, &stream).expect("written");
    let first = receive(&device, &mut air).expect("asked");
    let again = receive(&device, &mut air).expect("asked again");
    assert_eq!(first.bytes, stream);
    assert_eq!(again, first);
    assert_eq!(first.origin_uri, device.origin(&[7; 8]));
    assert_eq!(air.receive(), None);
}

#[test]
fn listening_takes_one_stream_and_leaves_the_next() {
    let mut air = Air::new([7; 8]);
    let device = WirelessMBusTransport::new(air.radio.name(), [7; 8]);
    for stream in [b"one".to_vec(), vec![2; 600]] {
        air.meter.held = stream;
        air.send_unasked().expect("SND_NR");
    }
    let heard = |heard: Option<Arrived>| heard.map(|arrived| arrived.bytes);
    assert_eq!(
        heard(listen(&device, &mut air).expect("heard")),
        Some(b"one".to_vec())
    );
    assert_eq!(
        heard(listen(&device, &mut air).expect("heard")),
        Some(vec![2; 600])
    );
    assert_eq!(heard(listen(&device, &mut air).expect("quiet")), None);
}
