//! The other device's side of the air: a concentrator, a gateway, a
//! hand-held reader.
//!
//! Each conversation with a meter is a value that holds what to do next. A request holds the
//! telegram to transmit and goes on with what the air gave back within the timeout; a
//! telegram that was heard holds the records to take apart and goes on with what they
//! carried. Whoever drives the radio performs these steps and hands the results back; a step
//! of its own that fails ends the conversation.

use crate::error::TransportError;
use crate::frame::{
    extend, label, Frame, ACK, MAX_DATA, REQ_UD2, RSP_UD, SND_NKE, SND_NR, SND_UD,
};
use crate::record::{CI_DATA_SEND, CI_VARIABLE_SHORT, SHORT_HEADER};
use vstd::prelude::*;
use vstd::slice::slice_subrange;
use vstd::string::*;

verus! {

/// The room a meter's telegram leaves for records: the frame's data less
/// the short header.
pub const ANSWER_ROOM: usize = MAX_DATA - SHORT_HEADER;

/// How long to wait for an answer.
#[derive(Clone, Copy, Debug, PartialEq, Eq, Structural)]
pub struct Timeout {
    pub secs: u64,
    pub nanos: u32,
}

/// Which ways a transport carries Streams.
#[derive(Clone, Copy, Debug, PartialEq, Eq, Structural)]
pub struct Directions {
    pub receives: bool,
    pub sends: bool,
}

/// A Stream and the URI of where it came from.
#[derive(Clone, Debug, PartialEq, Eq)]
pub struct Arrived {
    pub origin_uri: String,
    pub bytes: Vec<u8>,
}

/// A device on the air.
#[derive(Clone, Debug)]
pub struct WirelessMBusTransport {
    /// The name of the air.
    pub air: String,
    /// The link address of the meter to talk to.
    pub address: [u8; 8],
    pub timeout: Timeout,
}

/// A request and the answer it is due.
#[derive(Debug)]
pub struct Exchange {
    /// What to transmit.
    pub telegram: Vec<u8>,
    /// How long to wait for the answer.
    pub timeout: Timeout,
}

/// A meter being initialised.
#[derive(Debug)]
pub struct Initialising {
    /// What to transmit.
    pub telegram: Vec<u8>,
    /// How long to wait for the acknowledgement.
    pub timeout: Timeout,
}

/// A Stream on its way to a meter: one more telegram to exchange, or all acknowledged.
#[derive(Debug)]
pub enum Writing {
    Exchange(Sending),
    Written,
}

/// One telegram of a Stream on its way to a meter.
#[derive(Debug)]
pub struct Sending {
    /// The link address of the meter.
    pub address: [u8; 8],
    /// How long to wait for the acknowledgement.
    pub timeout: Timeout,
    /// What to transmit.
    pub telegram: Vec<u8>,
    /// The records of the telegrams to follow.
    pub rest: Vec<Vec<u8>>,
}

/// A Stream being read: the next of its telegrams asked for.
#[derive(Debug)]
pub struct Reading<'a> {
    pub device: &'a WirelessMBusTransport,
    /// What to transmit.
    pub telegram: Vec<u8>,
    /// What has arrived so far.
    pub bytes: Vec<u8>,
}

/// A Stream being read: one of its telegrams here.
#[derive(Debug)]
pub struct Answered<'a> {
    pub device: &'a WirelessMBusTransport,
    /// What had arrived before this telegram.
    pub bytes: Vec<u8>,
    /// The link address of the meter that answered.
    pub from: [u8; 8],
    /// The records to take apart.
    pub records: Vec<u8>,
}

/// A Stream being read: another telegram to ask for, or all of it here.
#[derive(Debug)]
pub enum ReadStep<'a> {
    Ask(Reading<'a>),
    Arrived(Arrived),
}

/// A device that takes what a meter sends unasked.
#[derive(Debug)]
pub struct Listening<'a> {
    pub device: &'a WirelessMBusTransport,
    /// What has arrived so far.
    pub bytes: Vec<u8>,
    /// The link address of the meter last heard.
    pub from: Option<[u8; 8]>,
}

/// A telegram that a meter sent unasked.
#[derive(Debug)]
pub struct Overheard<'a> {
    pub device: &'a WirelessMBusTransport,
    /// What had arrived before this telegram.
    pub bytes: Vec<u8>,
    /// The link address of the meter that sent it.
    pub from: [u8; 8],
    /// The records to take apart.
    pub records: Vec<u8>,
}

/// What listening came to: a telegram, or a quiet air.
#[derive(Debug)]
pub enum Listened<'a> {
    Telegram(Overheard<'a>),
    Quiet(Option<Arrived>),
}

/// A Stream being listened to: more of it to come, or all of it here.
#[derive(Debug)]
pub enum ListenStep<'a> {
    Listen(Listening<'a>),
    Arrived(Arrived),
}

/// The Stream and the URI as the values they are.
#[verifier::ext_equal]
pub struct ArrivedView {
    pub origin_uri: Seq<char>,
    pub bytes: Seq<u8>,
}

impl View for Arrived {
    type V = ArrivedView;

    open spec fn view(&self) -> ArrivedView {
        ArrivedView { origin_uri: self.origin_uri@, bytes: self.bytes@ }
    }
}

/// A device as the values it holds.
#[verifier::ext_equal]
pub struct DeviceView {
    pub air: Seq<char>,
    pub address: Seq<u8>,
    pub timeout: Timeout,
}

impl View for WirelessMBusTransport {
    type V = DeviceView;

    open spec fn view(&self) -> DeviceView {
        DeviceView { air: self.air@, address: self.address@, timeout: self.timeout }
    }
}

/// A Stream on its way to a meter as the values it is made of.
pub enum WritingView {
    Exchange {
        address: Seq<u8>,
        timeout: Timeout,
        telegram: Seq<u8>,
        rest: Seq<Seq<u8>>,
    },
    Written,
}

/// A Stream being read, the next of its telegrams asked for, as the values it is made of.
#[verifier::ext_equal]
pub struct ReadingView {
    pub device: DeviceView,
    pub telegram: Seq<u8>,
    pub bytes: Seq<u8>,
}

/// A Stream being taken in, one of its telegrams here, as the values it is made of.
#[verifier::ext_equal]
pub struct HeardView {
    pub device: DeviceView,
    pub bytes: Seq<u8>,
    pub from: Seq<u8>,
    pub records: Seq<u8>,
}

/// What reading comes to, as the values it is made of.
#[verifier::ext_equal]
pub enum ReadStepView {
    Ask(ReadingView),
    Arrived(ArrivedView),
}

/// A device that listens, as the values it holds.
#[verifier::ext_equal]
pub struct ListeningView {
    pub device: DeviceView,
    pub bytes: Seq<u8>,
    pub from: Option<Seq<u8>>,
}

/// What was listened to, as the values it is made of.
#[verifier::ext_equal]
pub enum ListenedView {
    Telegram(HeardView),
    Quiet(Option<ArrivedView>),
}

/// What listening comes to, as the values it is made of.
#[verifier::ext_equal]
pub enum ListenStepView {
    Listen(ListeningView),
    Arrived(ArrivedView),
}

/// A meter's telegram as the values it carries.
pub struct TelegramView {
    pub from: Seq<u8>,
    pub records: Seq<u8>,
}

/// What each of `telegrams` holds.
pub open spec fn contents(telegrams: Seq<Vec<u8>>) -> Seq<Seq<u8>> {
    Seq::new(telegrams.len(), |i: int| telegrams[i]@)
}

/// What was heard, if anything.
pub open spec fn heard_bytes(heard: Option<Vec<u8>>) -> Option<Seq<u8>> {
    match heard {
        Some(bytes) => Some(bytes@),
        None => None,
    }
}

impl View for Writing {
    type V = WritingView;

    open spec fn view(&self) -> WritingView {
        match self {
            Writing::Exchange(sending) => WritingView::Exchange {
                address: sending.address@,
                timeout: sending.timeout,
                telegram: sending.telegram@,
                rest: contents(sending.rest@),
            },
            Writing::Written => WritingView::Written,
        }
    }
}

impl<'a> View for Reading<'a> {
    type V = ReadingView;

    open spec fn view(&self) -> ReadingView {
        ReadingView {
            device: self.device@,
            telegram: self.telegram@,
            bytes: self.bytes@,
        }
    }
}

impl<'a> View for Answered<'a> {
    type V = HeardView;

    open spec fn view(&self) -> HeardView {
        HeardView {
            device: self.device@,
            bytes: self.bytes@,
            from: self.from@,
            records: self.records@,
        }
    }
}

impl<'a> View for ReadStep<'a> {
    type V = ReadStepView;

    open spec fn view(&self) -> ReadStepView {
        match self {
            ReadStep::Ask(reading) => ReadStepView::Ask(reading@),
            ReadStep::Arrived(arrived) => ReadStepView::Arrived(arrived@),
        }
    }
}

impl<'a> View for Listening<'a> {
    type V = ListeningView;

    open spec fn view(&self) -> ListeningView {
        ListeningView {
            device: self.device@,
            bytes: self.bytes@,
            from: match self.from {
                Some(from) => Some(from@),
                None => None,
            },
        }
    }
}

impl<'a> View for Overheard<'a> {
    type V = HeardView;

    open spec fn view(&self) -> HeardView {
        HeardView {
            device: self.device@,
            bytes: self.bytes@,
            from: self.from@,
            records: self.records@,
        }
    }
}

impl<'a> View for Listened<'a> {
    type V = ListenedView;

    open spec fn view(&self) -> ListenedView {
        match self {
            Listened::Telegram(overheard) => ListenedView::Telegram(overheard@),
            Listened::Quiet(arrived) => ListenedView::Quiet(
                match arrived {
                    Some(arrived) => Some(arrived@),
                    None => None,
                },
            ),
        }
    }
}

impl<'a> View for ListenStep<'a> {
    type V = ListenStepView;

    open spec fn view(&self) -> ListenStepView {
        match self {
            ListenStep::Listen(listening) => ListenStepView::Listen(listening@),
            ListenStep::Arrived(arrived) => ListenStepView::Arrived(arrived@),
        }
    }
}

/// `wmbus://<air>/<manufacturer>-<ident>`.
pub open spec fn origin_text(air: Seq<char>, address: Seq<u8>) -> Seq<char> {
    "wmbus://"@ + air + "/"@ + crate::frame::label_text(address)
}

/// The origin of a Stream that a meter sent unasked.
pub open spec fn unasked_origin_text(air: Seq<char>, address: Seq<u8>) -> Seq<char> {
    origin_text(air, address) + "?unsolicited=true"@
}

/// The frame that asks the meter at `address`.
pub open spec fn request(address: Seq<u8>, control: u8, ci: u8, data: Seq<u8>) -> (
    crate::frame::FrameView) {
    crate::frame::FrameView { control, address, ci, data }
}

/// The answer in what was heard after a request.
pub open spec fn answer_in(heard: Option<Seq<u8>>) -> Result<
    crate::frame::FrameView,
    TransportError,
> {
    match heard {
        Some(bytes) => crate::frame::decoded(bytes),
        None => Err(TransportError::NoAnswer),
    }
}

/// Whether `frame` is an acknowledgement.
pub open spec fn acknowledgement(frame: crate::frame::FrameView) -> Result<(), TransportError> {
    if frame.control == ACK {
        Ok(())
    } else {
        Err(TransportError::NotAcknowledged { control: frame.control })
    }
}

/// Whether what was heard after a request is an acknowledgement.
pub open spec fn acknowledgement_in(heard: Option<Seq<u8>>) -> Result<(), TransportError> {
    match answer_in(heard) {
        Ok(frame) => acknowledgement(frame),
        Err(error) => Err(error),
    }
}

/// The records behind the short header of `frame`, if it is the meter's data under `control`.
pub open spec fn meter_records(frame: crate::frame::FrameView, control: u8) -> Result<
    Seq<u8>,
    TransportError,
> {
    if frame.control != control || frame.ci != CI_VARIABLE_SHORT {
        Err(TransportError::NotMeterData { control: frame.control, ci: frame.ci })
    } else if frame.data.len() < SHORT_HEADER {
        Ok(seq![])
    } else {
        Ok(frame.data.skip(SHORT_HEADER as int))
    }
}

/// The meter's telegram in what was decoded, if it is data under `control`.
pub open spec fn telegram_in(
    answer: Result<crate::frame::FrameView, TransportError>,
    control: u8,
) -> Result<TelegramView, TransportError> {
    match answer {
        Ok(frame) => match meter_records(frame, control) {
            Ok(records) => Ok(TelegramView { from: frame.address, records }),
            Err(error) => Err(error),
        },
        Err(error) => Err(error),
    }
}

/// A Stream whose `telegrams` are still to go to the meter at `address`, each acknowledged
/// within `timeout`.
pub open spec fn writing(
    address: Seq<u8>,
    timeout: Timeout,
    telegrams: Seq<Seq<u8>>,
) -> Result<WritingView, TransportError> {
    if telegrams.len() == 0 {
        Ok(WritingView::Written)
    } else if telegrams[0].len() > MAX_DATA {
        Err(TransportError::DataTooLong { len: telegrams[0].len() as usize })
    } else {
        Ok(
            WritingView::Exchange {
                address,
                timeout,
                telegram: request(address, SND_UD, CI_DATA_SEND, telegrams[0]).encoding(),
                rest: telegrams.skip(1),
            },
        )
    }
}

/// The Stream once the telegram ahead of `rest` was answered with what was heard.
pub open spec fn writing_after(
    heard: Option<Seq<u8>>,
    address: Seq<u8>,
    timeout: Timeout,
    rest: Seq<Seq<u8>>,
) -> Result<WritingView, TransportError> {
    match acknowledgement_in(heard) {
        Ok(_) => writing(address, timeout, rest),
        Err(error) => Err(error),
    }
}

/// The telegram that asks the meter at `address` for the next of its data.
pub open spec fn data_request(address: Seq<u8>) -> Seq<u8> {
    request(address, REQ_UD2, CI_DATA_SEND, seq![]).encoding()
}

/// A Stream being read of which `bytes` are here: the meter of `device` asked for more.
pub open spec fn reading(device: DeviceView, bytes: Seq<u8>) -> ReadingView {
    ReadingView { device, telegram: data_request(device.address), bytes }
}

/// A Stream being read once its meter was asked and this was heard.
pub open spec fn reading_after(reading: ReadingView, heard: Option<Seq<u8>>) -> Result<
    HeardView,
    TransportError,
> {
    match telegram_in(answer_in(heard), RSP_UD) {
        Ok(telegram) => Ok(
            HeardView {
                device: reading.device,
                bytes: reading.bytes,
                from: telegram.from,
                records: telegram.records,
            },
        ),
        Err(error) => Err(error),
    }
}

/// A Stream being read once the records that were heard carried `chunk`: the meter is asked
/// again where more follow, and the Stream is here otherwise.
pub open spec fn read_step(heard: HeardView, chunk: Seq<u8>, more: bool) -> ReadStepView {
    if more {
        ReadStepView::Ask(reading(heard.device, heard.bytes + chunk))
    } else {
        ReadStepView::Arrived(
            ArrivedView {
                origin_uri: origin_text(heard.device.air, heard.from),
                bytes: heard.bytes + chunk,
            },
        )
    }
}

/// A device that starts to listen.
pub open spec fn listening(device: DeviceView) -> ListeningView {
    ListeningView { device, bytes: seq![], from: None }
}

/// A device that listens once this was heard: a telegram, or a quiet air, on which a Stream
/// that breaks off is what there is of it.
pub open spec fn listening_after(listening: ListeningView, heard: Option<Seq<u8>>) -> Result<
    ListenedView,
    TransportError,
> {
    match heard {
        Some(bytes) => match telegram_in(crate::frame::decoded(bytes), SND_NR) {
            Ok(telegram) => Ok(
                ListenedView::Telegram(
                    HeardView {
                        device: listening.device,
                        bytes: listening.bytes,
                        from: telegram.from,
                        records: telegram.records,
                    },
                ),
            ),
            Err(error) => Err(error),
        },
        None => Ok(
            ListenedView::Quiet(
                match listening.from {
                    Some(from) => Some(
                        ArrivedView {
                            origin_uri: unasked_origin_text(listening.device.air, from),
                            bytes: listening.bytes,
                        },
                    ),
                    None => None,
                },
            ),
        ),
    }
}

/// A device that listens once the records that were heard carried `chunk`: it goes on
/// listening where more follow, and the Stream is here otherwise.
pub open spec fn listen_step(heard: HeardView, chunk: Seq<u8>, more: bool) -> ListenStepView {
    if more {
        ListenStepView::Listen(
            ListeningView {
                device: heard.device,
                bytes: heard.bytes + chunk,
                from: Some(heard.from),
            },
        )
    } else {
        ListenStepView::Arrived(
            ArrivedView {
                origin_uri: unasked_origin_text(heard.device.air, heard.from),
                bytes: heard.bytes + chunk,
            },
        )
    }
}

/// Take the answer in what was heard after a request.
fn answer(heard: Option<Vec<u8>>) -> (frame: Result<Frame, TransportError>)
    ensures
        match frame {
            Ok(frame) => answer_in(heard_bytes(heard)) == Ok::<
                crate::frame::FrameView,
                TransportError,
            >(frame@),
            Err(error) => answer_in(heard_bytes(heard)) == Err::<
                crate::frame::FrameView,
                TransportError,
            >(error),
        },
{
    match heard {
        Some(bytes) => Frame::decode(bytes.as_slice()),
        None => Err(TransportError::NoAnswer),
    }
}

/// The records a meter's frame carries past its short header, if it is
/// `control`.
pub fn records_of(frame: &Frame, control: u8) -> (records: Result<Vec<u8>, TransportError>)
    ensures
        match records {
            Ok(records) => meter_records(frame@, control) == Ok::<Seq<u8>, TransportError>(
                records@,
            ),
            Err(error) => meter_records(frame@, control) == Err::<Seq<u8>, TransportError>(error),
        },
{
    if frame.control != control || frame.ci != CI_VARIABLE_SHORT {
        return Err(TransportError::NotMeterData { control: frame.control, ci: frame.ci });
    }
    let mut records: Vec<u8> = Vec::new();
    if frame.data.len() >= SHORT_HEADER {
        extend(
            &mut records,
            slice_subrange(frame.data.as_slice(), SHORT_HEADER, frame.data.len()),
        );
    }
    assert(records@ =~= meter_records(frame@, control)->Ok_0);
    Ok(records)
}

/// Whether `answer` acknowledges.
pub fn acknowledged(answer: &Frame) -> (result: Result<(), TransportError>)
    ensures
        result == acknowledgement(answer@),
{
    if answer.control == ACK {
        Ok(())
    } else {
        Err(TransportError::NotAcknowledged { control: answer.control })
    }
}

/// The next of `telegrams` as it goes to the meter at `address`.
fn next_telegram(address: [u8; 8], timeout: Timeout, telegrams: Vec<Vec<u8>>) -> (writing: Result<
    Writing,
    TransportError,
>)
    ensures
        match writing {
            Ok(writing) => self::writing(address@, timeout, contents(telegrams@)) == Ok::<
                WritingView,
                TransportError,
            >(writing@),
            Err(error) => self::writing(address@, timeout, contents(telegrams@)) == Err::<
                WritingView,
                TransportError,
            >(error),
        },
{
    if telegrams.len() == 0 {
        return Ok(Writing::Written);
    }
    let mut rest = telegrams;
    let data = rest.remove(0);
    assert(contents(rest@) =~= contents(telegrams@).skip(1));
    let frame = Frame { control: SND_UD, address, ci: CI_DATA_SEND, data };
    match frame.encode() {
        Ok(telegram) => Ok(Writing::Exchange(Sending { address, timeout, telegram, rest })),
        Err(error) => Err(error),
    }
}

impl WirelessMBusTransport {
    /// A device on the air named `air`, talking to the meter at link `address`.
    pub fn new(air: String, address: [u8; 8]) -> (device: Self)
        ensures
            device@ == (DeviceView {
                air: air@,
                address: address@,
                timeout: Timeout { secs: 1, nanos: 0 },
            }),
    {
        WirelessMBusTransport { air, address, timeout: Timeout { secs: 1, nanos: 0 } }
    }

    /// Give up on a meter that does not answer within `timeout`.
    pub fn timing_out_after(self, timeout: Timeout) -> (device: Self)
        ensures
            device@ == (DeviceView { air: self@.air, address: self@.address, timeout }),
    {
        WirelessMBusTransport { air: self.air, address: self.address, timeout }
    }

    /// What the transport is called.
    pub fn name(&self) -> (name: &'static str)
        ensures
            name@ == "wireless-m-bus"@,
    {
        "wireless-m-bus"
    }

    /// A device takes Streams and sends them.
    pub fn directions(&self) -> (directions: Directions)
        ensures
            directions == (Directions { receives: true, sends: true }),
    {
        Directions { receives: true, sends: true }
    }

    /// `wmbus://<air>/<manufacturer>-<ident>`.
    pub fn origin(&self, address: &[u8; 8]) -> (origin: String)
        ensures
            origin@ == origin_text(self@.air, address@),
    {
        let mut out = String::new();
        out.append("wmbus://");
        out.append(self.air.as_str());
        out.append("/");
        let name = label(address);
        out.append(name.as_str());
        assert(out@ =~= origin_text(self.air@, address@));
        out
    }

    /// The origin of a Stream that the meter at `address` sent unasked.
    fn unasked_origin(&self, address: &[u8; 8]) -> (origin: String)
        ensures
            origin@ == unasked_origin_text(self@.air, address@),
    {
        let mut out = self.origin(address);
        out.append("?unsolicited=true");
        out
    }

    /// An exchange: `control` with `ci` and `data` to the meter, and its answer. More than
    /// [`MAX_DATA`] bytes of data are refused.
    pub fn exchange(&self, control: u8, ci: u8, data: Vec<u8>) -> (exchange: Result<
        Exchange,
        TransportError,
    >)
        ensures
            match exchange {
                Ok(exchange) => data@.len() <= MAX_DATA && exchange.telegram@ == request(
                    self.address@,
                    control,
                    ci,
                    data@,
                ).encoding() && exchange.timeout == self.timeout,
                Err(error) => data@.len() > MAX_DATA && error == (TransportError::DataTooLong {
                    len: data.len(),
                }),
            },
    {
        let frame = Frame { control, address: self.address, ci, data };
        match frame.encode() {
            Ok(telegram) => Ok(Exchange { telegram, timeout: self.timeout }),
            Err(error) => Err(error),
        }
    }

    /// `SND_NKE`: the meter is initialised once it acknowledges.
    pub fn initialise(&self) -> (initialising: Initialising)
        ensures
            initialising.telegram@ == request(
                self.address@,
                SND_NKE,
                CI_DATA_SEND,
                seq![],
            ).encoding(),
            initialising.timeout == self.timeout,
    {
        let none: Vec<u8> = Vec::new();
        assert(none@ =~= seq![]);
        let exchange = self.exchange(SND_NKE, CI_DATA_SEND, none).unwrap();
        Initialising { telegram: exchange.telegram, timeout: exchange.timeout }
    }

    /// A Stream goes to the meter a telegram of records at a time, each
    /// acknowledged before the next. `telegrams` holds the records of each.
    pub fn write_stream(&self, telegrams: Vec<Vec<u8>>) -> (writing: Result<
        Writing,
        TransportError,
    >)
        ensures
            match writing {
                Ok(writing) => self::writing(
                    self.address@,
                    self.timeout,
                    contents(telegrams@),
                ) == Ok::<WritingView, TransportError>(writing@),
                Err(error) => self::writing(
                    self.address@,
                    self.timeout,
                    contents(telegrams@),
                ) == Err::<WritingView, TransportError>(error),
            },
    {
        next_telegram(self.address, self.timeout, telegrams)
    }

    /// Ask for the next telegram of a Stream of which `bytes` are here.
    fn ask<'a>(&'a self, bytes: Vec<u8>) -> (reading: Reading<'a>)
        ensures
            reading@ == self::reading(self@, bytes@),
    {
        let none: Vec<u8> = Vec::new();
        assert(none@ =~= seq![]);
        let exchange = self.exchange(REQ_UD2, CI_DATA_SEND, none).unwrap();
        Reading { device: self, telegram: exchange.telegram, bytes }
    }

    /// The Stream the meter holds is read a telegram of records at a time.
    pub fn read_stream<'a>(&'a self) -> (reading: Reading<'a>)
        ensures
            reading@ == self::reading(self@, seq![]),
    {
        let none: Vec<u8> = Vec::new();
        assert(none@ =~= seq![]);
        self.ask(none)
    }

    /// What a meter sends unasked is taken as it comes: the `SND_NR` telegrams of one
    /// Stream, as many as it takes, or nothing when the air is quiet.
    pub fn listen<'a>(&'a self) -> (listening: Listening<'a>)
        ensures
            listening@ == self::listening(self@),
    {
        let none: Vec<u8> = Vec::new();
        assert(none@ =~= seq![]);
        Listening { device: self, bytes: none, from: None }
    }

    /// What the meter sent unasked if it has; the Stream it holds
    /// otherwise.
    pub fn receive<'a>(&'a self, unasked: Option<Arrived>) -> (step: ReadStep<'a>)
        ensures
            step@ == match unasked {
                Some(arrived) => ReadStepView::Arrived(arrived@),
                None => ReadStepView::Ask(self::reading(self@, seq![])),
            },
    {
        match unasked {
            Some(arrived) => ReadStep::Arrived(arrived),
            None => ReadStep::Ask(self.read_stream()),
        }
    }
}

impl Exchange {
    /// Go on with what was heard within the timeout.
    pub fn answered(self, heard: Option<Vec<u8>>) -> (frame: Result<Frame, TransportError>)
        ensures
            match frame {
                Ok(frame) => answer_in(heard_bytes(heard)) == Ok::<
                    crate::frame::FrameView,
                    TransportError,
                >(frame@),
                Err(error) => answer_in(heard_bytes(heard)) == Err::<
                    crate::frame::FrameView,
                    TransportError,
                >(error),
            },
    {
        answer(heard)
    }
}

impl Initialising {
    /// Go on with what was heard within the timeout.
    pub fn answered(self, heard: Option<Vec<u8>>) -> (result: Result<(), TransportError>)
        ensures
            result == acknowledgement_in(heard_bytes(heard)),
    {
        match answer(heard) {
            Ok(frame) => acknowledged(&frame),
            Err(error) => Err(error),
        }
    }
}

impl Sending {
    /// Go on with what was heard within the timeout.
    pub fn answered(self, heard: Option<Vec<u8>>) -> (writing: Result<Writing, TransportError>)
        ensures
            match writing {
                Ok(writing) => writing_after(
                    heard_bytes(heard),
                    self.address@,
                    self.timeout,
                    contents(self.rest@),
                ) == Ok::<WritingView, TransportError>(writing@),
                Err(error) => writing_after(
                    heard_bytes(heard),
                    self.address@,
                    self.timeout,
                    contents(self.rest@),
                ) == Err::<WritingView, TransportError>(error),
            },
    {
        let frame = match answer(heard) {
            Ok(frame) => frame,
            Err(error) => return Err(error),
        };
        match acknowledged(&frame) {
            Ok(_) => next_telegram(self.address, self.timeout, self.rest),
            Err(error) => Err(error),
        }
    }
}

impl<'a> Reading<'a> {
    /// Go on with what was heard within the timeout.
    pub fn answered(self, heard: Option<Vec<u8>>) -> (answered: Result<
        Answered<'a>,
        TransportError,
    >)
        ensures
            match answered {
                Ok(answered) => reading_after(self@, heard_bytes(heard)) == Ok::<
                    HeardView,
                    TransportError,
                >(answered@),
                Err(error) => reading_after(self@, heard_bytes(heard)) == Err::<
                    HeardView,
                    TransportError,
                >(error),
            },
    {
        let frame = match answer(heard) {
            Ok(frame) => frame,
            Err(error) => return Err(error),
        };
        match records_of(&frame, RSP_UD) {
            Ok(records) => Ok(
                Answered { device: self.device, bytes: self.bytes, from: frame.address, records },
            ),
            Err(error) => Err(error),
        }
    }
}

impl<'a> Answered<'a> {
    /// Go on with the `chunk` of the Stream that the records carried, and whether they said
    /// that more follow.
    pub fn unpacked(self, chunk: Vec<u8>, more: bool) -> (step: ReadStep<'a>)
        ensures
            step@ == read_step(self@, chunk@, more),
    {
        let mut bytes = self.bytes;
        extend(&mut bytes, chunk.as_slice());
        if more {
            ReadStep::Ask(self.device.ask(bytes))
        } else {
            ReadStep::Arrived(Arrived { origin_uri: self.device.origin(&self.from), bytes })
        }
    }
}

impl<'a> Listening<'a> {
    /// Go on with what was heard within the timeout. A Stream that breaks off is what there
    /// is of it.
    pub fn heard(self, heard: Option<Vec<u8>>) -> (listened: Result<Listened<'a>, TransportError>)
        ensures
            match listened {
                Ok(listened) => listening_after(self@, heard_bytes(heard)) == Ok::<
                    ListenedView,
                    TransportError,
                >(listened@),
                Err(error) => listening_after(self@, heard_bytes(heard)) == Err::<
                    ListenedView,
                    TransportError,
                >(error),
            },
    {
        let bytes = match heard {
            Some(bytes) => bytes,
            None => {
                return Ok(
                    Listened::Quiet(
                        match self.from {
                            Some(from) => Some(
                                Arrived {
                                    origin_uri: self.device.unasked_origin(&from),
                                    bytes: self.bytes,
                                },
                            ),
                            None => None,
                        },
                    ),
                );
            },
        };
        let frame = match Frame::decode(bytes.as_slice()) {
            Ok(frame) => frame,
            Err(error) => return Err(error),
        };
        match records_of(&frame, SND_NR) {
            Ok(records) => Ok(
                Listened::Telegram(
                    Overheard {
                        device: self.device,
                        bytes: self.bytes,
                        from: frame.address,
                        records,
                    },
                ),
            ),
            Err(error) => Err(error),
        }
    }
}

impl<'a> Overheard<'a> {
    /// Go on with the `chunk` of the Stream that the records carried, and whether they said
    /// that more follow.
    pub fn unpacked(self, chunk: Vec<u8>, more: bool) -> (step: ListenStep<'a>)
        ensures
            step@ == listen_step(self@, chunk@, more),
    {
        let mut bytes = self.bytes;
        extend(&mut bytes, chunk.as_slice());
        if more {
            ListenStep::Listen(Listening { device: self.device, bytes, from: Some(self.from) })
        } else {
            ListenStep::Arrived(
                Arrived { origin_uri: self.device.unasked_origin(&self.from), bytes },
            )
        }
    }
}

} // verus!
