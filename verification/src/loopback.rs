//! A meter on an in-process radio.
//!
//! [`LoopbackRadio`] is the air of every box without a receiver: what the
//! device transmits, the meter hears and answers, and the answer is what
//! the device receives next. The radio says what a frame asks of the meter; whoever holds the
//! meter has it done and hands back the meter's short header and what the meter gave.

use crate::device::{Timeout, WirelessMBusTransport, ANSWER_ROOM};
use crate::error::TransportError;
use crate::frame::{
    extend, Frame, ACK, BROADCAST, REQ_UD2, RSP_UD, SND_NKE, SND_NR, SND_UD,
};
use crate::record::{CI_DATA_SEND, CI_VARIABLE_SHORT};
use std::collections::VecDeque;
use vstd::prelude::*;
use vstd::string::*;

verus! {

/// The link address of the meter that [`WirelessMBusTransport::loopback`] stands up:
/// manufacturer `XMP`, identification 12345678, version 1, medium 7.
pub const LOOPBACK_METER: [u8; 8] = [0xb0, 0x61, 0x78, 0x56, 0x34, 0x12, 1, 7];

/// A meter listening on an in-process radio.
#[derive(Debug)]
pub struct LoopbackRadio {
    /// The link address of the meter.
    meter: [u8; 8],
    /// What the device has not received yet, the oldest first.
    to_device: VecDeque<Vec<u8>>,
}

/// What a frame asks of the meter.
#[derive(Clone, Debug, PartialEq, Eq)]
pub enum Asked {
    /// The frame is not for the meter, or nothing that it answers.
    Nothing,
    /// Go back to the start; an acknowledgement is due.
    Reset,
    /// Take these records; an acknowledgement is due.
    Take(Vec<u8>),
    /// Give records, this many bytes at most; they are the answer.
    Give(usize),
}

/// What a frame asks of the meter, as the values it is made of.
pub enum AskedView {
    Nothing,
    Reset,
    Take(Seq<u8>),
    Give(int),
}

impl View for Asked {
    type V = AskedView;

    open spec fn view(&self) -> AskedView {
        match self {
            Asked::Nothing => AskedView::Nothing,
            Asked::Reset => AskedView::Reset,
            Asked::Take(data) => AskedView::Take(data@),
            Asked::Give(room) => AskedView::Give(*room as int),
        }
    }
}

/// A radio as the values it holds.
#[verifier::ext_equal]
pub struct RadioView {
    pub meter: Seq<u8>,
    pub to_device: Seq<Seq<u8>>,
}

impl View for LoopbackRadio {
    type V = RadioView;

    closed spec fn view(&self) -> RadioView {
        RadioView {
            meter: self.meter@,
            to_device: crate::device::contents(self.to_device@),
        }
    }
}

/// A frame from the meter: its address, the short header, then `data`.
pub open spec fn meter_telegram(meter: Seq<u8>, control: u8, header: Seq<u8>, data: Seq<u8>) -> (
    crate::frame::FrameView) {
    crate::frame::FrameView {
        control,
        address: meter,
        ci: CI_VARIABLE_SHORT,
        data: header + data,
    }
}

/// What `frame` asks of the meter at `meter`.
pub open spec fn asked_of(meter: Seq<u8>, frame: crate::frame::FrameView) -> AskedView {
    if frame.address != meter && frame.address != BROADCAST@ {
        AskedView::Nothing
    } else if frame.control == SND_NKE {
        AskedView::Reset
    } else if frame.control == SND_UD && frame.ci == CI_DATA_SEND {
        AskedView::Take(frame.data)
    } else if frame.control == REQ_UD2 {
        AskedView::Give(ANSWER_ROOM as int)
    } else {
        AskedView::Nothing
    }
}

impl RadioView {
    /// The radio with one more telegram for the device to receive.
    pub open spec fn queued(self, bytes: Seq<u8>) -> RadioView {
        RadioView { meter: self.meter, to_device: self.to_device.push(bytes) }
    }

    /// The radio once the device has received from it, and what it received.
    pub open spec fn received(self) -> (RadioView, Option<Seq<u8>>) {
        if self.to_device.len() == 0 {
            (self, None)
        } else {
            (
                RadioView { meter: self.meter, to_device: self.to_device.skip(1) },
                Some(self.to_device[0]),
            )
        }
    }

    /// What the bytes that a device transmits ask of the meter.
    pub open spec fn asked(self, bytes: Seq<u8>) -> Result<AskedView, TransportError> {
        match crate::frame::decoded(bytes) {
            Ok(frame) => Ok(asked_of(self.meter, frame)),
            Err(error) => Err(error),
        }
    }

    /// The radio once the meter has sent `data` under `control`.
    pub open spec fn sent(self, control: u8, header: Seq<u8>, data: Seq<u8>) -> Result<
        RadioView,
        TransportError,
    > {
        if data.len() > ANSWER_ROOM {
            Err(TransportError::DataTooLong { len: (header.len() + data.len()) as usize })
        } else {
            Ok(self.queued(meter_telegram(self.meter, control, header, data).encoding()))
        }
    }

    /// The radio once the meter has done what it was asked and replied: with what it gave, if
    /// it was asked to give, with an acknowledgement if it was asked for something else, and
    /// not at all if it was asked nothing.
    pub open spec fn replied(self, asked: AskedView, header: Seq<u8>, given: Seq<u8>) -> Result<
        RadioView,
        TransportError,
    > {
        match asked {
            AskedView::Nothing => Ok(self),
            AskedView::Give(_) => self.sent(RSP_UD, header, given),
            _ => self.sent(ACK, header, seq![]),
        }
    }

    /// The radio once the meter has sent `data` unasked, and whether another telegram has to
    /// follow, `more` being what the records in `data` say.
    pub open spec fn sent_unasked(self, header: Seq<u8>, data: Seq<u8>, more: bool) -> Result<
        (RadioView, bool),
        TransportError,
    > {
        match self.sent(SND_NR, header, data) {
            Ok(radio) => Ok((radio, more)),
            Err(error) => Err(error),
        }
    }
}

impl LoopbackRadio {
    /// A radio with the meter at link address `meter` listening.
    pub fn new(meter: [u8; 8]) -> (radio: Self)
        ensures
            radio@ == (RadioView { meter: meter@, to_device: seq![] }),
    {
        let radio = LoopbackRadio { meter, to_device: VecDeque::new() };
        assert(radio@.to_device =~= seq![]);
        radio
    }

    /// The link address of the meter.
    pub fn meter(&self) -> (meter: [u8; 8])
        ensures
            meter@ == self@.meter,
    {
        self.meter
    }

    /// What the air is called.
    pub fn name(&self) -> (name: String)
        ensures
            name@ == "loopback"@,
    {
        let mut name = String::new();
        name.append("loopback");
        assert(name@ =~= "loopback"@);
        name
    }

    /// The meter transmits one telegram of the Stream it holds unasked; whether another has
    /// to follow. `more` is what the records in `data` say once taken apart.
    pub fn send_unasked(&mut self, header: [u8; 4], data: Vec<u8>, more: bool) -> (again: Result<
        bool,
        TransportError,
    >)
        ensures
            match again {
                Ok(again) => old(self)@.sent_unasked(header@, data@, more) == Ok::<
                    (RadioView, bool),
                    TransportError,
                >((final(self)@, again)),
                Err(error) => old(self)@.sent_unasked(header@, data@, more) == Err::<
                    (RadioView, bool),
                    TransportError,
                >(error) && final(self)@ == old(self)@,
            },
    {
        match self.meter_frame(SND_NR, header, data) {
            Ok(bytes) => {
                self.queue(bytes);
                Ok(more)
            },
            Err(error) => Err(error),
        }
    }

    /// A frame from the meter: its address, the short header, then `data`.
    fn meter_frame(&self, control: u8, header: [u8; 4], data: Vec<u8>) -> (bytes: Result<
        Vec<u8>,
        TransportError,
    >)
        ensures
            match bytes {
                Ok(bytes) => self@.sent(control, header@, data@) == Ok::<RadioView, TransportError>(
                    self@.queued(bytes@),
                ),
                Err(error) => self@.sent(control, header@, data@) == Err::<
                    RadioView,
                    TransportError,
                >(error),
            },
    {
        let mut body: Vec<u8> = Vec::new();
        extend(&mut body, header.as_slice());
        extend(&mut body, data.as_slice());
        assert(body@ =~= header@ + data@);
        let frame = Frame { control, address: self.meter, ci: CI_VARIABLE_SHORT, data: body };
        assert(frame@ == meter_telegram(self@.meter, control, header@, data@));
        frame.encode()
    }

    /// What `frame` asks of the meter.
    pub fn answer(&self, frame: &Frame) -> (asked: Asked)
        ensures
            asked@ == asked_of(self@.meter, frame@),
    {
        if !same_address(&frame.address, &self.meter) && !same_address(&frame.address, &BROADCAST) {
            return Asked::Nothing;
        }
        match (frame.control, frame.ci) {
            (SND_NKE, _) => Asked::Reset,
            (SND_UD, CI_DATA_SEND) => {
                let mut data: Vec<u8> = Vec::new();
                extend(&mut data, frame.data.as_slice());
                assert(data@ =~= frame.data@);
                Asked::Take(data)
            },
            (REQ_UD2, _) => Asked::Give(ANSWER_ROOM),
            _ => Asked::Nothing,
        }
    }

    /// Leave `bytes` for the device to receive.
    pub fn queue(&mut self, bytes: Vec<u8>)
        ensures
            final(self)@ == old(self)@.queued(bytes@),
    {
        self.to_device.push_back(bytes);
        assert(self@.to_device =~= old(self)@.to_device.push(bytes@));
    }

    /// What the bytes that a device transmits ask of the meter. Unless it is nothing, the
    /// meter's reply is due.
    pub fn transmit(&self, bytes: &[u8]) -> (asked: Result<Asked, TransportError>)
        ensures
            match asked {
                Ok(asked) => self@.asked(bytes@) == Ok::<AskedView, TransportError>(asked@),
                Err(error) => self@.asked(bytes@) == Err::<AskedView, TransportError>(error),
            },
    {
        match Frame::decode(bytes) {
            Ok(frame) => Ok(self.answer(&frame)),
            Err(error) => Err(error),
        }
    }

    /// The meter replies behind `header` to what it was asked and has done: with what it gave,
    /// if it was asked to give, with an acknowledgement if it was asked for something else,
    /// and not at all if it was asked nothing.
    pub fn reply(&mut self, asked: &Asked, header: [u8; 4], given: Vec<u8>) -> (result: Result<
        (),
        TransportError,
    >)
        ensures
            match result {
                Ok(_) => old(self)@.replied(asked@, header@, given@) == Ok::<
                    RadioView,
                    TransportError,
                >(final(self)@),
                Err(error) => old(self)@.replied(asked@, header@, given@) == Err::<
                    RadioView,
                    TransportError,
                >(error) && final(self)@ == old(self)@,
            },
    {
        let bytes = match asked {
            Asked::Nothing => return Ok(()),
            Asked::Give(_) => self.meter_frame(RSP_UD, header, given),
            _ => {
                let none: Vec<u8> = Vec::new();
                assert(none@ =~= seq![]);
                self.meter_frame(ACK, header, none)
            },
        };
        match bytes {
            Ok(bytes) => {
                self.queue(bytes);
                Ok(())
            },
            Err(error) => Err(error),
        }
    }

    /// What the device receives next.
    pub fn receive(&mut self) -> (heard: Option<Vec<u8>>)
        ensures
            (final(self)@, crate::device::heard_bytes(heard)) == old(self)@.received(),
    {
        let heard = self.to_device.pop_front();
        assert(heard is Some ==> self@.to_device =~= old(self)@.to_device.skip(1));
        heard
    }
}

fn same_address(a: &[u8; 8], b: &[u8; 8]) -> (same: bool)
    ensures
        same == (a@ == b@),
{
    let mut i: usize = 0;
    while i < 8
        invariant
            i <= 8,
            forall|j: int| 0 <= j < i ==> a@[j] == b@[j],
        decreases 8 - i,
    {
        if a[i] != b[i] {
            return false;
        }
        i = i + 1;
    }
    assert(a@ =~= b@);
    true
}

impl WirelessMBusTransport {
    /// Both ends on one air: a device and the radio of the meter that answers it, `timeout`
    /// on the device.
    pub fn loopback(timeout: Timeout) -> (ends: (Self, LoopbackRadio))
        ensures
            ends.0@ == (crate::device::DeviceView { air: "loopback"@, address: LOOPBACK_METER@, timeout }),
            ends.1@ == (RadioView { meter: LOOPBACK_METER@, to_device: seq![] }),
    {
        let radio = LoopbackRadio::new(LOOPBACK_METER);
        let device = WirelessMBusTransport::new(radio.name(), LOOPBACK_METER).timing_out_after(
            timeout,
        );
        (device, radio)
    }
}

} // verus!
