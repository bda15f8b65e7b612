//! What the meter on an in-process radio does, said of the calls on the radio: what a frame
//! asks of the meter, the telegrams that it sends, by the frames that they decode to, and the
//! order in which the device receives them.

use crate::device::{Timeout, WirelessMBusTransport};
use crate::error::TransportError;
use crate::frame::{decoded, law_decoding_undoes_encoding, Frame, FrameView};
use crate::loopback::{Asked, LoopbackRadio, RadioView};
use vstd::prelude::*;

verus! {

/// A radio starts quiet, with the meter that it was given.
pub proof fn law_a_new_radio_is_quiet(meter: [u8; 8], radio: LoopbackRadio)
    requires
        call_ensures(LoopbackRadio::new, (meter,), radio),
    ensures
        radio@.to_device.len() == 0,
        radio@.meter == meter@,
{
}

/// A radio tells the address of its meter, whatever has been sent, and every radio is the air
/// `loopback`.
pub proof fn law_a_radio_tells_its_meter(radio: &LoopbackRadio, meter: [u8; 8], name: String)
    requires
        call_ensures(LoopbackRadio::meter, (radio,), meter),
        call_ensures(LoopbackRadio::name, (radio,), name),
    ensures
        meter@ == radio@.meter,
        name@ == "loopback"@,
{
}

/// Whether `after` is `before` with one more telegram, behind those that were there.
pub open spec fn one_more(before: RadioView, after: RadioView, telegram: Seq<u8>) -> bool {
    &&& after.meter == before.meter
    &&& after.to_device.len() == before.to_device.len() + 1
    &&& forall|i: int|
        0 <= i < before.to_device.len() ==> #[trigger] after.to_device[i] == before.to_device[i]
    &&& after.to_device[before.to_device.len() as int] == telegram
}

/// What is left for the device stands behind all that it has not received yet.
pub proof fn law_a_queued_telegram_is_the_last(radio: &mut LoopbackRadio, bytes: Vec<u8>)
    requires
        call_ensures(LoopbackRadio::queue, (radio, bytes), ()),
    ensures
        one_more(old(radio)@, final(radio)@, bytes@),
{
}

/// The device receives the oldest telegram that it has not received, and the others stay in
/// their order; from a quiet radio it receives nothing.
pub proof fn law_the_oldest_telegram_is_received(
    radio: &mut LoopbackRadio,
    heard: Option<Vec<u8>>,
)
    requires
        call_ensures(LoopbackRadio::receive, (radio,), heard),
    ensures
        final(radio)@.meter == old(radio)@.meter,
        old(radio)@.to_device.len() == 0 ==> heard is None && final(radio)@.to_device.len() == 0,
        old(radio)@.to_device.len() > 0 ==> {
            &&& heard matches Some(bytes) && bytes@ == old(radio)@.to_device[0]
            &&& final(radio)@.to_device.len() == old(radio)@.to_device.len() - 1
            &&& forall|i: int|
                0 <= i < final(radio)@.to_device.len() ==> #[trigger] final(radio)@.to_device[i]
                    == old(radio)@.to_device[i + 1]
        },
{
}

/// Two telegrams left on a quiet radio are received in the order in which they were left, as
/// they were left, and nothing after them.
pub proof fn law_telegrams_are_received_in_order(
    meter: [u8; 8],
    radio: LoopbackRadio,
    first: Vec<u8>,
    second: Vec<u8>,
    a: &mut LoopbackRadio,
    b: &mut LoopbackRadio,
    c: &mut LoopbackRadio,
    d: &mut LoopbackRadio,
    e: &mut LoopbackRadio,
    heard_first: Option<Vec<u8>>,
    heard_second: Option<Vec<u8>>,
    heard_last: Option<Vec<u8>>,
)
    requires
        call_ensures(LoopbackRadio::new, (meter,), radio),
        *old(a) == radio,
        call_ensures(LoopbackRadio::queue, (a, first), ()),
        *old(b) == *final(a),
        call_ensures(LoopbackRadio::queue, (b, second), ()),
        *old(c) == *final(b),
        call_ensures(LoopbackRadio::receive, (c,), heard_first),
        *old(d) == *final(c),
        call_ensures(LoopbackRadio::receive, (d,), heard_second),
        *old(e) == *final(d),
        call_ensures(LoopbackRadio::receive, (e,), heard_last),
    ensures
        heard_first matches Some(bytes) && bytes@ == first@,
        heard_second matches Some(bytes) && bytes@ == second@,
        heard_last is None,
{
}

/// Whether `asked` is what a frame with these values asks of the meter at `meter`: nothing at
/// another address than its own and that of all meters; to start again under `0x40`; to take
/// the data under `0x53` with `0x51`, all of it; to give 241 bytes at most under `0x5b`; and
/// nothing otherwise.
pub open spec fn asks(
    asked: Asked,
    meter: Seq<u8>,
    control: u8,
    address: Seq<u8>,
    ci: u8,
    data: Seq<u8>,
) -> bool {
    let all = seq![0xffu8, 0xff, 0xff, 0xff, 0xff, 0xff, 0xff, 0xff];
    let addressed = address == meter || address == all;
    if addressed && control == 0x40 {
        asked is Reset
    } else if addressed && control == 0x53 && ci == 0x51 {
        asked matches Asked::Take(taken) && taken@ == data
    } else if addressed && control == 0x5b {
        asked matches Asked::Give(room) && room == 241
    } else {
        asked is Nothing
    }
}

/// A frame asks of the meter what its control field says, if it is addressed to it.
pub proof fn law_a_frame_asks_what_its_control_field_says(
    radio: &LoopbackRadio,
    frame: &Frame,
    asked: Asked,
)
    requires
        call_ensures(LoopbackRadio::answer, (radio, frame), asked),
    ensures
        asks(asked, radio@.meter, frame.control, frame.address@, frame.ci, frame.data@),
{
    assert(crate::frame::BROADCAST@ =~= seq![0xffu8, 0xff, 0xff, 0xff, 0xff, 0xff, 0xff, 0xff]);
}

/// What is transmitted asks of the meter what the frame in it does, and is refused exactly
/// where it does not decode.
pub proof fn law_a_transmitted_frame_asks_the_meter(
    radio: &LoopbackRadio,
    bytes: &[u8],
    result: Result<Asked, TransportError>,
)
    requires
        call_ensures(LoopbackRadio::transmit, (radio, bytes), result),
    ensures
        decoded(bytes@) matches Err(fault) ==> (result matches Err(error) && error == fault),
        decoded(bytes@) matches Ok(frame) ==> (result matches Ok(asked) && asks(
            asked,
            radio@.meter,
            frame.control,
            frame.address,
            frame.ci,
            frame.data,
        )),
{
    assert(crate::frame::BROADCAST@ =~= seq![0xffu8, 0xff, 0xff, 0xff, 0xff, 0xff, 0xff, 0xff]);
}

/// Whether `after` is `before` with one more telegram behind the others, which decodes to a
/// frame from the meter under `control`: `0x7a`, then `header`, then `data`.
pub open spec fn meter_sent(
    before: RadioView,
    after: RadioView,
    control: u8,
    header: Seq<u8>,
    data: Seq<u8>,
) -> bool {
    let telegram = after.to_device[before.to_device.len() as int];
    &&& one_more(before, after, telegram)
    &&& decoded(telegram) == Ok::<FrameView, TransportError>(
        FrameView { control, address: before.meter, ci: 0x7a, data: header + data },
    )
}

proof fn lemma_meter_sent(radio: RadioView, control: u8, header: Seq<u8>, data: Seq<u8>)
    requires
        radio.meter.len() == 8,
        header.len() == 4,
    ensures
        data.len() <= 241 ==> (radio.sent(control, header, data) matches Ok(after) && meter_sent(
            radio,
            after,
            control,
            header,
            data,
        )),
        data.len() > 241 ==> radio.sent(control, header, data) == Err::<RadioView, TransportError>(
            TransportError::DataTooLong { len: (4 + data.len()) as usize },
        ),
{
    if data.len() <= 241 {
        law_decoding_undoes_encoding(
            FrameView { control, address: radio.meter, ci: 0x7a, data: header + data },
        );
    }
}

/// The meter replies to what it was asked: to nothing not at all; to a reset or to records
/// with a frame whose control field is zero and which holds the short header alone; and to a
/// request for data with `0x08`, the short header and all that it gave, unless that is more
/// than 241 bytes, which is refused and leaves the radio as it was.
pub proof fn law_the_meter_replies_to_what_it_was_asked(
    radio: &mut LoopbackRadio,
    meter: [u8; 8],
    asked: &Asked,
    header: [u8; 4],
    given: Vec<u8>,
    result: Result<(), TransportError>,
)
    requires
        call_ensures(LoopbackRadio::meter, (old(radio),), meter),
        call_ensures(LoopbackRadio::reply, (radio, asked, header, given), result),
    ensures
        *asked is Nothing ==> result is Ok && final(radio)@ == old(radio)@,
        *asked is Reset || *asked is Take ==> result is Ok && meter_sent(
            old(radio)@,
            final(radio)@,
            0x00,
            header@,
            seq![],
        ),
        *asked is Give && given@.len() <= 241 ==> result is Ok && meter_sent(
            old(radio)@,
            final(radio)@,
            0x08,
            header@,
            given@,
        ),
        *asked is Give && given@.len() > 241 ==> result == Err::<(), TransportError>(
            TransportError::DataTooLong { len: (4 + given@.len()) as usize },
        ) && final(radio)@ == old(radio)@,
{
    lemma_meter_sent(old(radio)@, 0x00, header@, seq![]);
    lemma_meter_sent(old(radio)@, 0x08, header@, given@);
}

/// The meter sends unasked under `0x44`, the short header and all of the data, and says that
/// another telegram has to follow exactly where the records did; more than 241 bytes are
/// refused and leave the radio as it was.
pub proof fn law_the_meter_sends_unasked(
    radio: &mut LoopbackRadio,
    meter: [u8; 8],
    header: [u8; 4],
    data: Vec<u8>,
    more: bool,
    result: Result<bool, TransportError>,
)
    requires
        call_ensures(LoopbackRadio::meter, (old(radio),), meter),
        call_ensures(LoopbackRadio::send_unasked, (radio, header, data, more), result),
    ensures
        data@.len() <= 241 ==> result == Ok::<bool, TransportError>(more) && meter_sent(
            old(radio)@,
            final(radio)@,
            0x44,
            header@,
            data@,
        ),
        data@.len() > 241 ==> result == Err::<bool, TransportError>(
            TransportError::DataTooLong { len: (4 + data@.len()) as usize },
        ) && final(radio)@ == old(radio)@,
{
    lemma_meter_sent(old(radio)@, 0x44, header@, data@);
}

/// Both ends of a loopback are on the air `loopback`, at the address of one meter, `XMP` with
/// identification 12345678, version 1 and medium 7; the radio is quiet.
pub proof fn law_both_ends_of_a_loopback_agree(
    timeout: Timeout,
    device: WirelessMBusTransport,
    radio: LoopbackRadio,
)
    requires
        call_ensures(WirelessMBusTransport::loopback, (timeout,), (device, radio)),
    ensures
        device.air@ == "loopback"@,
        device.address@ == radio@.meter,
        radio@.meter == seq![0xb0u8, 0x61, 0x78, 0x56, 0x34, 0x12, 1, 7],
        device.timeout == timeout,
        radio@.to_device.len() == 0,
{
    assert(crate::loopback::LOOPBACK_METER@ =~= seq![
        0xb0u8,
        0x61,
        0x78,
        0x56,
        0x34,
        0x12,
        1,
        7,
    ]);
    assert(device@.air == "loopback"@);
}

} // verus!
