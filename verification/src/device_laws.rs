//! What each step of a conversation does, said of the calls that take it: what the device
//! transmits, by the frame that it decodes to, and what it makes of what it hears.

use crate::device::{acknowledged, records_of};
use crate::device::{Answered, Arrived, Directions, Exchange, Initialising, Listened, ListenStep};
use crate::device::{Listening, Overheard, Reading, ReadStep, Sending, Timeout};
use crate::device::{WirelessMBusTransport, Writing};
use crate::error::TransportError;
use crate::frame::{decoded, label, law_decoding_undoes_encoding, Frame, FrameView};
use vstd::prelude::*;
use vstd::string::*;

verus! {

/// A new device is on the air it was given, talks to the meter it was given, and waits one
/// second for an answer.
pub proof fn law_a_new_device_waits_a_second(
    air: String,
    address: [u8; 8],
    device: WirelessMBusTransport,
)
    requires
        call_ensures(WirelessMBusTransport::new, (air, address), device),
    ensures
        device.air@ == air@,
        device.address@ == address@,
        device.timeout.secs == 1 && device.timeout.nanos == 0,
{
}

/// Another timeout changes nothing else of a device.
pub proof fn law_a_timeout_is_all_that_changes(
    before: WirelessMBusTransport,
    timeout: Timeout,
    device: WirelessMBusTransport,
)
    requires
        call_ensures(WirelessMBusTransport::timing_out_after, (before, timeout), device),
    ensures
        device.air@ == before.air@,
        device.address@ == before.address@,
        device.timeout.secs == timeout.secs && device.timeout.nanos == timeout.nanos,
{
}

/// Every device is of the wireless M-Bus and carries Streams both ways.
pub proof fn law_every_device_carries_streams_both_ways(
    device: &WirelessMBusTransport,
    name: &'static str,
    directions: Directions,
)
    requires
        call_ensures(WirelessMBusTransport::name, (device,), name),
        call_ensures(WirelessMBusTransport::directions, (device,), directions),
    ensures
        name@ == "wireless-m-bus"@,
        directions.receives && directions.sends,
{
}

/// An origin begins with `wmbus://`; the whole name of the air follows, then one slash, then
/// the twelve characters of the meter's label, and nothing behind them.
pub proof fn law_an_origin_names_the_air_and_the_meter(
    device: &WirelessMBusTransport,
    address: &[u8; 8],
    origin: String,
    name: String,
)
    requires
        call_ensures(WirelessMBusTransport::origin, (device, address), origin),
        call_ensures(label, (address,), name),
    ensures
        ({
            let n = device.air@.len() as int;
            &&& origin@.len() == 9 + n + 12
            &&& origin@.subrange(0, 8) == seq!['w', 'm', 'b', 'u', 's', ':', '/', '/']
            &&& origin@.subrange(8, 8 + n) == device.air@
            &&& origin@[8 + n] == '/'
            &&& origin@.subrange(9 + n, 9 + n + 12) == name@
        }),
{
    reveal_strlit("wmbus://");
    reveal_strlit("/");
    crate::text_laws::law_a_label_reads_back_as_the_address(address, name);
    let n = device.air@.len() as int;
    assert(origin@.subrange(0, 8) =~= seq!['w', 'm', 'b', 'u', 's', ':', '/', '/']);
    assert(origin@.subrange(8, 8 + n) =~= device.air@);
    assert(origin@.subrange(9 + n, 9 + n + 12) =~= name@);
}

/// Two airs of different names never share an origin, whatever the meters.
pub proof fn law_an_origin_is_of_one_air(
    one: &WirelessMBusTransport,
    at: &[u8; 8],
    other: &WirelessMBusTransport,
    there: &[u8; 8],
    origin: String,
    same: String,
    name: String,
    name_there: String,
)
    requires
        call_ensures(WirelessMBusTransport::origin, (one, at), origin),
        call_ensures(WirelessMBusTransport::origin, (other, there), same),
        call_ensures(label, (at,), name),
        call_ensures(label, (there,), name_there),
        origin@ == same@,
    ensures
        one.air@ == other.air@,
        name@ == name_there@,
{
    law_an_origin_names_the_air_and_the_meter(one, at, origin, name);
    law_an_origin_names_the_air_and_the_meter(other, there, same, name_there);
}

/// The telegram of an exchange decodes to a frame with the control field, the control
/// information and the data of the call, at the device's address; the device's timeout goes
/// with it. More than 245 bytes are refused for their length.
pub proof fn law_an_exchange_transmits_what_it_was_given(
    device: &WirelessMBusTransport,
    control: u8,
    ci: u8,
    data: Vec<u8>,
    result: Result<Exchange, TransportError>,
)
    requires
        call_ensures(WirelessMBusTransport::exchange, (device, control, ci, data), result),
    ensures
        result is Ok <==> data@.len() <= 245,
        result matches Ok(exchange) ==> decoded(exchange.telegram@) == Ok::<
            FrameView,
            TransportError,
        >(FrameView { control, address: device.address@, ci, data: data@ }) && exchange.timeout
            == device.timeout,
        result matches Err(error) ==> (error matches TransportError::DataTooLong { len } && len
            == data@.len()),
{
    if data@.len() <= 245 {
        law_decoding_undoes_encoding(
            FrameView { control, address: device.address@, ci, data: data@ },
        );
    }
}

/// To initialise a meter is to send it `0x40` with nothing in it.
pub proof fn law_initialising_transmits_a_reset(
    device: &WirelessMBusTransport,
    initialising: Initialising,
)
    requires
        call_ensures(WirelessMBusTransport::initialise, (device,), initialising),
    ensures
        decoded(initialising.telegram@) == Ok::<FrameView, TransportError>(
            FrameView { control: 0x40, address: device.address@, ci: 0x51, data: seq![] },
        ),
        initialising.timeout == device.timeout,
{
    law_decoding_undoes_encoding(
        FrameView { control: 0x40, address: device.address@, ci: 0x51, data: seq![] },
    );
}

/// An exchange comes to the frame that was heard, field for field, if what was heard decodes,
/// and fails otherwise: for want of an answer, or as decoding fails.
pub proof fn law_an_exchange_gives_the_frame_that_was_heard(
    exchange: Exchange,
    heard: Option<Vec<u8>>,
    result: Result<Frame, TransportError>,
)
    requires
        call_ensures(Exchange::answered, (exchange, heard), result),
    ensures
        heard is None ==> result == Err::<Frame, TransportError>(TransportError::NoAnswer),
        heard is Some && decoded(heard->Some_0@) is Err ==> result == Err::<Frame, TransportError>(
            decoded(heard->Some_0@)->Err_0,
        ),
        heard is Some && decoded(heard->Some_0@) is Ok ==> {
            let frame = decoded(heard->Some_0@)->Ok_0;
            &&& result is Ok
            &&& result->Ok_0.control == frame.control
            &&& result->Ok_0.address@ == frame.address
            &&& result->Ok_0.ci == frame.ci
            &&& result->Ok_0.data@ == frame.data
        },
{
}

/// A frame acknowledges exactly when its control field is zero, whatever else it holds.
pub proof fn law_zero_acknowledges(answer: &Frame, result: Result<(), TransportError>)
    requires
        call_ensures(acknowledged, (answer,), result),
    ensures
        result is Ok <==> answer.control == 0,
        result matches Err(error) ==> error == (TransportError::NotAcknowledged {
            control: answer.control,
        }),
{
}

/// A meter is initialised only if what was heard decodes to a frame whose control field is
/// zero; nothing heard, bytes that do not decode and another control field are each an error.
pub proof fn law_a_meter_is_initialised_once_it_acknowledges(
    initialising: Initialising,
    heard: Option<Vec<u8>>,
    result: Result<(), TransportError>,
)
    requires
        call_ensures(Initialising::answered, (initialising, heard), result),
    ensures
        result is Ok <==> (heard matches Some(bytes) && (decoded(bytes@) matches Ok(frame)
            && frame.control == 0)),
        heard is None ==> result == Err::<(), TransportError>(TransportError::NoAnswer),
        heard matches Some(bytes) ==> (decoded(bytes@) matches Err(error) ==> result == Err::<
            (),
            TransportError,
        >(error)),
        heard matches Some(bytes) ==> (decoded(bytes@) matches Ok(frame) ==> frame.control != 0
            ==> result == Err::<(), TransportError>(
            TransportError::NotAcknowledged { control: frame.control },
        )),
{
}

/// Whether `writing` is what there is to do with `telegrams`: nothing where there are none;
/// otherwise the first of them goes to `address` under `0x53` and `0x51`, byte for byte, and
/// the others are left in their order. More than 245 bytes in the first are refused.
pub open spec fn goes_on_with(
    writing: Result<Writing, TransportError>,
    address: Seq<u8>,
    timeout: Timeout,
    telegrams: Seq<Vec<u8>>,
) -> bool {
    if telegrams.len() == 0 {
        writing matches Ok(Writing::Written)
    } else if telegrams[0]@.len() > 245 {
        writing matches Err(TransportError::DataTooLong { len }) && len == telegrams[0]@.len()
    } else {
        &&& writing is Ok
        &&& writing->Ok_0 matches Writing::Exchange(sending) && {
            &&& decoded(sending.telegram@) == Ok::<FrameView, TransportError>(
                FrameView { control: 0x53, address, ci: 0x51, data: telegrams[0]@ },
            )
            &&& sending.address@ == address
            &&& sending.timeout == timeout
            &&& sending.rest@.len() == telegrams.len() - 1
            &&& forall|i: int|
                0 <= i < telegrams.len() - 1 ==> (#[trigger] sending.rest@[i])@ == telegrams[i
                    + 1]@
        }
    }
}

proof fn lemma_goes_on_with(
    writing: Result<Writing, TransportError>,
    address: Seq<u8>,
    timeout: Timeout,
    telegrams: Seq<Vec<u8>>,
)
    requires
        address.len() == 8,
        match writing {
            Ok(writing) => crate::device::writing(
                address,
                timeout,
                crate::device::contents(telegrams),
            ) == Ok::<crate::device::WritingView, TransportError>(writing@),
            Err(error) => crate::device::writing(
                address,
                timeout,
                crate::device::contents(telegrams),
            ) == Err::<crate::device::WritingView, TransportError>(error),
        },
    ensures
        goes_on_with(writing, address, timeout, telegrams),
{
    let contents = crate::device::contents(telegrams);
    if telegrams.len() > 0 {
        assert(contents[0] == telegrams[0]@);
        if telegrams[0]@.len() <= 245 {
            law_decoding_undoes_encoding(
                FrameView { control: 0x53, address, ci: 0x51, data: telegrams[0]@ },
            );
            if let Ok(Writing::Exchange(sending)) = writing {
                assert(crate::device::contents(sending.rest@) == contents.skip(1));
                assert(sending.rest@.len() == contents.skip(1).len());
                assert forall|i: int| 0 <= i < telegrams.len() - 1 implies (
                #[trigger] sending.rest@[i])@ == telegrams[i + 1]@ by {
                    assert(crate::device::contents(sending.rest@)[i] == sending.rest@[i]@);
                    assert(contents.skip(1)[i] == contents[i + 1]);
                }
            }
        } else {
            assert(telegrams[0]@.len() == telegrams[0].len());
        }
    }
}

/// A Stream is written from its first telegram on, to the device's meter and within its
/// timeout.
pub proof fn law_writing_starts_with_the_first_telegram(
    device: &WirelessMBusTransport,
    telegrams: Vec<Vec<u8>>,
    writing: Result<Writing, TransportError>,
)
    requires
        call_ensures(WirelessMBusTransport::write_stream, (device, telegrams), writing),
    ensures
        goes_on_with(writing, device.address@, device.timeout, telegrams@),
{
    lemma_goes_on_with(writing, device.address@, device.timeout, telegrams@);
}

/// A Stream goes on to its next telegram, or is written, only if what was heard after the last
/// one decodes to a frame whose control field is zero. Nothing heard, bytes that do not
/// decode, whatever is wrong with them, and another control field end it, each in its error.
pub proof fn law_writing_goes_on_only_once_acknowledged(
    sending: Sending,
    heard: Option<Vec<u8>>,
    writing: Result<Writing, TransportError>,
)
    requires
        call_ensures(Sending::answered, (sending, heard), writing),
    ensures
        writing is Ok ==> (heard matches Some(bytes) && (decoded(bytes@) matches Ok(frame)
            && frame.control == 0)),
        heard is None ==> writing == Err::<Writing, TransportError>(TransportError::NoAnswer),
        heard matches Some(bytes) ==> (decoded(bytes@) matches Err(error) ==> writing == Err::<
            Writing,
            TransportError,
        >(error)),
        heard matches Some(bytes) ==> (decoded(bytes@) matches Ok(frame) ==> frame.control != 0
            ==> writing == Err::<Writing, TransportError>(
            TransportError::NotAcknowledged { control: frame.control },
        )),
        heard matches Some(bytes) ==> (decoded(bytes@) matches Ok(frame) ==> frame.control == 0
            ==> goes_on_with(writing, sending.address@, sending.timeout, sending.rest@)),
{
    if let Some(bytes) = heard {
        if let Ok(frame) = decoded(bytes@) {
            if frame.control == 0 {
                lemma_goes_on_with(writing, sending.address@, sending.timeout, sending.rest@);
            }
        }
    }
}

/// A meter's records are its frame's data from the fifth byte on, all of it, and nothing where
/// there are no more than four; a frame under another control field, or with other control
/// information than `0x7a`, is refused by what it has there.
pub proof fn law_records_stand_behind_four_bytes(
    frame: &Frame,
    control: u8,
    result: Result<Vec<u8>, TransportError>,
)
    requires
        call_ensures(records_of, (frame, control), result),
    ensures
        result is Ok <==> frame.control == control && frame.ci == 0x7a,
        result matches Ok(records) ==> {
            &&& records@.len() == if frame.data@.len() < 4 {
                0
            } else {
                frame.data@.len() - 4
            }
            &&& forall|i: int| 0 <= i < records@.len() ==> #[trigger] records@[i] == frame.data@[4
                + i]
        },
        result matches Err(error) ==> error == (TransportError::NotMeterData {
            control: frame.control,
            ci: frame.ci,
        }),
{
}

/// Whether `records` are what a meter's frame with `data` holds: all from the fifth byte on.
pub open spec fn behind_four_bytes(records: Seq<u8>, data: Seq<u8>) -> bool {
    &&& records.len() == if data.len() < 4 {
        0
    } else {
        data.len() - 4
    }
    &&& forall|i: int| 0 <= i < records.len() ==> #[trigger] records[i] == data[4 + i]
}

/// Whether `reading` asks the meter of `device` for data, `0x5b` with nothing in it, with
/// `bytes` here already.
pub open spec fn asks_for_more(
    reading: Reading,
    device: &WirelessMBusTransport,
    bytes: Seq<u8>,
) -> bool {
    &&& decoded(reading.telegram@) == Ok::<FrameView, TransportError>(
        FrameView { control: 0x5b, address: device.address@, ci: 0x51, data: seq![] },
    )
    &&& same_device(reading.device, device)
    &&& reading.bytes@ == bytes
}

/// Whether two devices are on one air, with one meter and one timeout.
pub open spec fn same_device(one: &WirelessMBusTransport, other: &WirelessMBusTransport) -> bool {
    &&& one.air@ == other.air@
    &&& one.address@ == other.address@
    &&& one.timeout == other.timeout
}

proof fn lemma_asks_for_more(reading: Reading, device: &WirelessMBusTransport, bytes: Seq<u8>)
    requires
        reading@ == crate::device::reading(device@, bytes),
    ensures
        asks_for_more(reading, device, bytes),
{
    law_decoding_undoes_encoding(
        FrameView { control: 0x5b, address: device.address@, ci: 0x51, data: seq![] },
    );
    assert(reading.device@ == device@);
    assert(reading.device@.air == device@.air);
}

/// Reading starts with nothing here and asks the device's meter for its data.
pub proof fn law_reading_starts_with_a_request<'a>(
    device: &'a WirelessMBusTransport,
    reading: Reading<'a>,
)
    requires
        call_ensures(WirelessMBusTransport::read_stream, (device,), reading),
    ensures
        asks_for_more(reading, device, seq![]),
{
    lemma_asks_for_more(reading, device, seq![]);
}

/// What a meter sent unasked is received as it is, and its meter is asked only where it sent
/// nothing.
pub proof fn law_what_came_unasked_is_received_first<'a>(
    device: &'a WirelessMBusTransport,
    unasked: Option<Arrived>,
    step: ReadStep<'a>,
)
    requires
        call_ensures(WirelessMBusTransport::receive, (device, unasked), step),
    ensures
        unasked matches Some(came) ==> (step matches ReadStep::Arrived(arrived)
            && arrived.origin_uri@ == came.origin_uri@ && arrived.bytes@ == came.bytes@),
        unasked is None ==> (step matches ReadStep::Ask(reading) && asks_for_more(
            reading,
            device,
            seq![],
        )),
{
    if let Some(came) = unasked {
        if let ReadStep::Arrived(arrived) = step {
            assert(arrived@ == came@);
            assert(arrived@.origin_uri == came@.origin_uri);
        }
    } else if let ReadStep::Ask(reading) = step {
        lemma_asks_for_more(reading, device, seq![]);
    }
}

/// A meter that was asked has answered only if what was heard decodes to a frame with the
/// control field `0x08` and the control information `0x7a`: then its records are here, from
/// the meter that the frame names, and what was here before stays. Anything else that was
/// heard is refused, and so is nothing.
pub proof fn law_only_a_data_response_is_read<'a>(
    reading: Reading<'a>,
    heard: Option<Vec<u8>>,
    result: Result<Answered<'a>, TransportError>,
)
    requires
        call_ensures(Reading::answered, (reading, heard), result),
    ensures
        heard is None ==> (result matches Err(error) && error == TransportError::NoAnswer),
        heard matches Some(bytes) ==> (decoded(bytes@) matches Err(fault) ==> (result matches Err(
            error,
        ) && error == fault)),
        heard matches Some(bytes) ==> (decoded(bytes@) matches Ok(frame) ==> if frame.control
            == 0x08 && frame.ci == 0x7a {
            &&& result is Ok
            &&& same_device(result->Ok_0.device, reading.device)
            &&& result->Ok_0.bytes@ == reading.bytes@
            &&& result->Ok_0.from@ == frame.address
            &&& behind_four_bytes(result->Ok_0.records@, frame.data)
        } else {
            result matches Err(error) && error == (TransportError::NotMeterData {
                control: frame.control,
                ci: frame.ci,
            })
        }),
{
    if let Ok(answered) = result {
        assert(answered@.device == reading@.device);
        assert(answered@.device.air == reading@.device.air);
        assert(answered@.bytes == reading@.bytes);
    }
}

/// What a telegram's records carried is added behind what was here, whole. The meter is asked
/// again exactly where more follow; the Stream has arrived otherwise, from the meter that
/// answered on the device's air.
pub proof fn law_a_read_stream_grows_by_what_was_carried<'a>(
    answered: Answered<'a>,
    chunk: Vec<u8>,
    more: bool,
    step: ReadStep<'a>,
    origin: String,
)
    requires
        call_ensures(Answered::unpacked, (answered, chunk, more), step),
        call_ensures(WirelessMBusTransport::origin, (answered.device, &answered.from), origin),
    ensures
        more ==> (step matches ReadStep::Ask(reading) && asks_for_more(
            reading,
            answered.device,
            answered.bytes@ + chunk@,
        )),
        !more ==> (step matches ReadStep::Arrived(arrived) && arrived.bytes@ == answered.bytes@
            + chunk@ && arrived.origin_uri@ == origin@),
{
    if more {
        if let ReadStep::Ask(reading) = step {
            lemma_asks_for_more(reading, answered.device, answered.bytes@ + chunk@);
        }
    }
}

/// A device starts to listen with nothing here.
pub proof fn law_listening_starts_with_nothing<'a>(
    device: &'a WirelessMBusTransport,
    listening: Listening<'a>,
)
    requires
        call_ensures(WirelessMBusTransport::listen, (device,), listening),
    ensures
        same_device(listening.device, device),
        listening.bytes@.len() == 0,
        listening.from is None,
{
    assert(listening@.device == device@);
    assert(listening@.device.air == device@.air);
    assert(listening@.bytes.len() == 0);
}

/// A device that listens takes only frames with the control field `0x44` and the control
/// information `0x7a`: their records are here, from the meter that the frame names, and what
/// was here before stays. Anything else that was heard is refused.
pub proof fn law_only_what_a_meter_sends_unasked_is_listened_to<'a>(
    listening: Listening<'a>,
    bytes: Vec<u8>,
    result: Result<Listened<'a>, TransportError>,
)
    requires
        call_ensures(Listening::heard, (listening, Some(bytes)), result),
    ensures
        decoded(bytes@) matches Err(fault) ==> (result matches Err(error) && error == fault),
        decoded(bytes@) matches Ok(frame) ==> if frame.control == 0x44 && frame.ci == 0x7a {
            result matches Ok(Listened::Telegram(overheard)) && {
                &&& same_device(overheard.device, listening.device)
                &&& overheard.bytes@ == listening.bytes@
                &&& overheard.from@ == frame.address
                &&& behind_four_bytes(overheard.records@, frame.data)
            }
        } else {
            result matches Err(error) && error == (TransportError::NotMeterData {
                control: frame.control,
                ci: frame.ci,
            })
        },
{
    if let Ok(Listened::Telegram(overheard)) = result {
        assert(overheard@.device == listening@.device);
        assert(overheard@.device.air == listening@.device.air);
        assert(overheard@.bytes == listening@.bytes);
    }
}

/// Where the air is quiet before anything was heard there is no Stream.
pub proof fn law_a_quiet_air_carries_no_stream<'a>(
    listening: Listening<'a>,
    result: Result<Listened<'a>, TransportError>,
)
    requires
        call_ensures(Listening::heard, (listening, None::<Vec<u8>>), result),
        listening.from is None,
    ensures
        result matches Ok(Listened::Quiet(None)),
{
}

/// Where the air falls quiet, the Stream is what there is of it, whole, from the meter last
/// heard, marked as unasked behind its origin.
pub proof fn law_a_stream_that_breaks_off_is_what_there_is_of_it<'a>(
    listening: Listening<'a>,
    from: [u8; 8],
    result: Result<Listened<'a>, TransportError>,
    origin: String,
)
    requires
        call_ensures(Listening::heard, (listening, None::<Vec<u8>>), result),
        listening.from == Some(from),
        call_ensures(WirelessMBusTransport::origin, (listening.device, &from), origin),
    ensures
        result matches Ok(Listened::Quiet(Some(arrived))) && arrived.bytes@ == listening.bytes@
            && arrived.origin_uri@ == origin@ + "?unsolicited=true"@,
{
    if let Ok(Listened::Quiet(Some(arrived))) = result {
        assert(arrived@.bytes == listening@.bytes);
    }
}

/// What a telegram's records carried is added behind what was here, whole. The device goes on
/// listening exactly where more follow; the Stream has arrived otherwise, from the meter that
/// sent it, marked as unasked behind its origin.
pub proof fn law_a_stream_listened_to_grows_by_what_was_carried<'a>(
    overheard: Overheard<'a>,
    chunk: Vec<u8>,
    more: bool,
    step: ListenStep<'a>,
    origin: String,
)
    requires
        call_ensures(Overheard::unpacked, (overheard, chunk, more), step),
        call_ensures(WirelessMBusTransport::origin, (overheard.device, &overheard.from), origin),
    ensures
        more ==> (step matches ListenStep::Listen(listening) && {
            &&& same_device(listening.device, overheard.device)
            &&& listening.bytes@ == overheard.bytes@ + chunk@
            &&& listening.from matches Some(from) && from@ == overheard.from@
        }),
        !more ==> (step matches ListenStep::Arrived(arrived) && arrived.bytes@
            == overheard.bytes@ + chunk@ && arrived.origin_uri@ == origin@
            + "?unsolicited=true"@),
{
    if let ListenStep::Listen(listening) = step {
        assert(listening@.device == overheard@.device);
        assert(listening@.device.air == overheard@.device.air);
        assert(listening@.from is Some);
    }
}

} // verus!
