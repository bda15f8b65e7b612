//! Conversations from end to end: a device and a [`LoopbackRadio`](crate::loopback) on one
//! air, the meter doing what each frame asks of it.
//!
//! The meter behind the radio appears as what it takes and what it gives. `headers` are the
//! short headers it puts in front of its answers, `given` the records it gives, one entry a
//! telegram, `held` what it gives for what it took, and `carried` is what records carry once
//! taken apart: a part of the Stream and whether more follow.

use crate::device::ANSWER_ROOM;
use crate::error::TransportError;
use crate::frame::{ACK, BROADCAST, MAX_DATA, REQ_UD2, RSP_UD, SND_NKE, SND_NR, SND_UD};
use crate::loopback::LOOPBACK_METER;
use crate::record::{CI_DATA_SEND, SHORT_HEADER};
use vstd::prelude::*;

verus! {

/// One exchange as it went: what the meter was asked, the radio afterwards, and what the
/// device heard.
pub struct Exchanged {
    pub asked: crate::loopback::AskedView,
    pub radio: crate::loopback::RadioView,
    pub heard: Option<Seq<u8>>,
}

/// The device transmits `telegram`, the meter does what it asks and replies, and the device
/// receives.
pub open spec fn exchanged(
    radio: crate::loopback::RadioView,
    telegram: Seq<u8>,
    header: Seq<u8>,
    given: Seq<u8>,
) -> Result<Exchanged, TransportError> {
    match radio.asked(telegram) {
        Err(error) => Err(error),
        Ok(asked) => match radio.replied(asked, header, given) {
            Err(error) => Err(error),
            Ok(radio) => Ok(
                Exchanged { asked, radio: radio.received().0, heard: radio.received().1 },
            ),
        },
    }
}

/// A Stream as it was written: the records that the meter took, the radio afterwards, and
/// how it ended.
pub struct Written {
    pub taken: Seq<Seq<u8>>,
    pub radio: crate::loopback::RadioView,
    pub result: Result<(), TransportError>,
}

/// How many telegrams of a Stream are still to be exchanged.
pub open spec fn to_write(
    writing: Result<crate::device::WritingView, TransportError>,
) -> nat {
    match writing {
        Ok(crate::device::WritingView::Exchange { rest, .. }) => rest.len() + 1,
        _ => 0,
    }
}

/// The device writes what is left of a Stream to its meter, each telegram acknowledged before
/// the next.
pub open spec fn written(
    radio: crate::loopback::RadioView,
    writing: Result<crate::device::WritingView, TransportError>,
    headers: Seq<Seq<u8>>,
) -> Written
    decreases to_write(writing),
{
    match writing {
        Err(error) => Written { taken: seq![], radio, result: Err(error) },
        Ok(crate::device::WritingView::Written) => Written {
            taken: seq![],
            radio,
            result: Ok(()),
        },
        Ok(crate::device::WritingView::Exchange { address, timeout, telegram, rest }) =>
        match exchanged(radio, telegram, headers[0], seq![]) {
            Err(error) => Written { taken: seq![], radio, result: Err(error) },
            Ok(step) => {
                let taken = match step.asked {
                    crate::loopback::AskedView::Take(data) => seq![data],
                    _ => seq![],
                };
                let after = written(
                    step.radio,
                    crate::device::writing_after(step.heard, address, timeout, rest),
                    headers.skip(1),
                );
                Written {
                    taken: taken + after.taken,
                    radio: after.radio,
                    result: after.result,
                }
            },
        },
    }
}

/// The device writes `telegrams` to its meter.
pub open spec fn written_stream(
    radio: crate::loopback::RadioView,
    device: crate::device::DeviceView,
    telegrams: Seq<Seq<u8>>,
    headers: Seq<Seq<u8>>,
) -> Written {
    written(
        radio,
        crate::device::writing(device.address, device.timeout, telegrams),
        headers,
    )
}

/// A Stream as it arrived, if one did, and the radio afterwards.
pub struct Received {
    pub radio: crate::loopback::RadioView,
    pub arrived: Result<Option<crate::device::ArrivedView>, TransportError>,
}

/// The device reads the rest of a Stream from its meter, which gives `given`; nothing arrives
/// where the meter has no more to give.
pub open spec fn read(
    radio: crate::loopback::RadioView,
    reading: crate::device::ReadingView,
    headers: Seq<Seq<u8>>,
    given: Seq<Seq<u8>>,
    carried: spec_fn(Seq<u8>) -> (Seq<u8>, bool),
) -> Received
    decreases given.len(),
{
    if given.len() == 0 {
        Received { radio, arrived: Ok(None) }
    } else {
        match exchanged(radio, reading.telegram, headers[0], given[0]) {
            Err(error) => Received { radio, arrived: Err(error) },
            Ok(step) => match crate::device::reading_after(reading, step.heard) {
                Err(error) => Received { radio: step.radio, arrived: Err(error) },
                Ok(heard) => {
                    let (chunk, more) = carried(heard.records);
                    match crate::device::read_step(heard, chunk, more) {
                        crate::device::ReadStepView::Ask(next) => read(
                            step.radio,
                            next,
                            headers.skip(1),
                            given.skip(1),
                            carried,
                        ),
                        crate::device::ReadStepView::Arrived(arrived) => Received {
                            radio: step.radio,
                            arrived: Ok(Some(arrived)),
                        },
                    }
                },
            },
        }
    }
}

/// The device reads the Stream that its meter gives as `given`.
pub open spec fn read_stream(
    radio: crate::loopback::RadioView,
    device: crate::device::DeviceView,
    headers: Seq<Seq<u8>>,
    given: Seq<Seq<u8>>,
    carried: spec_fn(Seq<u8>) -> (Seq<u8>, bool),
) -> Received {
    read(radio, crate::device::reading(device, seq![]), headers, given, carried)
}

/// The radio once the meter has sent what it gives unasked, a telegram after another until one
/// says that no more follow.
pub open spec fn sent_unasked(
    radio: crate::loopback::RadioView,
    headers: Seq<Seq<u8>>,
    given: Seq<Seq<u8>>,
    carried: spec_fn(Seq<u8>) -> (Seq<u8>, bool),
) -> Result<crate::loopback::RadioView, TransportError>
    decreases given.len(),
{
    if given.len() == 0 {
        Ok(radio)
    } else {
        match radio.sent_unasked(headers[0], given[0], carried(given[0]).1) {
            Err(error) => Err(error),
            Ok((radio, again)) => if again {
                sent_unasked(radio, headers.skip(1), given.skip(1), carried)
            } else {
                Ok(radio)
            },
        }
    }
}

/// The device goes on listening until a Stream is here or the air is quiet.
pub open spec fn listened(
    radio: crate::loopback::RadioView,
    listening: crate::device::ListeningView,
    carried: spec_fn(Seq<u8>) -> (Seq<u8>, bool),
) -> Received
    decreases radio.to_device.len(),
{
    let (after, heard) = radio.received();
    match crate::device::listening_after(listening, heard) {
        Err(error) => Received { radio: after, arrived: Err(error) },
        Ok(crate::device::ListenedView::Quiet(arrived)) => Received {
            radio: after,
            arrived: Ok(arrived),
        },
        Ok(crate::device::ListenedView::Telegram(telegram)) => {
            let (chunk, more) = carried(telegram.records);
            match crate::device::listen_step(telegram, chunk, more) {
                crate::device::ListenStepView::Listen(next) => listened(after, next, carried),
                crate::device::ListenStepView::Arrived(arrived) => Received {
                    radio: after,
                    arrived: Ok(Some(arrived)),
                },
            }
        },
    }
}

/// The device listens.
pub open spec fn listened_stream(
    radio: crate::loopback::RadioView,
    device: crate::device::DeviceView,
    carried: spec_fn(Seq<u8>) -> (Seq<u8>, bool),
) -> Received {
    listened(radio, crate::device::listening(device), carried)
}

/// The Stream that `telegrams` carry, part after part.
pub open spec fn stream_of(
    telegrams: Seq<Seq<u8>>,
    carried: spec_fn(Seq<u8>) -> (Seq<u8>, bool),
) -> Seq<u8> {
    Seq::new(telegrams.len(), |i: int| carried(telegrams[i]).0).flatten()
}

/// A quiet air with a meter on it.
pub open spec fn quiet(radio: crate::loopback::RadioView) -> bool {
    &&& radio.meter.len() == 8
    &&& radio.to_device =~= seq![]
}

/// Whether the meter of `radio` listens at `address`.
pub open spec fn reaches(radio: crate::loopback::RadioView, address: Seq<u8>) -> bool {
    address == radio.meter || address == BROADCAST@
}

/// Whether `headers` has a short header for each of `count` answers.
pub open spec fn headers_for(headers: Seq<Seq<u8>>, count: nat) -> bool {
    &&& headers.len() == count
    &&& forall|i: int| 0 <= i < count ==> (#[trigger] headers[i]).len() == SHORT_HEADER
}

/// Whether `given` is one Stream in telegrams that leave room for the short header: each but
/// the last says that more follow.
pub open spec fn gives(
    given: Seq<Seq<u8>>,
    carried: spec_fn(Seq<u8>) -> (Seq<u8>, bool),
) -> bool {
    &&& given.len() > 0
    &&& forall|i: int|
        0 <= i < given.len() ==> (#[trigger] given[i]).len() <= ANSWER_ROOM && (carried(given[i]).1
            <==> i < given.len() - 1)
}

/// What the meter sends is what the device finds: the meter's address and the records as the
/// meter gave them, the short header gone.
pub proof fn law_a_meters_telegram_arrives_as_it_was_given(
    meter: Seq<u8>,
    control: u8,
    header: Seq<u8>,
    given: Seq<u8>,
)
    requires
        meter.len() == 8,
        header.len() == SHORT_HEADER,
        given.len() <= ANSWER_ROOM,
    ensures
        crate::device::telegram_in(
            crate::frame::decoded(
                crate::loopback::meter_telegram(meter, control, header, given).encoding(),
            ),
            control,
        ) == Ok::<crate::device::TelegramView, TransportError>(
            crate::device::TelegramView { from: meter, records: given },
        ),
{
    let frame = crate::loopback::meter_telegram(meter, control, header, given);
    crate::frame::law_decoding_undoes_encoding(frame);
    assert(frame.data.skip(SHORT_HEADER as int) =~= given);
}

proof fn lemma_queue_of_one(radio: crate::loopback::RadioView, bytes: Seq<u8>)
    requires
        quiet(radio),
    ensures
        radio.queued(bytes).received() == (radio, Some(bytes)),
{
    assert(radio.to_device.push(bytes).skip(1) =~= radio.to_device);
}

/// A telegram written to the meter is taken as it was written, and acknowledged.
pub proof fn law_a_written_telegram_is_taken_and_acknowledged(
    radio: crate::loopback::RadioView,
    address: Seq<u8>,
    header: Seq<u8>,
    data: Seq<u8>,
)
    requires
        quiet(radio),
        reaches(radio, address),
        header.len() == SHORT_HEADER,
        data.len() <= MAX_DATA,
    ensures
        exchanged(
            radio,
            crate::device::request(address, SND_UD, CI_DATA_SEND, data).encoding(),
            header,
            seq![],
        ) matches Ok(step) && step.asked == crate::loopback::AskedView::Take(data) && step.radio
            == radio && crate::device::acknowledgement_in(step.heard) == Ok::<(), TransportError>(
            (),
        ),
{
    crate::frame::law_decoding_undoes_encoding(
        crate::device::request(address, SND_UD, CI_DATA_SEND, data),
    );
    let acknowledgement = crate::loopback::meter_telegram(radio.meter, ACK, header, seq![]);
    crate::frame::law_decoding_undoes_encoding(acknowledgement);
    lemma_queue_of_one(radio, acknowledgement.encoding());
}

/// A meter that is initialised is reset, and acknowledges.
pub proof fn law_initialising_resets_the_meter(
    radio: crate::loopback::RadioView,
    address: Seq<u8>,
    header: Seq<u8>,
)
    requires
        quiet(radio),
        reaches(radio, address),
        header.len() == SHORT_HEADER,
    ensures
        exchanged(
            radio,
            crate::device::request(address, SND_NKE, CI_DATA_SEND, seq![]).encoding(),
            header,
            seq![],
        ) matches Ok(step) && step.asked == crate::loopback::AskedView::Reset && step.radio == radio
            && crate::device::acknowledgement_in(step.heard) == Ok::<(), TransportError>(()),
{
    crate::frame::law_decoding_undoes_encoding(
        crate::device::request(address, SND_NKE, CI_DATA_SEND, seq![]),
    );
    let acknowledgement = crate::loopback::meter_telegram(radio.meter, ACK, header, seq![]);
    crate::frame::law_decoding_undoes_encoding(acknowledgement);
    lemma_queue_of_one(radio, acknowledgement.encoding());
}

/// A meter that is asked for its data is asked for as much as an answer has room for, and
/// what it gives is what the device finds.
pub proof fn law_an_asked_meter_answers_with_what_it_gives(
    radio: crate::loopback::RadioView,
    address: Seq<u8>,
    header: Seq<u8>,
    given: Seq<u8>,
)
    requires
        quiet(radio),
        reaches(radio, address),
        header.len() == SHORT_HEADER,
        given.len() <= ANSWER_ROOM,
    ensures
        exchanged(radio, crate::device::data_request(address), header, given) matches Ok(step)
            && step.asked == crate::loopback::AskedView::Give(ANSWER_ROOM as int) && step.radio
            == radio && crate::device::telegram_in(crate::device::answer_in(step.heard), RSP_UD)
            == Ok::<crate::device::TelegramView, TransportError>(
            crate::device::TelegramView { from: radio.meter, records: given },
        ),
{
    crate::frame::law_decoding_undoes_encoding(
        crate::device::request(address, REQ_UD2, CI_DATA_SEND, seq![]),
    );
    law_a_meters_telegram_arrives_as_it_was_given(radio.meter, RSP_UD, header, given);
    lemma_queue_of_one(
        radio,
        crate::loopback::meter_telegram(radio.meter, RSP_UD, header, given).encoding(),
    );
}

/// A meter that is not addressed does not answer, whatever it is asked, and the device gives
/// up on it with the error that may pass.
pub proof fn law_a_meter_that_is_not_addressed_does_not_answer(
    radio: crate::loopback::RadioView,
    address: Seq<u8>,
    control: u8,
    ci: u8,
    data: Seq<u8>,
    header: Seq<u8>,
    given: Seq<u8>,
)
    requires
        quiet(radio),
        !reaches(radio, address),
        address.len() == 8,
        data.len() <= MAX_DATA,
    ensures
        exchanged(
            radio,
            crate::device::request(address, control, ci, data).encoding(),
            header,
            given,
        ) matches Ok(step) && step.asked == crate::loopback::AskedView::Nothing && step.radio
            == radio && crate::device::answer_in(step.heard) == Err::<
            crate::frame::FrameView,
            TransportError,
        >(TransportError::NoAnswer),
{
    crate::frame::law_decoding_undoes_encoding(
        crate::device::request(address, control, ci, data),
    );
}

/// An acknowledgement is no data and data is no acknowledgement.
pub proof fn law_an_acknowledgement_is_no_data(frame: crate::frame::FrameView)
    ensures
        crate::device::acknowledgement(frame) is Ok ==> crate::device::meter_records(
            frame,
            RSP_UD,
        ) is Err && crate::device::meter_records(frame, SND_NR) is Err,
        crate::device::meter_records(frame, RSP_UD) is Ok ==> crate::device::acknowledgement(
            frame,
        ) is Err,
        crate::device::meter_records(frame, SND_NR) is Ok ==> crate::device::acknowledgement(
            frame,
        ) is Err,
{
}

proof fn lemma_stream_goes_on(
    telegrams: Seq<Seq<u8>>,
    carried: spec_fn(Seq<u8>) -> (Seq<u8>, bool),
)
    requires
        telegrams.len() > 0,
    ensures
        stream_of(telegrams, carried) == carried(telegrams[0]).0 + stream_of(
            telegrams.skip(1),
            carried,
        ),
        telegrams.len() == 1 ==> stream_of(telegrams.skip(1), carried) == Seq::<u8>::empty(),
{
    let parts = Seq::new(telegrams.len(), |i: int| carried(telegrams[i]).0);
    let rest = telegrams.skip(1);
    assert(parts.drop_first() =~= Seq::new(rest.len(), |i: int| carried(rest[i]).0));
}

/// A Stream that is written reaches the meter whole: the meter takes each telegram as it was
/// written, in order, and the air is quiet again.
pub proof fn law_a_written_stream_is_taken_whole(
    radio: crate::loopback::RadioView,
    device: crate::device::DeviceView,
    telegrams: Seq<Seq<u8>>,
    headers: Seq<Seq<u8>>,
)
    requires
        quiet(radio),
        reaches(radio, device.address),
        forall|i: int| 0 <= i < telegrams.len() ==> (#[trigger] telegrams[i]).len() <= MAX_DATA,
        headers_for(headers, telegrams.len()),
    ensures
        written_stream(radio, device, telegrams, headers) == (Written {
            taken: telegrams,
            radio,
            result: Ok(()),
        }),
    decreases telegrams.len(),
{
    if telegrams.len() > 0 {
        assert(headers[0].len() == SHORT_HEADER);
        law_a_written_telegram_is_taken_and_acknowledged(
            radio,
            device.address,
            headers[0],
            telegrams[0],
        );
        law_a_written_stream_is_taken_whole(radio, device, telegrams.skip(1), headers.skip(1));
        assert(seq![telegrams[0]] + telegrams.skip(1) =~= telegrams);
    } else {
        assert(telegrams =~= seq![]);
    }
}

#[verifier::rlimit(50)]
proof fn lemma_read(
    radio: crate::loopback::RadioView,
    device: crate::device::DeviceView,
    bytes: Seq<u8>,
    headers: Seq<Seq<u8>>,
    given: Seq<Seq<u8>>,
    carried: spec_fn(Seq<u8>) -> (Seq<u8>, bool),
)
    requires
        quiet(radio),
        reaches(radio, device.address),
        headers_for(headers, given.len()),
        gives(given, carried),
    ensures
        read(radio, crate::device::reading(device, bytes), headers, given, carried) == (Received {
            radio,
            arrived: Ok(
                Some(
                    crate::device::ArrivedView {
                        origin_uri: crate::device::origin_text(device.air, radio.meter),
                        bytes: bytes + stream_of(given, carried),
                    },
                ),
            ),
        }),
    decreases given.len(),
{
    assert(headers[0].len() == SHORT_HEADER);
    assert(given[0].len() <= ANSWER_ROOM);
    law_an_asked_meter_answers_with_what_it_gives(radio, device.address, headers[0], given[0]);
    lemma_stream_goes_on(given, carried);
    let chunk = carried(given[0]).0;
    let rest = stream_of(given.skip(1), carried);
    assert((bytes + chunk) + rest =~= bytes + (chunk + rest));
    if given.len() > 1 {
        lemma_read(radio, device, bytes + chunk, headers.skip(1), given.skip(1), carried);
    } else {
        assert((bytes + chunk) + rest =~= bytes + chunk);
    }
}

/// A Stream that is read arrives whole: what each of the meter's telegrams carried, in order,
/// under the meter's own address. The air is quiet again, so that the next read goes the same
/// way.
pub proof fn law_a_read_stream_arrives_whole(
    radio: crate::loopback::RadioView,
    device: crate::device::DeviceView,
    headers: Seq<Seq<u8>>,
    given: Seq<Seq<u8>>,
    carried: spec_fn(Seq<u8>) -> (Seq<u8>, bool),
)
    requires
        quiet(radio),
        reaches(radio, device.address),
        headers_for(headers, given.len()),
        gives(given, carried),
    ensures
        read_stream(radio, device, headers, given, carried) == (Received {
            radio,
            arrived: Ok(
                Some(
                    crate::device::ArrivedView {
                        origin_uri: crate::device::origin_text(device.air, radio.meter),
                        bytes: stream_of(given, carried),
                    },
                ),
            ),
        }),
{
    lemma_read(radio, device, seq![], headers, given, carried);
    assert(seq![] + stream_of(given, carried) =~= stream_of(given, carried));
}

/// The loopback returns a Stream whole: where the telegrams written carry `stream` and the
/// meter gives, for what it took, telegrams that carry the same, `stream` is what is read, and
/// read again as often as it is asked for.
pub proof fn law_the_loopback_returns_a_stream_whole(
    radio: crate::loopback::RadioView,
    device: crate::device::DeviceView,
    stream: Seq<u8>,
    telegrams: Seq<Seq<u8>>,
    held: spec_fn(Seq<Seq<u8>>) -> Seq<Seq<u8>>,
    carried: spec_fn(Seq<u8>) -> (Seq<u8>, bool),
    write_headers: Seq<Seq<u8>>,
    read_headers: Seq<Seq<u8>>,
    again_headers: Seq<Seq<u8>>,
)
    requires
        quiet(radio),
        reaches(radio, device.address),
        forall|i: int| 0 <= i < telegrams.len() ==> (#[trigger] telegrams[i]).len() <= MAX_DATA,
        stream_of(telegrams, carried) == stream,
        gives(held(telegrams), carried),
        stream_of(held(telegrams), carried) == stream_of(telegrams, carried),
        headers_for(write_headers, telegrams.len()),
        headers_for(read_headers, held(telegrams).len()),
        headers_for(again_headers, held(telegrams).len()),
    ensures
        ({
            let wrote = written_stream(radio, device, telegrams, write_headers);
            let given = held(wrote.taken);
            let first = read_stream(wrote.radio, device, read_headers, given, carried);
            let again = read_stream(first.radio, device, again_headers, given, carried);
            &&& wrote.result is Ok
            &&& wrote.taken == telegrams
            &&& first == (Received {
                radio,
                arrived: Ok(
                    Some(
                        crate::device::ArrivedView {
                            origin_uri: crate::device::origin_text(device.air, radio.meter),
                            bytes: stream,
                        },
                    ),
                ),
            })
            &&& again == first
        }),
{
    law_a_written_stream_is_taken_whole(radio, device, telegrams, write_headers);
    law_a_read_stream_arrives_whole(radio, device, read_headers, held(telegrams), carried);
    law_a_read_stream_arrives_whole(radio, device, again_headers, held(telegrams), carried);
}

/// One round: what the device writes, and what the meter then gives.
pub struct Round {
    pub telegrams: Seq<Seq<u8>>,
    pub write_headers: Seq<Seq<u8>>,
    pub given: Seq<Seq<u8>>,
    pub read_headers: Seq<Seq<u8>>,
}

/// Whether the telegrams of `round` fit and the meter gives back the Stream that it took.
pub open spec fn gives_back(
    round: Round,
    carried: spec_fn(Seq<u8>) -> (Seq<u8>, bool),
) -> bool {
    &&& forall|i: int|
        0 <= i < round.telegrams.len() ==> (#[trigger] round.telegrams[i]).len() <= MAX_DATA
    &&& headers_for(round.write_headers, round.telegrams.len())
    &&& gives(round.given, carried)
    &&& headers_for(round.read_headers, round.given.len())
    &&& stream_of(round.given, carried) == stream_of(round.telegrams, carried)
}

/// The device writes a Stream to its meter and reads it back.
pub open spec fn round_trip(
    radio: crate::loopback::RadioView,
    device: crate::device::DeviceView,
    round: Round,
    carried: spec_fn(Seq<u8>) -> (Seq<u8>, bool),
) -> Received {
    let wrote = written_stream(radio, device, round.telegrams, round.write_headers);
    match wrote.result {
        Err(error) => Received { radio: wrote.radio, arrived: Err(error) },
        Ok(_) => read_stream(wrote.radio, device, round.read_headers, round.given, carried),
    }
}

/// What arrives of one round after another on one air.
pub open spec fn round_trips(
    radio: crate::loopback::RadioView,
    device: crate::device::DeviceView,
    rounds: Seq<Round>,
    carried: spec_fn(Seq<u8>) -> (Seq<u8>, bool),
) -> Seq<Received>
    decreases rounds.len(),
{
    if rounds.len() == 0 {
        seq![]
    } else {
        let first = round_trip(radio, device, rounds[0], carried);
        seq![first] + round_trips(first.radio, device, rounds.skip(1), carried)
    }
}

/// Each of any number of rounds on one air returns its own Stream whole, with nothing left over
/// from the rounds before, and leaves the air quiet.
pub proof fn law_every_round_returns_its_stream(
    radio: crate::loopback::RadioView,
    device: crate::device::DeviceView,
    rounds: Seq<Round>,
    carried: spec_fn(Seq<u8>) -> (Seq<u8>, bool),
)
    requires
        quiet(radio),
        reaches(radio, device.address),
        forall|i: int| 0 <= i < rounds.len() ==> gives_back(#[trigger] rounds[i], carried),
    ensures
        round_trips(radio, device, rounds, carried) == Seq::new(
            rounds.len(),
            |i: int|
                Received {
                    radio,
                    arrived: Ok(
                        Some(
                            crate::device::ArrivedView {
                                origin_uri: crate::device::origin_text(device.air, radio.meter),
                                bytes: stream_of(rounds[i].telegrams, carried),
                            },
                        ),
                    ),
                },
        ),
    decreases rounds.len(),
{
    if rounds.len() > 0 {
        let round = rounds[0];
        assert(gives_back(round, carried));
        law_a_written_stream_is_taken_whole(
            radio,
            device,
            round.telegrams,
            round.write_headers,
        );
        law_a_read_stream_arrives_whole(
            radio,
            device,
            round.read_headers,
            round.given,
            carried,
        );
        law_every_round_returns_its_stream(radio, device, rounds.skip(1), carried);
    }
    assert(round_trips(radio, device, rounds, carried) =~= Seq::new(
        rounds.len(),
        |i: int|
            Received {
                radio,
                arrived: Ok(
                    Some(
                        crate::device::ArrivedView {
                            origin_uri: crate::device::origin_text(device.air, radio.meter),
                            bytes: stream_of(rounds[i].telegrams, carried),
                        },
                    ),
                ),
            },
    ));
}

proof fn lemma_loopback_origin()
    ensures
        crate::device::origin_text("loopback"@, LOOPBACK_METER@)
            == "wmbus://loopback/XMP-12345678"@,
{
    let origin = crate::device::origin_text("loopback"@, LOOPBACK_METER@);
    reveal_strlit("wmbus://");
    reveal_strlit("loopback");
    reveal_strlit("/");
    reveal_strlit("wmbus://loopback/XMP-12345678");
    reveal_with_fuel(crate::text::hex, 5);
    assert(origin =~= "wmbus://loopback/XMP-12345678"@);
}

/// Both ends that [`WirelessMBusTransport::loopback`](crate::device::WirelessMBusTransport)
/// stands up return every round under the origin `wmbus://loopback/XMP-12345678`.
pub proof fn law_the_loopback_pair_returns_every_round(
    radio: crate::loopback::RadioView,
    device: crate::device::DeviceView,
    rounds: Seq<Round>,
    carried: spec_fn(Seq<u8>) -> (Seq<u8>, bool),
)
    requires
        radio.meter == LOOPBACK_METER@,
        radio.to_device == Seq::<Seq<u8>>::empty(),
        device.air == "loopback"@,
        device.address == LOOPBACK_METER@,
        forall|i: int| 0 <= i < rounds.len() ==> gives_back(#[trigger] rounds[i], carried),
    ensures
        round_trips(radio, device, rounds, carried).len() == rounds.len(),
        forall|i: int|
            0 <= i < rounds.len() ==> (#[trigger] round_trips(
                radio,
                device,
                rounds,
                carried,
            )[i]).arrived == Ok::<Option<crate::device::ArrivedView>, TransportError>(
                Some(
                    crate::device::ArrivedView {
                        origin_uri: "wmbus://loopback/XMP-12345678"@,
                        bytes: stream_of(rounds[i].telegrams, carried),
                    },
                ),
            ),
{
    law_every_round_returns_its_stream(radio, device, rounds, carried);
    lemma_loopback_origin();
}

/// The telegrams that `given` goes out in, unasked.
pub open spec fn unasked_telegrams(
    meter: Seq<u8>,
    headers: Seq<Seq<u8>>,
    given: Seq<Seq<u8>>,
) -> Seq<Seq<u8>> {
    Seq::new(
        given.len(),
        |i: int|
            crate::loopback::meter_telegram(meter, SND_NR, headers[i], given[i]).encoding(),
    )
}

/// A meter that sends its Stream unasked sends it once, behind what already waits for the
/// device: a `SND_NR` telegram for each that it gives, and no more.
pub proof fn law_a_stream_is_sent_unasked_once(
    radio: crate::loopback::RadioView,
    headers: Seq<Seq<u8>>,
    given: Seq<Seq<u8>>,
    carried: spec_fn(Seq<u8>) -> (Seq<u8>, bool),
)
    requires
        headers_for(headers, given.len()),
        gives(given, carried),
    ensures
        sent_unasked(radio, headers, given, carried) == Ok::<
            crate::loopback::RadioView,
            TransportError,
        >(
            crate::loopback::RadioView {
                meter: radio.meter,
                to_device: radio.to_device + unasked_telegrams(radio.meter, headers, given),
            },
        ),
    decreases given.len(),
{
    assert(given[0].len() <= ANSWER_ROOM);
    let all = unasked_telegrams(radio.meter, headers, given);
    let next = radio.queued(all[0]);
    if given.len() > 1 {
        law_a_stream_is_sent_unasked_once(next, headers.skip(1), given.skip(1), carried);
        let rest = unasked_telegrams(radio.meter, headers.skip(1), given.skip(1));
        assert(next.to_device + rest =~= radio.to_device + all);
    } else {
        assert(next.to_device =~= radio.to_device + all);
    }
}

proof fn lemma_overheard(
    listening: crate::device::ListeningView,
    meter: Seq<u8>,
    header: Seq<u8>,
    given: Seq<u8>,
)
    requires
        meter.len() == 8,
        header.len() == SHORT_HEADER,
        given.len() <= ANSWER_ROOM,
    ensures
        crate::device::listening_after(
            listening,
            Some(crate::loopback::meter_telegram(meter, SND_NR, header, given).encoding()),
        ) == Ok::<crate::device::ListenedView, TransportError>(
            crate::device::ListenedView::Telegram(
                crate::device::HeardView {
                    device: listening.device,
                    bytes: listening.bytes,
                    from: meter,
                    records: given,
                },
            ),
        ),
{
    law_a_meters_telegram_arrives_as_it_was_given(meter, SND_NR, header, given);
}

proof fn lemma_unasked_telegrams_go_on(
    meter: Seq<u8>,
    headers: Seq<Seq<u8>>,
    given: Seq<Seq<u8>>,
    later: Seq<Seq<u8>>,
)
    requires
        headers.len() == given.len(),
        given.len() > 0,
    ensures
        ({
            let all = unasked_telegrams(meter, headers, given) + later;
            &&& all.len() > 0
            &&& all[0] == crate::loopback::meter_telegram(
                meter,
                SND_NR,
                headers[0],
                given[0],
            ).encoding()
            &&& all.skip(1) == unasked_telegrams(meter, headers.skip(1), given.skip(1)) + later
            &&& given.len() == 1 ==> all.skip(1) == later
        }),
{
    let all = unasked_telegrams(meter, headers, given) + later;
    assert(all.skip(1) =~= unasked_telegrams(meter, headers.skip(1), given.skip(1)) + later);
    if given.len() == 1 {
        assert(all.skip(1) =~= later);
    }
}

#[verifier::rlimit(50)]
proof fn lemma_listened(
    radio: crate::loopback::RadioView,
    listening: crate::device::ListeningView,
    headers: Seq<Seq<u8>>,
    given: Seq<Seq<u8>>,
    later: Seq<Seq<u8>>,
    carried: spec_fn(Seq<u8>) -> (Seq<u8>, bool),
)
    requires
        radio.meter.len() == 8,
        headers_for(headers, given.len()),
        gives(given, carried),
        radio.to_device == unasked_telegrams(radio.meter, headers, given) + later,
    ensures
        listened(radio, listening, carried) == (Received {
            radio: crate::loopback::RadioView { meter: radio.meter, to_device: later },
            arrived: Ok(
                Some(
                    crate::device::ArrivedView {
                        origin_uri: crate::device::unasked_origin_text(
                            listening.device.air,
                            radio.meter,
                        ),
                        bytes: listening.bytes + stream_of(given, carried),
                    },
                ),
            ),
        }),
    decreases given.len(),
{
    assert(headers[0].len() == SHORT_HEADER);
    assert(given[0].len() <= ANSWER_ROOM);
    lemma_overheard(listening, radio.meter, headers[0], given[0]);
    lemma_unasked_telegrams_go_on(radio.meter, headers, given, later);
    lemma_stream_goes_on(given, carried);
    let bytes = listening.bytes;
    let chunk = carried(given[0]).0;
    let rest = stream_of(given.skip(1), carried);
    assert((bytes + chunk) + rest =~= bytes + (chunk + rest));
    let after = radio.received().0;
    if given.len() > 1 {
        lemma_listened(
            after,
            crate::device::ListeningView {
                device: listening.device,
                bytes: bytes + chunk,
                from: Some(radio.meter),
            },
            headers.skip(1),
            given.skip(1),
            later,
            carried,
        );
    } else {
        assert((bytes + chunk) + rest =~= bytes + chunk);
    }
}

/// A device that listens takes one Stream, and leaves on the air what came after it.
pub proof fn law_listening_takes_one_stream(
    meter: Seq<u8>,
    device: crate::device::DeviceView,
    headers: Seq<Seq<u8>>,
    given: Seq<Seq<u8>>,
    later: Seq<Seq<u8>>,
    carried: spec_fn(Seq<u8>) -> (Seq<u8>, bool),
)
    requires
        meter.len() == 8,
        headers_for(headers, given.len()),
        gives(given, carried),
    ensures
        listened_stream(
            crate::loopback::RadioView {
                meter,
                to_device: unasked_telegrams(meter, headers, given) + later,
            },
            device,
            carried,
        ) == (Received {
            radio: crate::loopback::RadioView { meter, to_device: later },
            arrived: Ok(
                Some(
                    crate::device::ArrivedView {
                        origin_uri: crate::device::unasked_origin_text(device.air, meter),
                        bytes: stream_of(given, carried),
                    },
                ),
            ),
        }),
{
    let radio = crate::loopback::RadioView {
        meter,
        to_device: unasked_telegrams(meter, headers, given) + later,
    };
    lemma_listened(radio, crate::device::listening(device), headers, given, later, carried);
    assert(seq![] + stream_of(given, carried) =~= stream_of(given, carried));
}

/// A device that listens to a quiet air takes nothing.
pub proof fn law_a_quiet_air_gives_nothing(
    radio: crate::loopback::RadioView,
    device: crate::device::DeviceView,
    carried: spec_fn(Seq<u8>) -> (Seq<u8>, bool),
)
    requires
        quiet(radio),
    ensures
        listened_stream(radio, device, carried) == (Received { radio, arrived: Ok(None) }),
{
}

/// A Stream that the meter sends unasked arrives whole and once, marked as unasked: what waits
/// for the device is `SND_NR` frames of the meter; the device takes what each of them carried,
/// in order, under the meter's own address; and the next time it listens the air is quiet.
pub proof fn law_an_unasked_stream_arrives_whole(
    radio: crate::loopback::RadioView,
    device: crate::device::DeviceView,
    headers: Seq<Seq<u8>>,
    given: Seq<Seq<u8>>,
    carried: spec_fn(Seq<u8>) -> (Seq<u8>, bool),
)
    requires
        quiet(radio),
        headers_for(headers, given.len()),
        gives(given, carried),
    ensures
        sent_unasked(radio, headers, given, carried) matches Ok(sent) && {
            let heard = listened_stream(sent, device, carried);
            &&& sent.meter == radio.meter
            &&& sent.to_device.len() == given.len()
            &&& forall|i: int|
                0 <= i < given.len() ==> crate::frame::decoded(#[trigger] sent.to_device[i])
                    == Ok::<crate::frame::FrameView, TransportError>(
                    crate::loopback::meter_telegram(radio.meter, SND_NR, headers[i], given[i]),
                )
            &&& heard == (Received {
                radio,
                arrived: Ok(
                    Some(
                        crate::device::ArrivedView {
                            origin_uri: crate::device::unasked_origin_text(
                                device.air,
                                radio.meter,
                            ),
                            bytes: stream_of(given, carried),
                        },
                    ),
                ),
            })
            &&& listened_stream(heard.radio, device, carried) == (Received {
                radio,
                arrived: Ok(None),
            })
        },
{
    law_a_stream_is_sent_unasked_once(radio, headers, given, carried);
    let sent = sent_unasked(radio, headers, given, carried)->Ok_0;
    let telegrams = unasked_telegrams(radio.meter, headers, given);
    assert(sent.to_device =~= telegrams + radio.to_device);
    assert forall|i: int| 0 <= i < given.len() implies crate::frame::decoded(
        #[trigger] sent.to_device[i],
    ) == Ok::<crate::frame::FrameView, TransportError>(
        crate::loopback::meter_telegram(radio.meter, SND_NR, headers[i], given[i]),
    ) by {
        assert(sent.to_device[i] == telegrams[i]);
        assert(headers[i].len() == SHORT_HEADER && given[i].len() <= ANSWER_ROOM);
        crate::frame::law_decoding_undoes_encoding(
            crate::loopback::meter_telegram(radio.meter, SND_NR, headers[i], given[i]),
        );
    }
    law_listening_takes_one_stream(
        radio.meter,
        device,
        headers,
        given,
        radio.to_device,
        carried,
    );
    law_a_quiet_air_gives_nothing(radio, device, carried);
}

} // verus!
