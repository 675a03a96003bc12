//! The subscribing side of a topic: which publishers are joined, which packages are
//! forwarded, and what reaches the callback.
use crate::channel;
use crate::channel::SocketAddress;
use crate::error::{Error, ErrorKind, ErrorKindView};
use crate::header;
use crate::laws::errors;
use crate::laws::transport;
use crate::stream::ByteStream;
use crate::subscriber;
use crate::subscriber::{
    DataAction, DataEvent, Delivery, HeaderAction, HeaderEvent, JoinAction, JoinEvent, MessageInfo,
    PackageAction, PackageEvent, PublisherAction, PublisherEvent, Subscriber, Topic,
};
use crossbeam::channel::Receiver;
use vstd::prelude::*;

verus! {

proof fn lemma_request(
    message: MessageInfo,
    caller_id: Seq<char>,
    topic: Seq<char>,
    bytes: Seq<u8>,
    rest: Seq<u8>,
)
    requires
        bytes == header::header_bytes(subscriber::request_rows(message, caller_id, topic)),
        bytes.len() <= u32::MAX,
    ensures
        header::header_fields(bytes + rest) == Ok::<_, ErrorKindView>(
            map![
                "message_definition"@ => message.msg_definition@,
                "callerid"@ => caller_id,
                "topic"@ => topic,
                "md5sum"@ => message.md5sum@,
                "type"@ => message.msg_type@,
            ],
        ),
        header::header_end(bytes + rest) == bytes.len(),
{
    let rows = subscriber::request_rows(message, caller_id, topic);
    subscriber::law_request_read_of_write(message, caller_id, topic, rest);
    reveal_strlit("message_definition");
    reveal_strlit("callerid");
    reveal_strlit("topic");
    reveal_strlit("md5sum");
    reveal_strlit("type");
    header::law_header_read_of_write(rows, rest);
}

/// The request for a topic comes after what was there, and says what the message is, who
/// asks and for which topic, and nothing else, as long as its length can be written down.
pub proof fn law_request_says(
    stream: &mut Vec<u8>,
    message: &MessageInfo,
    caller_id: &str,
    topic: &str,
    rest: Seq<u8>,
)
    requires
        call_ensures(subscriber::write_request, (stream, message, caller_id, topic), ()),
        final(stream)@.len() - old(stream)@.len() <= u32::MAX,
    ensures
        ({
            let (before, after) = (old(stream)@, final(stream)@);
            let written = after.skip(before.len() as int);
            &&& after.len() >= before.len()
            &&& after.take(before.len() as int) == before
            &&& header::header_fields(written + rest) == Ok::<_, ErrorKindView>(
                map![
                    "message_definition"@ => message.msg_definition@,
                    "callerid"@ => caller_id@,
                    "topic"@ => topic@,
                    "md5sum"@ => message.md5sum@,
                    "type"@ => message.msg_type@,
                ],
            )
            &&& header::header_end(written + rest) == written.len()
        }),
{
    let (before, after) = (old(stream)@, final(stream)@);
    let written = after.skip(before.len() as int);
    assert(after.take(before.len() as int) =~= before);
    assert(written =~= header::header_bytes(
        subscriber::request_rows(*message, caller_id@, topic@),
    ));
    lemma_request(*message, caller_id@, topic@, written, rest);
}

/// The header of a publisher is accepted exactly when it shows the digest and the type
/// of the message, whatever else it says.
pub proof fn law_publisher_is_accepted(
    stream: &mut ByteStream,
    message: &MessageInfo,
    result: Result<(), Error>,
)
    requires
        call_ensures(subscriber::read_response, (stream, message), result),
    ensures
        result is Ok <==> (header::header_fields(old(stream)@) matches Ok(fields) && {
            &&& fields.contains_key("md5sum"@) && fields["md5sum"@] == message.md5sum@
            &&& fields.contains_key("type"@) && fields["type"@] == message.msg_type@
        }),
{
}

/// A publisher is refused for the first thing that is wrong with its header: that it
/// cannot be read, another digest, or another type.
pub proof fn law_publisher_is_refused(
    stream: &mut ByteStream,
    message: &MessageInfo,
    failure: Error,
)
    requires
        call_ensures(subscriber::read_response, (stream, message), Err(failure)),
    ensures
        failure.causes@.len() == 0,
        match header::header_fields(old(stream)@) {
            Err(kind) => failure.kind@ == kind,
            Ok(fields) => failure.kind@ == (if !fields.contains_key("md5sum"@) {
                ErrorKindView::HeaderMissingField("md5sum"@)
            } else if fields["md5sum"@] != message.md5sum@ {
                ErrorKindView::HeaderMismatch {
                    field: "md5sum"@,
                    expected: message.md5sum@,
                    actual: fields["md5sum"@],
                }
            } else if !fields.contains_key("type"@) {
                ErrorKindView::HeaderMissingField("type"@)
            } else {
                ErrorKindView::HeaderMismatch {
                    field: "type"@,
                    expected: message.msg_type@,
                    actual: fields["type"@],
                }
            }),
        },
{
    assert(failure@.len() == 1);
    assert(failure@[0] == failure.kind@);
}

/// Of what a publisher sends only its header is read with it.
pub proof fn law_packages_stay_unread(
    stream: &mut ByteStream,
    message: &MessageInfo,
    result: Result<(), Error>,
)
    requires
        call_ensures(subscriber::read_response, (stream, message), result),
        old(stream)@.len() >= 4,
    ensures
        ({
            let input = old(stream)@;
            let length = input[0] + 0x100 * input[1] + 0x1_0000 * input[2] + 0x100_0000 * input[3];
            final(stream)@ == input.skip(
                if 4 + length <= input.len() {
                    4 + length
                } else {
                    input.len() as int
                },
            )
        }),
{
    transport::law_number_from_the_wire(old(stream)@.take(4));
}

/// In the exchange of headers with a publisher the request goes out first and its header
/// is awaited then. The exchange ends with the judgement on that header, or with the
/// failure of the connection.
pub proof fn law_headers_are_exchanged(
    message: &MessageInfo,
    caller_id: &str,
    topic: &str,
    event: HeaderEvent,
    action: HeaderAction,
)
    requires
        call_ensures(subscriber::exchange_headers, (message, caller_id, topic, event), action),
    ensures
        action is SendRequest <==> event is Started,
        action is ReceiveResponse <==> event is RequestSent,
        event matches HeaderEvent::Failed(failure) ==> action == HeaderAction::Finish(Err(failure)),
        action == HeaderAction::Finish(Ok(())) <==> (event matches HeaderEvent::ResponseReceived(
            bytes,
        ) && (header::header_fields(bytes@) matches Ok(fields) && {
            &&& fields.contains_key("md5sum"@) && fields["md5sum"@] == message.md5sum@
            &&& fields.contains_key("type"@) && fields["type"@] == message.msg_type@
        })),
{
}

/// In the exchange of headers with a publisher exactly the request goes out, and its
/// header is judged as when it is read alone.
pub proof fn law_headers_are_judged_alike(
    message: &MessageInfo,
    caller_id: &str,
    topic: &str,
    request: &mut Vec<u8>,
    sent: HeaderAction,
    bytes: Vec<u8>,
    stream: &mut ByteStream,
    judgement: Result<(), Error>,
    ended: HeaderAction,
)
    requires
        old(request)@.len() == 0,
        call_ensures(subscriber::write_request, (request, message, caller_id, topic), ()),
        call_ensures(
            subscriber::exchange_headers,
            (message, caller_id, topic, HeaderEvent::Started),
            sent,
        ),
        old(stream)@ == bytes@,
        call_ensures(subscriber::read_response, (stream, message), judgement),
        call_ensures(
            subscriber::exchange_headers,
            (message, caller_id, topic, HeaderEvent::ResponseReceived(bytes)),
            ended,
        ),
    ensures
        sent matches HeaderAction::SendRequest(written) && written@ == final(request)@,
        ended matches HeaderAction::Finish(result) && match (result, judgement) {
            (Ok(_), Ok(_)) => true,
            (Err(failure), Err(judged)) => failure@ == judged@,
            _ => false,
        },
{
    let written = header::header_bytes(subscriber::request_rows(*message, caller_id@, topic@));
    assert(final(request)@ =~= written);
}

/// A publisher is joined in one way: the connection is made, the request goes out, its
/// header is awaited. Its packages are forwarded exactly when that header shows the
/// digest and the type of the message, whatever else it says. A failure of the
/// connection ends it with that failure.
pub proof fn law_publisher_is_joined(
    message: &MessageInfo,
    caller_id: &str,
    topic: &str,
    event: JoinEvent,
    action: JoinAction,
)
    requires
        call_ensures(subscriber::join_connection, (message, caller_id, topic, event), action),
    ensures
        action is Connect <==> event is Started,
        action is SendRequest <==> event is Connected,
        action is ReceiveResponse <==> event is RequestSent,
        action is ForwardPackages <==> (event matches JoinEvent::ResponseReceived(bytes) && (
        header::header_fields(bytes@) matches Ok(fields) && {
            &&& fields.contains_key("md5sum"@) && fields["md5sum"@] == message.md5sum@
            &&& fields.contains_key("type"@) && fields["type"@] == message.msg_type@
        })),
        event matches JoinEvent::Failed(failure) ==> action == JoinAction::Fail(failure),
        action is Fail ==> event is Failed || event is ResponseReceived,
{
}

/// A publisher that is joined gets exactly the request for the topic, and its header is
/// judged as when it is read alone.
pub proof fn law_publisher_is_asked_and_judged(
    message: &MessageInfo,
    caller_id: &str,
    topic: &str,
    request: &mut Vec<u8>,
    sent: JoinAction,
    bytes: Vec<u8>,
    stream: &mut ByteStream,
    judgement: Result<(), Error>,
    ended: JoinAction,
)
    requires
        old(request)@.len() == 0,
        call_ensures(subscriber::write_request, (request, message, caller_id, topic), ()),
        call_ensures(
            subscriber::join_connection,
            (message, caller_id, topic, JoinEvent::Connected),
            sent,
        ),
        old(stream)@ == bytes@,
        call_ensures(subscriber::read_response, (stream, message), judgement),
        call_ensures(
            subscriber::join_connection,
            (message, caller_id, topic, JoinEvent::ResponseReceived(bytes)),
            ended,
        ),
    ensures
        sent matches JoinAction::SendRequest(written) && written@ == final(request)@,
        match judgement {
            Ok(_) => ended is ForwardPackages,
            Err(judged) => ended matches JoinAction::Fail(failure) && failure@ == judged@,
        },
{
    let written = header::header_bytes(subscriber::request_rows(*message, caller_id@, topic@));
    assert(final(request)@ =~= written);
}

/// A package is read exactly when as many bytes have come as its length announces. It is
/// returned with its length in front, and what comes behind it stays.
pub proof fn law_package_is_read(stream: &mut ByteStream, result: Result<Vec<u8>, ErrorKind>)
    requires
        call_ensures(subscriber::package_to_vector, (stream,), result),
    ensures
        ({
            let (input, rest) = (old(stream)@, final(stream)@);
            let n = 4 + input[0] + 0x100 * input[1] + 0x1_0000 * input[2] + 0x100_0000 * input[3];
            if input.len() >= 4 && n <= input.len() {
                result matches Ok(package) && package@ == input.take(n) && rest == input.skip(n)
            } else {
                result matches Err(ErrorKind::ConnectionClosed(words)) && words@
                    == "failed to fill whole buffer"@ && rest.len() == 0
            }
        }),
{
    if old(stream)@.len() >= 4 {
        transport::law_number_from_the_wire(old(stream)@.take(4));
    }
}

/// Each package that has come whole goes into the queue with its length in front, and
/// forwarding goes on whatever becomes of it there, unless the queue has been abandoned.
pub proof fn law_package_is_forwarded(event: PackageEvent, action: PackageAction)
    requires
        call_ensures(subscriber::forward_packages, (event,), action),
    ensures
        match event {
            PackageEvent::Received(bytes) => {
                let input = bytes@;
                let n = 4 + input[0] + 0x100 * input[1] + 0x1_0000 * input[2] + 0x100_0000
                    * input[3];
                if input.len() >= 4 && n <= input.len() {
                    action matches PackageAction::Deliver(package) && package@ == input.take(n)
                } else {
                    action is Stop
                }
            },
            PackageEvent::Failed => action is Stop,
            PackageEvent::Delivered(Delivery::Queued) => action is Receive,
            PackageEvent::Delivered(Delivery::Full) => action is Receive,
            PackageEvent::Delivered(Delivery::Disconnected) => action is Stop,
        },
{
    if event is Received && event->Received_0@.len() >= 4 {
        transport::law_number_from_the_wire(event->Received_0@.take(4));
    }
}

/// Each announced publisher is joined, whether or not others could be, until no more are
/// announced.
pub proof fn law_publishers_are_joined<A>(
    topic: &str,
    event: PublisherEvent<A>,
    action: PublisherAction<A>,
)
    requires
        call_ensures(subscriber::join_connections::<A>, (topic, event), action),
    ensures
        event matches PublisherEvent::Announced(address) ==> action == PublisherAction::Join(
            address,
        ),
        action is Join <==> event is Announced,
        action is Stop <==> event is Closed,
        action is AwaitNext <==> (event matches PublisherEvent::Joined(result) && result is Ok),
        action is Report <==> (event matches PublisherEvent::Joined(result) && result is Err),
{
}

/// The report of a publisher that could not be joined names the topic and holds the whole
/// report of the failure.
pub proof fn law_failed_join_is_reported<A>(
    topic: &str,
    failure: Error,
    words: String,
    kind: ErrorKind,
    topic_words: String,
    report: String,
)
    requires
        kind matches ErrorKind::TopicConnectionFail(name) && name@ == topic@,
        call_ensures(ErrorKind::text, (&kind,), topic_words),
        call_ensures(Error::report, (&failure,), words),
        call_ensures(
            subscriber::join_connections::<A>,
            (topic, PublisherEvent::Joined(Err(failure))),
            PublisherAction::Report(report),
        ),
    ensures
        topic_words@ == "Could not connect to '"@ + topic@ + "' topic"@,
        report@ == topic_words@ + "\nCaused by:"@ + words@,
{
    errors::lemma_cause_in_front(kind@, failure@);
}

/// Each package from the queue is decoded, the callback gets what it is decoded to, and
/// only the signal or the end of the queue ends it.
pub proof fn law_package_reaches_the_callback<T>(event: DataEvent<T>, action: DataAction<T>)
    requires
        call_ensures(subscriber::handle_data::<T>, (event,), action),
    ensures
        match event {
            DataEvent::Received(Some(buffer)) => action == DataAction::<T>::Decode(buffer),
            DataEvent::Received(None) => action is Stop,
            DataEvent::Ended => action is Stop,
            DataEvent::Decoded(Ok(value)) => action == DataAction::Call(value),
            DataEvent::Decoded(Err(reason)) => action matches DataAction::Report(text) && {
                &&& text@.len() == 26 + reason@.len()
                &&& text@.take(26) == "Failed to decode message: "@
                &&& text@.skip(26) == reason@
            },
        },
{
    reveal_strlit("Failed to decode message: ");
    match event {
        DataEvent::Decoded(Err(reason)) => {
            let text = (action->Report_0)@;
            assert(text.take(26) =~= "Failed to decode message: "@);
            assert(text.skip(26) =~= reason@);
        },
        _ => {},
    }
}

/// A subscription is to the topic that it was made for.
pub proof fn law_topic_is_subscribed(
    name: &str,
    msg_type: &str,
    made: (Subscriber, Receiver<SocketAddress>),
    topic: &Topic,
)
    requires
        call_ensures(Subscriber::new, (name, msg_type), made),
        call_ensures(Subscriber::get_topic, (&made.0,), topic),
    ensures
        topic.name@ == name@,
        topic.msg_type@ == msg_type@,
{
}

/// Announcing publishers does not change the topic.
pub proof fn law_topic_stays(
    subscription: &mut Subscriber,
    addresses: &[SocketAddress],
    result: Result<(), SocketAddress>,
    before: &Topic,
    after: &Topic,
)
    requires
        call_ensures(Subscriber::get_topic, (&*old(subscription),), before),
        call_ensures(Subscriber::connect_to, (subscription, addresses), result),
        call_ensures(Subscriber::get_topic, (&*final(subscription),), after),
    ensures
        *after == *before,
{
}

/// What is announced to a new subscription goes, in order and each once, into the channel
/// of which the receiving end has been handed out, all of it unless the channel refuses.
pub proof fn law_publishers_are_announced(
    name: &str,
    msg_type: &str,
    made: (Subscriber, Receiver<SocketAddress>),
    subscription: &mut Subscriber,
    addresses: &[SocketAddress],
    result: Result<(), SocketAddress>,
)
    requires
        call_ensures(Subscriber::new, (name, msg_type), made),
        *old(subscription) == made.0,
        call_ensures(Subscriber::connect_to, (subscription, addresses), result),
    ensures
        final(subscription).announces_into() == channel::channel_out_of(made.1),
        result is Ok <==> !final(subscription).was_refused(),
        result is Ok ==> final(subscription).announced() == addresses@,
        result matches Err(address) ==> exists|i: int|
            0 <= i < addresses@.len() && #[trigger] addresses@[i] == address && final(subscription).announced() == addresses@.take(i),
{
    assert(made.0.announced() + addresses@ =~= addresses@);
    if result is Err {
        let address = result->Err_0;
        let i = choose|i: int|
            0 <= i < addresses@.len() && #[trigger] addresses@[i] == address && final(subscription).announced() == made.0.announced() + addresses@.take(i);
        assert(addresses@[i] == address);
        assert(made.0.announced() + addresses@.take(i) =~= addresses@.take(i));
    }
}

/// What is announced comes behind what was announced before, in order and each once, all
/// of it or all before the one that is refused.
pub proof fn law_announcements_add_up(
    subscription: &mut Subscriber,
    addresses: &[SocketAddress],
    result: Result<(), SocketAddress>,
)
    requires
        call_ensures(Subscriber::connect_to, (subscription, addresses), result),
    ensures
        ({
            let (before, after) = (old(subscription).announced(), final(subscription).announced());
            &&& after.take(before.len() as int) == before
            &&& match result {
                Ok(_) => after.skip(before.len() as int) == addresses@,
                Err(address) => {
                    let n = after.len() - before.len();
                    &&& 0 <= n < addresses@.len()
                    &&& addresses@[n] == address
                    &&& after.skip(before.len() as int) == addresses@.take(n)
                },
            }
        }),
        final(subscription).announces_into() == old(subscription).announces_into(),
        old(subscription).was_refused() && addresses@.len() > 0 ==> result is Err,
        result is Err ==> final(subscription).was_refused(),
        result is Ok ==> final(subscription).was_refused() == old(subscription).was_refused(),
{
    let (before, after) = (old(subscription).announced(), final(subscription).announced());
    assert(after.take(before.len() as int) =~= before);
    match result {
        Ok(_) => {
            assert(after.skip(before.len() as int) =~= addresses@);
        },
        Err(address) => {
            let i = choose|i: int|
                0 <= i < addresses@.len() && #[trigger] addresses@[i] == address && after == before
                    + addresses@.take(i);
            assert(after.len() == before.len() + i);
            assert(after.skip(before.len() as int) =~= addresses@.take(i));
        },
    }
}

/// As long as the receiving end of its channel is there, what is announced to a new
/// subscription is announced, all of it.
pub proof fn law_announcing_while_received(
    name: &str,
    msg_type: &str,
    made: (Subscriber, Receiver<SocketAddress>),
    subscription: &mut Subscriber,
    addresses: &[SocketAddress],
    result: Result<(), SocketAddress>,
)
    requires
        call_ensures(Subscriber::new, (name, msg_type), made),
        *old(subscription) == made.0,
        call_ensures(Subscriber::connect_while_received, (subscription, addresses, &made.1), result),
    ensures
        result is Ok,
        final(subscription).announced() == addresses@,
        !final(subscription).was_refused(),
{
    assert(made.0.announced() + addresses@ =~= addresses@);
}

/// As long as the receiving end of its channel is there, and the channel has refused
/// nothing, what is announced comes behind what was announced before, all of it.
pub proof fn law_announcements_add_up_while_received(
    subscription: &mut Subscriber,
    addresses: &[SocketAddress],
    publishers: &Receiver<SocketAddress>,
    result: Result<(), SocketAddress>,
)
    requires
        old(subscription).announces_into() == channel::channel_out_of(*publishers),
        !old(subscription).was_refused(),
        call_ensures(
            Subscriber::connect_while_received,
            (subscription, addresses, publishers),
            result,
        ),
    ensures
        result is Ok,
        final(subscription).announced() == old(subscription).announced() + addresses@,
        final(subscription).announces_into() == channel::channel_out_of(*publishers),
        !final(subscription).was_refused(),
{
}

/// When a subscription ends, it is reported only that its queue had been closed before,
/// with the name of the topic.
pub proof fn law_queue_closed_before_is_reported(
    subscription: &Subscriber,
    already_closed: bool,
    topic: &Topic,
    report: Option<String>,
)
    requires
        call_ensures(Subscriber::get_topic, (subscription,), topic),
        call_ensures(Subscriber::drop_report, (subscription, already_closed), report),
    ensures
        report is Some <==> already_closed,
        report matches Some(text) ==> text@ == "Subscriber data stream to topic '"@ + topic.name@
            + "' has already been killed"@,
{
}

} // verus!
