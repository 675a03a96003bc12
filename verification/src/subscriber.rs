//! The subscribing side of a topic: it asks each publisher for the topic, checks what
//! the publisher answers, and takes the packages that follow apart.
use crate::channel;
use crate::channel::SocketAddress;
use crate::error;
use crate::error::{Error, ErrorKind, ErrorKindView};
use crate::header;
use crate::header::{HeaderFields, Row};
use crate::stream;
use crate::stream::ByteStream;
use crate::wire;
use crossbeam::channel::{Receiver, Sender};
use vstd::prelude::*;

verus! {

/// What identifies a type of message.
#[derive(Debug)]
pub struct MessageInfo {
    pub msg_definition: String,
    pub md5sum: String,
    pub msg_type: String,
}

/// The rows of a request for a topic, in the order in which they are sent.
pub open spec fn request_rows(
    message: MessageInfo,
    caller_id: Seq<char>,
    topic: Seq<char>,
) -> Seq<Row> {
    seq![
        ("message_definition"@, message.msg_definition@),
        ("callerid"@, caller_id),
        ("topic"@, topic),
        ("md5sum"@, message.md5sum@),
        ("type"@, message.msg_type@),
    ]
}

proof fn lemma_request_names()
    ensures
        "message_definition"@.len() == 18,
        "callerid"@.len() == 8,
        "topic"@.len() == 5,
        "md5sum"@.len() == 6,
        "type"@.len() == 4,
{
    reveal_strlit("message_definition");
    reveal_strlit("callerid");
    reveal_strlit("topic");
    reveal_strlit("md5sum");
    reveal_strlit("type");
}

/// Appends the request for a topic to what goes out.
pub fn write_request(stream: &mut Vec<u8>, message: &MessageInfo, caller_id: &str, topic: &str)
    ensures
        final(stream)@ == old(stream)@ + header::header_bytes(
            request_rows(*message, caller_id@, topic@),
        ),
{
    proof {
        lemma_request_names();
    }
    let mut fields = HeaderFields::new();
    fields.insert("message_definition".to_owned(), message.msg_definition.clone());
    fields.insert("callerid".to_owned(), caller_id.to_owned());
    fields.insert("topic".to_owned(), topic.to_owned());
    fields.insert("md5sum".to_owned(), message.md5sum.clone());
    fields.insert("type".to_owned(), message.msg_type.clone());
    assert(fields.rows() =~= request_rows(*message, caller_id@, topic@));
    header::encode(&fields, stream);
}

/// Whether the header that a publisher answers with is acceptable: its digest and its
/// type are those of the message, the digest being looked at first.
pub open spec fn response_outcome(input: Seq<u8>, message: MessageInfo) -> Result<(), ErrorKindView> {
    match header::header_fields(input) {
        Err(kind) => Err(kind),
        Ok(fields) => match header::field_outcome(fields, "md5sum"@, message.md5sum@) {
            Err(kind) => Err(kind),
            Ok(_) => header::field_outcome(fields, "type"@, message.msg_type@),
        },
    }
}

/// Reads the header that a publisher answers with, and checks it.
pub fn read_response(stream: &mut ByteStream, message: &MessageInfo) -> (result: Result<(), Error>)
    ensures
        final(stream)@ == old(stream)@.skip(header::header_end(old(stream)@)),
        error::same_outcome(result, response_outcome(old(stream)@, *message)),
{
    let fields = match header::decode(stream) {
        Ok(fields) => fields,
        Err(kind) => return Err(Error::new(kind)),
    };
    match header::match_field(&fields, "md5sum", message.md5sum.as_str()) {
        Ok(()) => {},
        Err(kind) => return Err(Error::new(kind)),
    }
    match header::match_field(&fields, "type", message.msg_type.as_str()) {
        Ok(()) => Ok(()),
        Err(kind) => Err(Error::new(kind)),
    }
}

/// Whether a whole package stands at the start of the input.
pub open spec fn has_package(input: Seq<u8>) -> bool {
    stream::block_len(input) matches Some(n) && n <= input.len()
}

/// Reads a package, which is returned with its length in front. When less than that
/// has come, all that has come is read and lost.
pub fn package_to_vector(stream: &mut ByteStream) -> (result: Result<Vec<u8>, ErrorKind>)
    ensures
        match result {
            Ok(package) => {
                let n = stream::block_len(old(stream)@)->0;
                &&& has_package(old(stream)@)
                &&& package@ == old(stream)@.take(n)
                &&& final(stream)@ == old(stream)@.skip(n)
            },
            Err(kind) => {
                &&& !has_package(old(stream)@)
                &&& kind@ == error::cut_short()
                &&& final(stream)@ == Seq::<u8>::empty()
            },
        },
{
    let ghost input = stream@;
    let available: usize = stream.len();
    let length: u32 = match stream.peek_u32() {
        Some(length) => length,
        None => {
            let _ = stream.read_exact(available);
            assert(stream@ =~= Seq::<u8>::empty());
            return Err(ErrorKind::cut_short());
        },
    };
    let num_bytes: usize = length as usize;
    if num_bytes > available - 4 {
        let _ = stream.read_exact(available);
        assert(stream@ =~= Seq::<u8>::empty());
        return Err(ErrorKind::cut_short());
    }
    let _ = stream.read_exact(4);
    let mut data = stream.read_exact(num_bytes);
    let mut out: Vec<u8> = Vec::with_capacity(4 + num_bytes);
    wire::write_u32(&mut out, length);
    out.append(&mut data);
    proof {
        wire::law_u32_write_of_read(input.take(4));
        assert(out@ =~= input.take(4 + length));
        assert(stream@ =~= input.skip(4 + length));
    }
    Ok(out)
}

/// What has happened in the exchange of headers with a publisher.
pub enum HeaderEvent {
    /// The connection stands.
    Started,
    /// The request has gone out.
    RequestSent,
    /// These bytes came in answer: a header, or what came before the connection broke.
    ResponseReceived(Vec<u8>),
    /// The connection failed.
    Failed(Error),
}

/// What the exchange of headers with a publisher asks for next.
pub enum HeaderAction {
    SendRequest(Vec<u8>),
    ReceiveResponse,
    Finish(Result<(), Error>),
}

/// What follows each event of the exchange: first the request goes out, then the
/// response is awaited, and its check decides.
pub open spec fn header_step(
    message: MessageInfo,
    caller_id: Seq<char>,
    topic: Seq<char>,
    event: HeaderEvent,
    action: HeaderAction,
) -> bool {
    match event {
        HeaderEvent::Started => action matches HeaderAction::SendRequest(bytes) && bytes@
            == header::header_bytes(request_rows(message, caller_id, topic)),
        HeaderEvent::RequestSent => action is ReceiveResponse,
        HeaderEvent::ResponseReceived(bytes) => action matches HeaderAction::Finish(result)
            && error::same_outcome(result, response_outcome(bytes@, message)),
        HeaderEvent::Failed(failure) => action matches HeaderAction::Finish(result) && result == Err::<
            (),
            Error,
        >(failure),
    }
}

/// Exchanges headers with a publisher, one event at a time.
pub fn exchange_headers(
    message: &MessageInfo,
    caller_id: &str,
    topic: &str,
    event: HeaderEvent,
) -> (action: HeaderAction)
    ensures
        header_step(*message, caller_id@, topic@, event, action),
{
    match event {
        HeaderEvent::Started => {
            let mut request: Vec<u8> = Vec::new();
            write_request(&mut request, message, caller_id, topic);
            assert(request@ =~= header::header_bytes(request_rows(*message, caller_id@, topic@)));
            HeaderAction::SendRequest(request)
        },
        HeaderEvent::RequestSent => HeaderAction::ReceiveResponse,
        HeaderEvent::ResponseReceived(bytes) => {
            let mut response = ByteStream::new(bytes);
            HeaderAction::Finish(read_response(&mut response, message))
        },
        HeaderEvent::Failed(failure) => HeaderAction::Finish(Err(failure)),
    }
}

/// What has happened while a publisher is joined.
pub enum JoinEvent {
    Started,
    Connected,
    RequestSent,
    /// These bytes came in answer: a header, or what came before the connection broke.
    ResponseReceived(Vec<u8>),
    /// The connection failed, or could not be made.
    Failed(Error),
}

/// What joining a publisher asks for next.
pub enum JoinAction {
    Connect,
    SendRequest(Vec<u8>),
    ReceiveResponse,
    /// The publisher is joined: from now on its packages are forwarded.
    ForwardPackages,
    Fail(Error),
}

/// What follows each event while a publisher is joined: the connection is made, the
/// headers are exchanged, and only then are packages forwarded.
pub open spec fn join_step(
    message: MessageInfo,
    caller_id: Seq<char>,
    topic: Seq<char>,
    event: JoinEvent,
    action: JoinAction,
) -> bool {
    match event {
        JoinEvent::Started => action is Connect,
        JoinEvent::Connected => action matches JoinAction::SendRequest(bytes) && bytes@
            == header::header_bytes(request_rows(message, caller_id, topic)),
        JoinEvent::RequestSent => action is ReceiveResponse,
        JoinEvent::ResponseReceived(bytes) => match response_outcome(bytes@, message) {
            Ok(_) => action is ForwardPackages,
            Err(kind) => action matches JoinAction::Fail(failure) && failure@ == seq![kind],
        },
        JoinEvent::Failed(failure) => action == JoinAction::Fail(failure),
    }
}

/// Joins a publisher, one event at a time.
pub fn join_connection(
    message: &MessageInfo,
    caller_id: &str,
    topic: &str,
    event: JoinEvent,
) -> (action: JoinAction)
    ensures
        join_step(*message, caller_id@, topic@, event, action),
{
    let exchange = match event {
        JoinEvent::Started => return JoinAction::Connect,
        JoinEvent::Connected => HeaderEvent::Started,
        JoinEvent::RequestSent => HeaderEvent::RequestSent,
        JoinEvent::ResponseReceived(bytes) => HeaderEvent::ResponseReceived(bytes),
        JoinEvent::Failed(failure) => HeaderEvent::Failed(failure),
    };
    match exchange_headers(message, caller_id, topic, exchange) {
        HeaderAction::SendRequest(bytes) => JoinAction::SendRequest(bytes),
        HeaderAction::ReceiveResponse => JoinAction::ReceiveResponse,
        HeaderAction::Finish(Ok(())) => JoinAction::ForwardPackages,
        HeaderAction::Finish(Err(failure)) => JoinAction::Fail(failure),
    }
}

/// What became of a package that was put into the queue of a subscriber.
#[derive(Debug, Clone, Copy, PartialEq, Eq, Structural)]
pub enum Delivery {
    Queued,
    /// The queue was full.
    Full,
    /// Nobody takes packages out of the queue any more.
    Disconnected,
}

/// What has happened on a connection whose packages are forwarded.
pub enum PackageEvent {
    /// These bytes came: a package, or what came before the connection broke.
    Received(Vec<u8>),
    /// The connection failed.
    Failed,
    Delivered(Delivery),
}

/// What forwarding packages asks for next.
pub enum PackageAction {
    Receive,
    Deliver(Vec<u8>),
    Stop,
}

/// What follows each event while packages are forwarded: each whole package goes into
/// the queue, and only a broken connection or an abandoned queue ends it.
pub open spec fn package_step(event: PackageEvent, action: PackageAction) -> bool {
    match event {
        PackageEvent::Received(bytes) => if has_package(bytes@) {
            action matches PackageAction::Deliver(package) && package@ == bytes@.take(
                stream::block_len(bytes@)->0,
            )
        } else {
            action is Stop
        },
        PackageEvent::Failed => action is Stop,
        PackageEvent::Delivered(delivery) => if delivery is Disconnected {
            action is Stop
        } else {
            action is Receive
        },
    }
}

/// Forwards the packages of a joined publisher, one event at a time.
pub fn forward_packages(event: PackageEvent) -> (action: PackageAction)
    ensures
        package_step(event, action),
{
    match event {
        PackageEvent::Received(bytes) => {
            let mut received = ByteStream::new(bytes);
            match package_to_vector(&mut received) {
                Ok(package) => PackageAction::Deliver(package),
                Err(_) => PackageAction::Stop,
            }
        },
        PackageEvent::Failed => PackageAction::Stop,
        PackageEvent::Delivered(Delivery::Disconnected) => PackageAction::Stop,
        PackageEvent::Delivered(_) => PackageAction::Receive,
    }
}

/// What has happened to a subscriber that joins publishers.
pub enum PublisherEvent<A> {
    /// A publisher is to be joined.
    Announced(A),
    /// The attempt to join a publisher is over.
    Joined(Result<(), Error>),
    /// No publisher will be announced any more.
    Closed,
}

/// What joining publishers asks for next.
pub enum PublisherAction<A> {
    Join(A),
    Report(String),
    AwaitNext,
    Stop,
}

/// What follows each event while publishers are joined: each is joined in its turn,
/// and one that cannot be joined is reported as a failure of the topic.
pub open spec fn publisher_step<A>(
    topic: Seq<char>,
    event: PublisherEvent<A>,
    action: PublisherAction<A>,
) -> bool {
    match event {
        PublisherEvent::Announced(address) => action == PublisherAction::Join(address),
        PublisherEvent::Joined(Ok(_)) => action is AwaitNext,
        PublisherEvent::Joined(Err(failure)) => action matches PublisherAction::Report(text)
            && text@ == error::chain_text(
            seq![ErrorKindView::TopicConnectionFail(topic)] + failure@,
        ),
        PublisherEvent::Closed => action is Stop,
    }
}

/// Joins publishers as they are announced, one event at a time.
pub fn join_connections<A>(topic: &str, event: PublisherEvent<A>) -> (action: PublisherAction<A>)
    ensures
        publisher_step(topic@, event, action),
{
    match event {
        PublisherEvent::Announced(address) => PublisherAction::Join(address),
        PublisherEvent::Joined(Ok(())) => PublisherAction::AwaitNext,
        PublisherEvent::Joined(Err(failure)) => {
            let chained = failure.chain_err(ErrorKind::TopicConnectionFail(topic.to_owned()));
            PublisherAction::Report(chained.report())
        },
        PublisherEvent::Closed => PublisherAction::Stop,
    }
}

/// What has happened to a subscriber that handles the packages in its queue.
pub enum DataEvent<T> {
    /// A package came out of the queue, or the signal that no more are wanted.
    Received(Option<Vec<u8>>),
    /// The queue is gone.
    Ended,
    /// The package has been decoded, or could not be, for this reason.
    Decoded(Result<T, String>),
}

/// What handling packages asks for next.
pub enum DataAction<T> {
    Decode(Vec<u8>),
    Call(T),
    Report(String),
    Stop,
}

/// What follows each event while packages are handled: the callback gets each message
/// that can be decoded, the others are reported, and the signal ends it.
pub open spec fn data_step<T>(event: DataEvent<T>, action: DataAction<T>) -> bool {
    match event {
        DataEvent::Received(Some(buffer)) => action == DataAction::<T>::Decode(buffer),
        DataEvent::Received(None) => action is Stop,
        DataEvent::Ended => action is Stop,
        DataEvent::Decoded(Ok(value)) => action == DataAction::Call(value),
        DataEvent::Decoded(Err(reason)) => action matches DataAction::Report(text) && text@
            == "Failed to decode message: "@ + reason@,
    }
}

/// Handles the packages in the queue of a subscriber, one event at a time.
pub fn handle_data<T>(event: DataEvent<T>) -> (action: DataAction<T>)
    ensures
        data_step(event, action),
{
    match event {
        DataEvent::Received(Some(buffer)) => DataAction::Decode(buffer),
        DataEvent::Received(None) => DataAction::Stop,
        DataEvent::Ended => DataAction::Stop,
        DataEvent::Decoded(Ok(value)) => DataAction::Call(value),
        DataEvent::Decoded(Err(reason)) => DataAction::Report(
            "Failed to decode message: ".to_owned().concat(reason.as_str()),
        ),
    }
}

/// A topic and the type of the messages in it.
#[derive(Debug)]
pub struct Topic {
    pub name: String,
    pub msg_type: String,
}

/// A node's subscription to a topic.
pub struct Subscriber {
    publishers_stream: Sender<SocketAddress>,
    pub topic: Topic,
}

/// What announcing publishers does to a subscription. They are announced in order, all
/// of them, or all up to one that is refused and comes back. An announcement fails only
/// by a refusal, and after a refusal nothing can be announced any more.
pub open spec fn announcement(
    before: Subscriber,
    addresses: Seq<SocketAddress>,
    result: Result<(), SocketAddress>,
    after: Subscriber,
) -> bool {
    &&& after.subscribed() == before.subscribed()
    &&& after.announces_into() == before.announces_into()
    &&& match result {
        Ok(_) => {
            &&& after.announced() == before.announced() + addresses
            &&& after.was_refused() == before.was_refused()
            &&& addresses.len() > 0 ==> !before.was_refused()
        },
        Err(address) => {
            &&& after.was_refused()
            &&& exists|i: int|
                0 <= i < addresses.len() && #[trigger] addresses[i] == address
                    && after.announced() == before.announced() + addresses.take(i) && (
                before.was_refused() ==> i == 0)
        },
    }
}

impl Subscriber {
    /// The topic that is subscribed to.
    pub closed spec fn subscribed(self) -> Topic {
        self.topic
    }

    /// The publishers that have been announced for joining, in order.
    pub closed spec fn announced(self) -> Seq<SocketAddress> {
        channel::accepted(self.publishers_stream)
    }

    /// The channel into which publishers are announced.
    pub closed spec fn announces_into(self) -> int {
        channel::channel_into(self.publishers_stream)
    }

    /// Whether an announcement has failed because nobody takes publishers out any more.
    pub closed spec fn was_refused(self) -> bool {
        channel::refused(self.publishers_stream)
    }

    /// A subscription for which no publisher has been announced, and the end of the
    /// channel from which the announced publishers are to be taken.
    pub fn new(topic: &str, msg_type: &str) -> (subscription: (Subscriber, Receiver<SocketAddress>))
        ensures
            subscription.0.subscribed().name@ == topic@,
            subscription.0.subscribed().msg_type@ == msg_type@,
            subscription.0.announces_into() == channel::channel_out_of(subscription.1),
            subscription.0.announced() == Seq::<SocketAddress>::empty(),
            !subscription.0.was_refused(),
    {
        let (publishers_stream, publishers) = channel::unbounded();
        let topic = Topic { name: topic.to_owned(), msg_type: msg_type.to_owned() };
        (Subscriber { publishers_stream, topic }, publishers)
    }

    /// Announces publishers, in order, with the end of the channel from which they are to
    /// be taken at hand or not.
    fn announce(
        &mut self,
        addresses: &[SocketAddress],
        at_hand: Option<&Receiver<SocketAddress>>,
    ) -> (result: Result<(), SocketAddress>)
        ensures
            announcement(*old(self), addresses@, result, *final(self)),
            at_hand matches Some(publishers) && channel::channel_out_of(*publishers) == old(
                self,
            ).announces_into() && !old(self).was_refused() ==> result is Ok,
    {
        let mut i: usize = 0;
        assert(self.announced() =~= old(self).announced() + addresses@.take(0));
        while i < addresses.len()
            invariant
                i <= addresses@.len(),
                self.topic == old(self).topic,
                self.announces_into() == old(self).announces_into(),
                self.was_refused() == old(self).was_refused(),
                i > 0 ==> !self.was_refused(),
                self.announced() == old(self).announced() + addresses@.take(i as int),
            decreases addresses@.len() - i,
        {
            match channel::send(&mut self.publishers_stream, addresses[i], at_hand) {
                Ok(()) => {},
                Err(address) => {
                    assert(addresses@[i as int] == address);
                    return Err(address);
                },
            }
            i = i + 1;
            assert(self.announced() =~= old(self).announced() + addresses@.take(i as int));
        }
        assert(addresses@.take(i as int) =~= addresses@);
        Ok(())
    }

    /// Announces publishers, in order. Nobody takes them out any more when one is
    /// returned; it and those behind it have then not been announced.
    pub fn connect_to(&mut self, addresses: &[SocketAddress]) -> (result: Result<(), SocketAddress>)
        ensures
            announcement(*old(self), addresses@, result, *final(self)),
    {
        self.announce(addresses, None)
    }

    /// Announces publishers like `connect_to`, while the end of the channel from which
    /// they are to be taken is at hand. As long as that end is there, no announcement
    /// fails.
    pub fn connect_while_received(
        &mut self,
        addresses: &[SocketAddress],
        publishers: &Receiver<SocketAddress>,
    ) -> (result: Result<(), SocketAddress>)
        ensures
            announcement(*old(self), addresses@, result, *final(self)),
            channel::channel_out_of(*publishers) == old(self).announces_into() && !old(
                self,
            ).was_refused() ==> result is Ok,
    {
        self.announce(addresses, Some(publishers))
    }

    /// The topic that is subscribed to.
    pub fn get_topic(&self) -> (topic: &Topic)
        ensures
            *topic == self.subscribed(),
    {
        &self.topic
    }

    /// What is to be reported when the subscription ends and its queue is told to
    /// close: only that the queue had been closed before.
    pub fn drop_report(&self, already_closed: bool) -> (report: Option<String>)
        ensures
            match report {
                Some(text) => already_closed && text@ == "Subscriber data stream to topic '"@
                    + self.subscribed().name@ + "' has already been killed"@,
                None => !already_closed,
            },
    {
        if already_closed {
            Some(
                "Subscriber data stream to topic '".to_owned().concat(
                    self.topic.name.as_str(),
                ).concat("' has already been killed"),
            )
        } else {
            None
        }
    }
}

/// Announcements made one after the other: each leads from a subscription to the next.
pub open spec fn are_announcements(
    subscriptions: Seq<Subscriber>,
    calls: Seq<(Seq<SocketAddress>, Result<(), SocketAddress>)>,
) -> bool {
    &&& subscriptions.len() == calls.len() + 1
    &&& forall|i: int, j: int|
        0 <= i < calls.len() && j == i + 1 ==> announcement(
            #[trigger] subscriptions[i],
            calls[i].0,
            calls[i].1,
            #[trigger] subscriptions[j],
        )
}

/// All that is to be announced by some calls, in order.
pub open spec fn requested(calls: Seq<(Seq<SocketAddress>, Result<(), SocketAddress>)>) -> Seq<
    SocketAddress,
>
    decreases calls.len(),
{
    if calls.len() == 0 {
        seq![]
    } else {
        requested(calls.drop_last()) + calls.last().0
    }
}

/// However many publishers have been announced since a subscription was made, what goes
/// into its channel is what was to be announced, in order, nothing left out and nothing
/// twice: all of it, and no call has failed, as long as the channel has not refused; and
/// what comes before the refusal once it has.
pub proof fn law_announcing_fails_only_once_refused(
    subscriptions: Seq<Subscriber>,
    calls: Seq<(Seq<SocketAddress>, Result<(), SocketAddress>)>,
)
    requires
        are_announcements(subscriptions, calls),
        subscriptions[0].announced() == Seq::<SocketAddress>::empty(),
        !subscriptions[0].was_refused(),
    ensures
        subscriptions.last().subscribed() == subscriptions[0].subscribed(),
        subscriptions.last().announces_into() == subscriptions[0].announces_into(),
        subscriptions.last().announced().is_prefix_of(requested(calls)),
        !subscriptions.last().was_refused() ==> subscriptions.last().announced() == requested(calls),
        subscriptions.last().was_refused() <==> exists|i: int|
            0 <= i < calls.len() && (#[trigger] calls[i]).1 is Err,
    decreases calls.len(),
{
    if calls.len() > 0 {
        let n = calls.len() - 1;
        let (earlier, first) = (calls.drop_last(), subscriptions.drop_last());
        assert forall|i: int, j: int| 0 <= i < earlier.len() && j == i + 1 implies announcement(
            #[trigger] first[i],
            earlier[i].0,
            earlier[i].1,
            #[trigger] first[j],
        ) by {
            assert(announcement(subscriptions[i], calls[i].0, calls[i].1, subscriptions[j]));
        }
        law_announcing_fails_only_once_refused(first, earlier);
        let (before, after) = (subscriptions[n], subscriptions[n + 1]);
        assert(announcement(before, calls[n].0, calls[n].1, after));
        assert(before == first.last());
        assert(calls[n] == calls.last());
        if exists|i: int| 0 <= i < earlier.len() && (#[trigger] earlier[i]).1 is Err {
            let i = choose|i: int| 0 <= i < earlier.len() && (#[trigger] earlier[i]).1 is Err;
            assert(calls[i].1 is Err);
        }
        if exists|i: int| 0 <= i < calls.len() && (#[trigger] calls[i]).1 is Err {
            let i = choose|i: int| 0 <= i < calls.len() && (#[trigger] calls[i]).1 is Err;
            assert(i < n ==> earlier[i].1 is Err);
        }
        if before.was_refused() {
            assert(after.announced() =~= before.announced());
        }
    }
}

/// A publisher reads in a request for a topic what the message is, who asks and for
/// what, and nothing else, as long as the length of the header can be written down.
pub proof fn law_request_read_of_write(
    message: MessageInfo,
    caller_id: Seq<char>,
    topic: Seq<char>,
    rest: Seq<u8>,
)
    requires
        header::rows_bytes(request_rows(message, caller_id, topic)).len() <= u32::MAX,
    ensures
        header::header_fields(header::header_bytes(request_rows(message, caller_id, topic)) + rest)
            == Ok::<_, ErrorKindView>(
            map![
                "message_definition"@ => message.msg_definition@,
                "callerid"@ => caller_id,
                "topic"@ => topic,
                "md5sum"@ => message.md5sum@,
                "type"@ => message.msg_type@,
            ],
        ),
{
    let rows = request_rows(message, caller_id, topic);
    reveal_strlit("message_definition");
    reveal_strlit("callerid");
    reveal_strlit("topic");
    reveal_strlit("md5sum");
    reveal_strlit("type");
    header::law_header_read_of_write(rows, rest);
    reveal_with_fuel(header::with_rows, 6);
    assert(header::with_rows(Map::empty(), rows)
        =~= map![
        "message_definition"@ => message.msg_definition@,
        "callerid"@ => caller_id,
        "topic"@ => topic,
        "md5sum"@ => message.md5sum@,
        "type"@ => message.msg_type@,
    ]);
}

/// Packages of a publisher are forwarded only once its header has come and has shown
/// the digest and the type of the message.
pub proof fn law_joined_only_if_header_matches(
    message: MessageInfo,
    caller_id: Seq<char>,
    topic: Seq<char>,
    event: JoinEvent,
    action: JoinAction,
)
    requires
        join_step(message, caller_id, topic, event, action),
        action is ForwardPackages,
    ensures
        event matches JoinEvent::ResponseReceived(bytes) && (header::header_fields(
            bytes@,
        ) matches Ok(fields) && {
            &&& fields.contains_key("md5sum"@) && fields["md5sum"@] == message.md5sum@
            &&& fields.contains_key("type"@) && fields["type"@] == message.msg_type@
        }),
{
}

/// Which events an action can bring about.
pub open spec fn can_follow(action: JoinAction, event: JoinEvent) -> bool {
    match action {
        JoinAction::Connect => event is Connected || event is Failed,
        JoinAction::SendRequest(_) => event is RequestSent || event is Failed,
        JoinAction::ReceiveResponse => event is ResponseReceived || event is Failed,
        JoinAction::ForwardPackages | JoinAction::Fail(_) => false,
    }
}

/// What happens while a publisher is joined, from the start: events, each with the
/// action that answers it, each event brought about by the action before it.
pub open spec fn is_joining(
    message: MessageInfo,
    caller_id: Seq<char>,
    topic: Seq<char>,
    run: Seq<(JoinEvent, JoinAction)>,
) -> bool {
    &&& run.len() > 0
    &&& run[0].0 is Started
    &&& forall|i: int|
        0 <= i < run.len() ==> join_step(message, caller_id, topic, (#[trigger] run[i]).0, run[i].1)
    &&& forall|i: int, j: int|
        0 <= i && j == i + 1 && j < run.len() ==> can_follow(
            (#[trigger] run[i]).1,
            (#[trigger] run[j]).0,
        )
}

/// Joining a publisher always comes to an end, and the publisher is joined in one way
/// only: the connection is made, the request is sent, and the response is awaited.
pub proof fn law_joined_in_order(
    message: MessageInfo,
    caller_id: Seq<char>,
    topic: Seq<char>,
    run: Seq<(JoinEvent, JoinAction)>,
)
    requires
        is_joining(message, caller_id, topic, run),
    ensures
        run.len() <= 4,
        run.last().1 is ForwardPackages ==> {
            &&& run.len() == 4
            &&& run[0].1 is Connect
            &&& run[1].1 matches JoinAction::SendRequest(bytes) && bytes@ == header::header_bytes(
                request_rows(message, caller_id, topic),
            )
            &&& run[2].1 is ReceiveResponse
            &&& run[3].0 is ResponseReceived
        },
{
    if run.len() > 1 {
        assert(can_follow(run[0].1, run[1].0));
    }
    if run.len() > 2 {
        assert(can_follow(run[1].1, run[2].0));
    }
    if run.len() > 3 {
        assert(can_follow(run[2].1, run[3].0));
    }
    if run.len() > 4 {
        assert(can_follow(run[3].1, run[4].0));
    }
}

/// A package is read back as it was written, length in front, and what comes after it
/// stays for the next.
pub proof fn law_package_read_of_write(body: Seq<u8>, rest: Seq<u8>)
    requires
        body.len() <= u32::MAX,
    ensures
        ({
            let package = wire::block_bytes(body);
            let input = package + rest;
            &&& has_package(input)
            &&& stream::block_len(input) == Some(package.len() as int)
            &&& input.take(package.len() as int) == package
            &&& input.skip(package.len() as int) == rest
        }),
{
    let package = wire::block_bytes(body);
    let input = package + rest;
    wire::law_u32_read_of_write(body.len() as u32);
    assert(input.take(4) =~= wire::le_bytes(body.len() as u32));
    assert(input.take(package.len() as int) =~= package);
    assert(input.skip(package.len() as int) =~= rest);
}

/// A package that lacks even one byte is no package.
pub proof fn law_package_cut_short(body: Seq<u8>, n: int)
    requires
        body.len() <= u32::MAX,
        0 <= n < wire::block_bytes(body).len(),
    ensures
        !has_package(wire::block_bytes(body).take(n)),
{
    let input = wire::block_bytes(body).take(n);
    wire::law_u32_read_of_write(body.len() as u32);
    if n >= 4 {
        assert(input.take(4) =~= wire::le_bytes(body.len() as u32));
    }
}

/// A package can be read exactly when no bytes are missing; and once its length is
/// there, it can be read as soon as the missing bytes have come.
pub proof fn law_missing_bytes_make_a_package(input: Seq<u8>, arrived: Seq<u8>)
    ensures
        has_package(input) <==> stream::missing_from_block(input) == 0,
        input.len() >= 4 && arrived.len() == stream::missing_from_block(input) ==> has_package(
            input + arrived,
        ),
{
    if input.len() >= 4 {
        assert((input + arrived).take(4) =~= input.take(4));
    }
}

/// The packages that can be read from the input, one after the other.
pub open spec fn packages(input: Seq<u8>) -> Seq<Seq<u8>>
    decreases input.len(),
{
    if has_package(input) {
        let n = stream::block_len(input)->0;
        seq![input.take(n)] + packages(input.skip(n))
    } else {
        seq![]
    }
}

/// Packages on the wire, one after the other.
pub open spec fn packages_bytes(bodies: Seq<Seq<u8>>) -> Seq<u8>
    decreases bodies.len(),
{
    if bodies.len() == 0 {
        seq![]
    } else {
        wire::block_bytes(bodies[0]) + packages_bytes(bodies.drop_first())
    }
}

/// Packages sent one after the other are read one after the other, each with its length
/// in front, and a last one that has not come whole is not read.
pub proof fn law_packages_read_of_write(bodies: Seq<Seq<u8>>, rest: Seq<u8>)
    requires
        forall|i: int| 0 <= i < bodies.len() ==> (#[trigger] bodies[i]).len() <= u32::MAX,
        !has_package(rest),
    ensures
        packages(packages_bytes(bodies) + rest) == Seq::new(
            bodies.len(),
            |i: int| wire::block_bytes(bodies[i]),
        ),
    decreases bodies.len(),
{
    let read = packages(packages_bytes(bodies) + rest);
    let sent = Seq::new(bodies.len(), |i: int| wire::block_bytes(bodies[i]));
    if bodies.len() == 0 {
        assert(packages_bytes(bodies) + rest =~= rest);
        assert(read =~= sent);
    } else {
        let others = bodies.drop_first();
        let tail = packages_bytes(others) + rest;
        assert(packages_bytes(bodies) + rest =~= wire::block_bytes(bodies[0]) + tail);
        law_package_read_of_write(bodies[0], tail);
        assert forall|i: int| 0 <= i < others.len() implies (#[trigger] others[i]).len()
            <= u32::MAX by {
            assert(others[i] == bodies[i + 1]);
        }
        law_packages_read_of_write(others, rest);
        assert(read =~= sent);
    }
}

/// Which events an action can bring about while publishers are joined.
pub open spec fn publisher_can_follow<A>(
    action: PublisherAction<A>,
    event: PublisherEvent<A>,
) -> bool {
    match action {
        PublisherAction::Join(_) => event is Joined,
        PublisherAction::Report(_) | PublisherAction::AwaitNext => event is Announced || event
            is Closed,
        PublisherAction::Stop => false,
    }
}

/// What happens while publishers are joined, from the start: events, each with the
/// action that answers it, each event brought about by the action before it.
pub open spec fn is_joining_publishers<A>(
    topic: Seq<char>,
    run: Seq<(PublisherEvent<A>, PublisherAction<A>)>,
) -> bool {
    &&& run.len() > 0
    &&& run[0].0 is Announced || run[0].0 is Closed
    &&& forall|i: int|
        0 <= i < run.len() ==> publisher_step(topic, (#[trigger] run[i]).0, run[i].1)
    &&& forall|i: int, j: int|
        0 <= i && j == i + 1 && j < run.len() ==> publisher_can_follow(
            (#[trigger] run[i]).1,
            (#[trigger] run[j]).0,
        )
}

/// The publishers that are announced in the course of a run, in order.
pub open spec fn publishers_announced<A>(run: Seq<(PublisherEvent<A>, PublisherAction<A>)>) -> Seq<A>
    decreases run.len(),
{
    if run.len() == 0 {
        seq![]
    } else {
        match run.last().0 {
            PublisherEvent::Announced(address) => publishers_announced(run.drop_last()).push(address),
            _ => publishers_announced(run.drop_last()),
        }
    }
}

/// The publishers that are to be joined in the course of a run, in order.
pub open spec fn publishers_tried<A>(run: Seq<(PublisherEvent<A>, PublisherAction<A>)>) -> Seq<A>
    decreases run.len(),
{
    if run.len() == 0 {
        seq![]
    } else {
        match run.last().1 {
            PublisherAction::Join(address) => publishers_tried(run.drop_last()).push(address),
            _ => publishers_tried(run.drop_last()),
        }
    }
}

/// How the attempts to join publishers end in the course of a run, in order.
pub open spec fn join_results<A>(run: Seq<(PublisherEvent<A>, PublisherAction<A>)>) -> Seq<
    Result<(), Error>,
>
    decreases run.len(),
{
    if run.len() == 0 {
        seq![]
    } else {
        match run.last().0 {
            PublisherEvent::Joined(result) => join_results(run.drop_last()).push(result),
            _ => join_results(run.drop_last()),
        }
    }
}

/// What is reported in the course of a run, in order.
pub open spec fn publisher_reports<A>(run: Seq<(PublisherEvent<A>, PublisherAction<A>)>) -> Seq<
    Seq<char>,
>
    decreases run.len(),
{
    if run.len() == 0 {
        seq![]
    } else {
        match run.last().1 {
            PublisherAction::Report(text) => publisher_reports(run.drop_last()).push(text@),
            _ => publisher_reports(run.drop_last()),
        }
    }
}

/// The failures among some attempts to join publishers of a topic, in words and in order.
pub open spec fn join_failures(topic: Seq<char>, results: Seq<Result<(), Error>>) -> Seq<Seq<char>>
    decreases results.len(),
{
    if results.len() == 0 {
        seq![]
    } else {
        match results.last() {
            Ok(_) => join_failures(topic, results.drop_last()),
            Err(failure) => join_failures(topic, results.drop_last()).push(
                error::chain_text(seq![ErrorKindView::TopicConnectionFail(topic)] + failure@),
            ),
        }
    }
}

/// Each announced publisher is tried once, in its turn, and each attempt that fails is
/// reported. Failures do not end it: that does only the end of the announcements.
pub proof fn law_publishers_joined_in_turn<A>(
    topic: Seq<char>,
    run: Seq<(PublisherEvent<A>, PublisherAction<A>)>,
)
    requires
        is_joining_publishers(topic, run),
    ensures
        publishers_tried(run) == publishers_announced(run),
        join_results(run).len() == publishers_tried(run).len() - (if run.last().1 is Join {
            1int
        } else {
            0int
        }),
        publisher_reports(run) == join_failures(topic, join_results(run)),
        forall|i: int|
            0 <= i < run.len() && (#[trigger] run[i]).1 is Stop ==> run[i].0 is Closed && i
                == run.len() - 1,
    decreases run.len(),
{
    let earlier = run.drop_last();
    assert(publisher_step(topic, run.last().0, run.last().1));
    assert forall|i: int| 0 <= i < run.len() && (#[trigger] run[i]).1 is Stop implies run[i].0
        is Closed && i == run.len() - 1 by {
        if i < run.len() - 1 {
            assert(publisher_can_follow(run[i].1, run[i + 1].0));
        }
    }
    if run.len() > 1 {
        assert forall|i: int| 0 <= i < earlier.len() implies publisher_step(
            topic,
            (#[trigger] earlier[i]).0,
            earlier[i].1,
        ) by {
            assert(publisher_step(topic, run[i].0, run[i].1));
        }
        assert forall|i: int, j: int|
            0 <= i && j == i + 1 && j < earlier.len() implies publisher_can_follow(
            (#[trigger] earlier[i]).1,
            (#[trigger] earlier[j]).0,
        ) by {
            assert(publisher_can_follow(run[i].1, run[j].0));
        }
        law_publishers_joined_in_turn(topic, earlier);
        assert(publisher_can_follow(run[run.len() - 2].1, run[run.len() - 1].0));
    } else {
        assert(publishers_tried(earlier) =~= publishers_announced(earlier));
        assert(publisher_reports(earlier) =~= join_failures(topic, join_results(earlier)));
    }
    if run.last().0 is Joined {
        assert(join_results(run).drop_last() =~= join_results(earlier));
    }
}

/// An attempt to join a publisher changes nothing for the others, however it ends: a run
/// remains one when the announcement of the publisher and the end of the attempt are
/// left out.
pub proof fn law_publishers_joined_independently<A>(
    topic: Seq<char>,
    run: Seq<(PublisherEvent<A>, PublisherAction<A>)>,
    i: int,
)
    requires
        is_joining_publishers(topic, run),
        0 <= i < run.len(),
        run[i].0 is Joined,
    ensures
        i > 0,
        run[i - 1].0 is Announced,
        run.len() > 2 ==> is_joining_publishers(topic, run.take(i - 1) + run.skip(i + 1)),
{
    assert(publisher_can_follow(run[i - 1].1, run[i].0));
    assert(publisher_step(topic, run[i - 1].0, run[i - 1].1));
    assert(publisher_step(topic, run[i].0, run[i].1));
    let others = run.take(i - 1) + run.skip(i + 1);
    if run.len() > 2 {
        if i + 1 < run.len() {
            assert(publisher_can_follow(run[i].1, run[i + 1].0));
        }
        if i > 1 {
            assert(publisher_can_follow(run[i - 2].1, run[i - 1].0));
            assert(others[0] == run[0]);
        } else {
            assert(others[0] == run[2]);
        }
        assert forall|k: int| 0 <= k < others.len() implies publisher_step(
            topic,
            (#[trigger] others[k]).0,
            others[k].1,
        ) by {
            let there = if k < i - 1 { k } else { k + 2 };
            assert(publisher_step(topic, run[there].0, run[there].1));
        }
        assert forall|j: int, k: int|
            0 <= j && k == j + 1 && k < others.len() implies publisher_can_follow(
            (#[trigger] others[j]).1,
            (#[trigger] others[k]).0,
        ) by {
            if k < i - 1 {
                assert(publisher_can_follow(run[j].1, run[k].0));
            } else if j >= i - 1 {
                assert(publisher_can_follow(run[j + 2].1, run[k + 2].0));
            }
        }
    }
}

/// Which events an action can bring about while packages are forwarded.
pub open spec fn package_can_follow(action: PackageAction, event: PackageEvent) -> bool {
    match action {
        PackageAction::Receive => event is Received || event is Failed,
        PackageAction::Deliver(_) => event is Delivered,
        PackageAction::Stop => false,
    }
}

/// What happens while packages are forwarded, from the start: events, each with the
/// action that answers it, each event brought about by the action before it. No more
/// than a package comes at a time.
pub open spec fn is_forwarding(run: Seq<(PackageEvent, PackageAction)>) -> bool {
    &&& run.len() > 0
    &&& run[0].0 is Received || run[0].0 is Failed
    &&& forall|i: int| 0 <= i < run.len() ==> package_step((#[trigger] run[i]).0, run[i].1)
    &&& forall|i: int, j: int|
        0 <= i && j == i + 1 && j < run.len() ==> package_can_follow(
            (#[trigger] run[i]).1,
            (#[trigger] run[j]).0,
        )
    &&& forall|i: int|
        0 <= i < run.len() ==> ((#[trigger] run[i]).0 matches PackageEvent::Received(bytes)
            ==> stream::block_len(bytes@) matches Some(n) ==> bytes@.len() <= n)
}

/// The bytes that come in the course of a run.
pub open spec fn bytes_received(run: Seq<(PackageEvent, PackageAction)>) -> Seq<u8>
    decreases run.len(),
{
    if run.len() == 0 {
        seq![]
    } else {
        match run.last().0 {
            PackageEvent::Received(bytes) => bytes_received(run.drop_last()) + bytes@,
            _ => bytes_received(run.drop_last()),
        }
    }
}

/// The packages that are put into the queue in the course of a run, in order.
pub open spec fn packages_delivered(run: Seq<(PackageEvent, PackageAction)>) -> Seq<Seq<u8>>
    decreases run.len(),
{
    if run.len() == 0 {
        seq![]
    } else {
        match run.last().1 {
            PackageAction::Deliver(package) => packages_delivered(run.drop_last()).push(package@),
            _ => packages_delivered(run.drop_last()),
        }
    }
}

spec fn only_packages(input: Seq<u8>) -> bool
    decreases input.len(),
{
    input.len() == 0 || (has_package(input) && only_packages(
        input.skip(stream::block_len(input)->0),
    ))
}

proof fn lemma_packages_append(input: Seq<u8>, arrived: Seq<u8>)
    requires
        only_packages(input),
    ensures
        packages(input + arrived) == packages(input) + packages(arrived),
        only_packages(arrived) ==> only_packages(input + arrived),
    decreases input.len(),
{
    if input.len() == 0 {
        assert(input + arrived =~= arrived);
        assert(packages(input + arrived) =~= packages(input) + packages(arrived));
    } else {
        let n = stream::block_len(input)->0;
        assert((input + arrived).take(4) =~= input.take(4));
        assert((input + arrived).take(n) =~= input.take(n));
        assert((input + arrived).skip(n) =~= input.skip(n) + arrived);
        lemma_packages_append(input.skip(n), arrived);
        assert(packages(input + arrived) =~= packages(input) + packages(arrived));
    }
}

proof fn lemma_forwarded(run: Seq<(PackageEvent, PackageAction)>)
    requires
        is_forwarding(run),
    ensures
        packages_delivered(run) == packages(bytes_received(run)),
        !(run.last().1 is Stop) ==> only_packages(bytes_received(run)),
    decreases run.len(),
{
    let earlier = run.drop_last();
    assert(package_step(run.last().0, run.last().1));
    if run.len() > 1 {
        assert forall|i: int| 0 <= i < earlier.len() implies package_step(
            (#[trigger] earlier[i]).0,
            earlier[i].1,
        ) by {
            assert(package_step(run[i].0, run[i].1));
        }
        assert forall|i: int, j: int|
            0 <= i && j == i + 1 && j < earlier.len() implies package_can_follow(
            (#[trigger] earlier[i]).1,
            (#[trigger] earlier[j]).0,
        ) by {
            assert(package_can_follow(run[i].1, run[j].0));
        }
        assert forall|i: int| 0 <= i < earlier.len() implies ((
        #[trigger] earlier[i]).0 matches PackageEvent::Received(bytes) ==> stream::block_len(
            bytes@,
        ) matches Some(n) ==> bytes@.len() <= n) by {
            assert(earlier[i] == run[i]);
        }
        lemma_forwarded(earlier);
        assert(package_can_follow(run[run.len() - 2].1, run[run.len() - 1].0));
    } else {
        assert(packages_delivered(earlier) =~= packages(bytes_received(earlier)));
    }
    match run.last().0 {
        PackageEvent::Received(bytes) => {
            assert(run[run.len() - 1].0 == run.last().0);
            lemma_packages_append(bytes_received(earlier), bytes@);
            if has_package(bytes@) {
                let n = stream::block_len(bytes@)->0;
                assert(only_packages(bytes@.skip(n)));
                assert(packages(bytes@.skip(n)) =~= seq![]);
                assert(packages(bytes@) =~= seq![bytes@.take(n)]);
            } else {
                assert(packages(bytes@) =~= seq![]);
            }
            assert(packages_delivered(run) =~= packages(bytes_received(run)));
        },
        _ => {},
    }
}

/// What goes into the queue is exactly the packages that the publisher sends, each with
/// its length in front and in order, whatever becomes of them there. It ends only with
/// a connection that breaks or falls short of a package, or with a queue that has been
/// abandoned.
pub proof fn law_packages_forwarded_in_order(run: Seq<(PackageEvent, PackageAction)>)
    requires
        is_forwarding(run),
    ensures
        packages_delivered(run) == packages(bytes_received(run)),
        forall|i: int|
            0 <= i < run.len() && (#[trigger] run[i]).1 is Stop ==> i == run.len() - 1 && (
            match run[i].0 {
                PackageEvent::Received(bytes) => !has_package(bytes@),
                PackageEvent::Failed => true,
                PackageEvent::Delivered(delivery) => delivery is Disconnected,
            }),
{
    lemma_forwarded(run);
    assert forall|i: int| 0 <= i < run.len() && (#[trigger] run[i]).1 is Stop implies i == run.len()
        - 1 && (match run[i].0 {
        PackageEvent::Received(bytes) => !has_package(bytes@),
        PackageEvent::Failed => true,
        PackageEvent::Delivered(delivery) => delivery is Disconnected,
    }) by {
        assert(package_step(run[i].0, run[i].1));
        if i < run.len() - 1 {
            assert(package_can_follow(run[i].1, run[i + 1].0));
        }
    }
}

/// Which events an action can bring about while packages are handled.
pub open spec fn data_can_follow<T>(action: DataAction<T>, event: DataEvent<T>) -> bool {
    match action {
        DataAction::Decode(_) => event is Decoded,
        DataAction::Call(_) | DataAction::Report(_) => event is Received || event is Ended,
        DataAction::Stop => false,
    }
}

/// What happens while packages are handled, from the start: events, each with the action
/// that answers it, each event brought about by the action before it.
pub open spec fn is_handling<T>(run: Seq<(DataEvent<T>, DataAction<T>)>) -> bool {
    &&& run.len() > 0
    &&& run[0].0 is Received || run[0].0 is Ended
    &&& forall|i: int| 0 <= i < run.len() ==> data_step((#[trigger] run[i]).0, run[i].1)
    &&& forall|i: int, j: int|
        0 <= i && j == i + 1 && j < run.len() ==> data_can_follow(
            (#[trigger] run[i]).1,
            (#[trigger] run[j]).0,
        )
}

/// The packages that come out of the queue in the course of a run, in order.
pub open spec fn packages_taken<T>(run: Seq<(DataEvent<T>, DataAction<T>)>) -> Seq<Vec<u8>>
    decreases run.len(),
{
    if run.len() == 0 {
        seq![]
    } else {
        match run.last().0 {
            DataEvent::Received(Some(buffer)) => packages_taken(run.drop_last()).push(buffer),
            _ => packages_taken(run.drop_last()),
        }
    }
}

/// The packages that are to be decoded in the course of a run, in order.
pub open spec fn packages_to_decode<T>(run: Seq<(DataEvent<T>, DataAction<T>)>) -> Seq<Vec<u8>>
    decreases run.len(),
{
    if run.len() == 0 {
        seq![]
    } else {
        match run.last().1 {
            DataAction::Decode(buffer) => packages_to_decode(run.drop_last()).push(buffer),
            _ => packages_to_decode(run.drop_last()),
        }
    }
}

/// What packages are decoded to in the course of a run, in order.
pub open spec fn decodings<T>(run: Seq<(DataEvent<T>, DataAction<T>)>) -> Seq<Result<T, String>>
    decreases run.len(),
{
    if run.len() == 0 {
        seq![]
    } else {
        match run.last().0 {
            DataEvent::Decoded(decoded) => decodings(run.drop_last()).push(decoded),
            _ => decodings(run.drop_last()),
        }
    }
}

/// What the callback gets in the course of a run, in order.
pub open spec fn messages_called<T>(run: Seq<(DataEvent<T>, DataAction<T>)>) -> Seq<T>
    decreases run.len(),
{
    if run.len() == 0 {
        seq![]
    } else {
        match run.last().1 {
            DataAction::Call(value) => messages_called(run.drop_last()).push(value),
            _ => messages_called(run.drop_last()),
        }
    }
}

/// What is reported in the course of a run, in order.
pub open spec fn data_reports<T>(run: Seq<(DataEvent<T>, DataAction<T>)>) -> Seq<Seq<char>>
    decreases run.len(),
{
    if run.len() == 0 {
        seq![]
    } else {
        match run.last().1 {
            DataAction::Report(text) => data_reports(run.drop_last()).push(text@),
            _ => data_reports(run.drop_last()),
        }
    }
}

/// The messages among what packages are decoded to, in order.
pub open spec fn decoded_messages<T>(results: Seq<Result<T, String>>) -> Seq<T>
    decreases results.len(),
{
    if results.len() == 0 {
        seq![]
    } else {
        match results.last() {
            Ok(value) => decoded_messages(results.drop_last()).push(value),
            Err(_) => decoded_messages(results.drop_last()),
        }
    }
}

/// The failures to decode a package, in words and in order.
pub open spec fn decoding_failures<T>(results: Seq<Result<T, String>>) -> Seq<Seq<char>>
    decreases results.len(),
{
    if results.len() == 0 {
        seq![]
    } else {
        match results.last() {
            Ok(_) => decoding_failures(results.drop_last()),
            Err(reason) => decoding_failures(results.drop_last()).push(
                "Failed to decode message: "@ + reason@,
            ),
        }
    }
}

/// Each package from the queue is decoded once, in its turn. The callback gets exactly
/// the messages that come of it, in order, and each failure is reported. Failures do not
/// end it: that does only the signal, or the end of the queue.
pub proof fn law_messages_called_in_order<T>(run: Seq<(DataEvent<T>, DataAction<T>)>)
    requires
        is_handling(run),
    ensures
        packages_to_decode(run) == packages_taken(run),
        decodings(run).len() == packages_taken(run).len() - (if run.last().1 is Decode {
            1int
        } else {
            0int
        }),
        messages_called(run) == decoded_messages(decodings(run)),
        data_reports(run) == decoding_failures(decodings(run)),
        forall|i: int|
            0 <= i < run.len() && (#[trigger] run[i]).1 is Stop ==> i == run.len() - 1 && (
            run[i].0 == DataEvent::<T>::Received(None) || run[i].0 is Ended),
    decreases run.len(),
{
    let earlier = run.drop_last();
    assert(data_step(run.last().0, run.last().1));
    assert forall|i: int| 0 <= i < run.len() && (#[trigger] run[i]).1 is Stop implies i == run.len()
        - 1 && (run[i].0 == DataEvent::<T>::Received(None) || run[i].0 is Ended) by {
        assert(data_step(run[i].0, run[i].1));
        if i < run.len() - 1 {
            assert(data_can_follow(run[i].1, run[i + 1].0));
        }
    }
    if run.len() > 1 {
        assert forall|i: int| 0 <= i < earlier.len() implies data_step(
            (#[trigger] earlier[i]).0,
            earlier[i].1,
        ) by {
            assert(data_step(run[i].0, run[i].1));
        }
        assert forall|i: int, j: int|
            0 <= i && j == i + 1 && j < earlier.len() implies data_can_follow(
            (#[trigger] earlier[i]).1,
            (#[trigger] earlier[j]).0,
        ) by {
            assert(data_can_follow(run[i].1, run[j].0));
        }
        law_messages_called_in_order(earlier);
        assert(data_can_follow(run[run.len() - 2].1, run[run.len() - 1].0));
    } else {
        assert(packages_to_decode(earlier) =~= packages_taken(earlier));
        assert(messages_called(earlier) =~= decoded_messages(decodings(earlier)));
        assert(data_reports(earlier) =~= decoding_failures(decodings(earlier)));
    }
    if run.last().0 is Decoded {
        assert(decodings(run).drop_last() =~= decodings(earlier));
    }
}

} // verus!
