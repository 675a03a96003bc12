//! The offering side of a service: it checks who asks, answers with its own header,
//! and then answers requests.
use crate::error;
use crate::error::{Error, ErrorKind, ErrorKindView};
use crate::header;
use crate::header::{HeaderFields, Row};
use crate::stream::ByteStream;
use crate::wire;
use vstd::prelude::*;

verus! {

/// What identifies a type of service.
#[derive(Debug)]
pub struct ServiceInfo {
    pub md5sum: String,
    pub msg_type: String,
}

/// What a client has come for.
#[derive(Debug, Clone, Copy, PartialEq, Eq, Structural)]
pub enum RequestType {
    /// Only to learn about the service.
    Probe,
    /// To have requests answered.
    Action,
}

/// Whether the header with which a client opens is acceptable, and what the client has
/// come for. The client has to name the service and itself; one that does not only
/// probe also has to know the digest of the service.
pub open spec fn request_outcome(input: Seq<u8>, service: Seq<char>, md5sum: Seq<char>) -> Result<
    RequestType,
    ErrorKindView,
> {
    match header::header_fields(input) {
        Err(kind) => Err(kind),
        Ok(fields) => match header::field_outcome(fields, "service"@, service) {
            Err(kind) => Err(kind),
            Ok(_) => if !fields.contains_key("callerid"@) {
                Err(ErrorKindView::HeaderMissingField("callerid"@))
            } else if fields.contains_key("probe"@) && fields["probe"@] == "1"@ {
                Ok(RequestType::Probe)
            } else {
                match header::field_outcome(fields, "md5sum"@, md5sum) {
                    Err(kind) => Err(kind),
                    Ok(_) => Ok(RequestType::Action),
                }
            },
        },
    }
}

/// Reads the header with which a client opens, and checks it.
pub fn read_request(stream: &mut ByteStream, pair: &ServiceInfo, service: &str) -> (result: Result<
    RequestType,
    Error,
>)
    ensures
        final(stream)@ == old(stream)@.skip(header::header_end(old(stream)@)),
        error::same_outcome(result, request_outcome(old(stream)@, service@, pair.md5sum@)),
{
    let fields = match header::decode(stream) {
        Ok(fields) => fields,
        Err(kind) => return Err(Error::new(kind)),
    };
    match header::match_field(&fields, "service", service) {
        Ok(()) => {},
        Err(kind) => return Err(Error::new(kind)),
    }
    if fields.get("callerid").is_none() {
        return Err(Error::new(ErrorKind::HeaderMissingField("callerid".to_owned())));
    }
    if header::match_field(&fields, "probe", "1").is_ok() {
        return Ok(RequestType::Probe);
    }
    match header::match_field(&fields, "md5sum", pair.md5sum.as_str()) {
        Ok(()) => Ok(RequestType::Action),
        Err(kind) => Err(Error::new(kind)),
    }
}

/// The rows of the header with which a service answers, in the order in which they are
/// sent.
pub open spec fn response_rows(pair: ServiceInfo, node_name: Seq<char>) -> Seq<Row> {
    seq![("callerid"@, node_name), ("md5sum"@, pair.md5sum@), ("type"@, pair.msg_type@)]
}

proof fn lemma_response_names()
    ensures
        "callerid"@.len() == 8,
        "md5sum"@.len() == 6,
        "type"@.len() == 4,
{
    reveal_strlit("callerid");
    reveal_strlit("md5sum");
    reveal_strlit("type");
}

/// Appends the header with which a service answers to what goes out.
pub fn write_response(stream: &mut Vec<u8>, pair: &ServiceInfo, node_name: &str)
    ensures
        final(stream)@ == old(stream)@ + header::header_bytes(response_rows(*pair, node_name@)),
{
    proof {
        lemma_response_names();
    }
    let mut fields = HeaderFields::new();
    fields.insert("callerid".to_owned(), node_name.to_owned());
    fields.insert("md5sum".to_owned(), pair.md5sum.clone());
    fields.insert("type".to_owned(), pair.msg_type.clone());
    assert(fields.rows() =~= response_rows(*pair, node_name@));
    header::encode(&fields, stream);
}

/// Exchanges headers with a client: reads the one with which it opens and, if that is
/// acceptable, appends the answer to what goes out. A client that is refused gets no
/// answer.
pub fn exchange_headers(
    incoming: &mut ByteStream,
    outgoing: &mut Vec<u8>,
    pair: &ServiceInfo,
    service: &str,
    node_name: &str,
) -> (result: Result<RequestType, Error>)
    ensures
        final(incoming)@ == old(incoming)@.skip(header::header_end(old(incoming)@)),
        error::same_outcome(result, request_outcome(old(incoming)@, service@, pair.md5sum@)),
        final(outgoing)@ == (if result is Ok {
            old(outgoing)@ + header::header_bytes(response_rows(*pair, node_name@))
        } else {
            old(outgoing)@
        }),
{
    match read_request(incoming, pair, service) {
        Ok(request) => {
            write_response(outgoing, pair, node_name);
            Ok(request)
        },
        Err(failure) => Err(failure),
    }
}

/// What has happened to a service that waits for clients.
pub enum ClientEvent {
    /// A client has connected.
    Connected,
    /// The exchange of headers with the client is over.
    Exchanged(Result<RequestType, Error>),
    /// No more clients will connect.
    Closed,
}

/// What waiting for clients asks for next.
pub enum ClientAction {
    ExchangeHeaders,
    /// Answer the requests of the client.
    Serve,
    Report(String),
    AwaitNext,
    Stop,
}

/// What follows each event while clients are awaited: one that wants requests answered
/// is served, one that probes is not, and one with which no headers could be exchanged
/// is reported, unless it has just closed the connection.
pub open spec fn client_step(service: Seq<char>, event: ClientEvent, action: ClientAction) -> bool {
    match event {
        ClientEvent::Connected => action is ExchangeHeaders,
        ClientEvent::Exchanged(Ok(RequestType::Action)) => action is Serve,
        ClientEvent::Exchanged(Ok(RequestType::Probe)) => action is AwaitNext,
        ClientEvent::Exchanged(Err(failure)) => if error::closed_connection(failure@) {
            action is AwaitNext
        } else {
            action matches ClientAction::Report(text) && text@
                == "Failed to exchange headers for service '"@ + service + "': "@
                + failure.kind@.text()
        },
        ClientEvent::Closed => action is Stop,
    }
}

/// Waits for the clients of a service, one event at a time.
pub fn listen_for_clients(service: &str, event: ClientEvent) -> (action: ClientAction)
    ensures
        client_step(service@, event, action),
{
    match event {
        ClientEvent::Connected => ClientAction::ExchangeHeaders,
        ClientEvent::Exchanged(Err(failure)) => {
            if failure.is_closed_connection() {
                ClientAction::AwaitNext
            } else {
                ClientAction::Report(
                    "Failed to exchange headers for service '".to_owned().concat(service).concat(
                        "': ",
                    ).concat(failure.kind.text().as_str()),
                )
            }
        },
        ClientEvent::Exchanged(Ok(RequestType::Action)) => ClientAction::Serve,
        ClientEvent::Exchanged(Ok(RequestType::Probe)) => ClientAction::AwaitNext,
        ClientEvent::Closed => ClientAction::Stop,
    }
}

/// Which events an action can bring about while clients are awaited.
pub open spec fn client_can_follow(action: ClientAction, event: ClientEvent) -> bool {
    match action {
        ClientAction::ExchangeHeaders => event is Exchanged,
        ClientAction::Serve | ClientAction::Report(_) | ClientAction::AwaitNext => event is Connected
            || event is Closed,
        ClientAction::Stop => false,
    }
}

/// What happens while clients are awaited, from the start: events, each with the action
/// that answers it, each event brought about by the action before it.
pub open spec fn is_listening(service: Seq<char>, run: Seq<(ClientEvent, ClientAction)>) -> bool {
    &&& run.len() > 0
    &&& run[0].0 is Connected || run[0].0 is Closed
    &&& forall|i: int| 0 <= i < run.len() ==> client_step(service, (#[trigger] run[i]).0, run[i].1)
    &&& forall|i: int, j: int|
        0 <= i && j == i + 1 && j < run.len() ==> client_can_follow(
            (#[trigger] run[i]).1,
            (#[trigger] run[j]).0,
        )
}

/// How the exchanges of headers with clients end in the course of a run, in order.
pub open spec fn exchange_results(run: Seq<(ClientEvent, ClientAction)>) -> Seq<
    Result<RequestType, Error>,
>
    decreases run.len(),
{
    if run.len() == 0 {
        seq![]
    } else {
        match run.last().0 {
            ClientEvent::Exchanged(result) => exchange_results(run.drop_last()).push(result),
            _ => exchange_results(run.drop_last()),
        }
    }
}

/// Of each client with which the exchange of headers has ended in the course of a run,
/// in order, whether its requests are answered.
pub open spec fn clients_served(run: Seq<(ClientEvent, ClientAction)>) -> Seq<bool>
    decreases run.len(),
{
    if run.len() == 0 {
        seq![]
    } else if run.last().0 is Exchanged {
        clients_served(run.drop_last()).push(run.last().1 is Serve)
    } else {
        clients_served(run.drop_last())
    }
}

/// What is reported in the course of a run, in order.
pub open spec fn client_reports(run: Seq<(ClientEvent, ClientAction)>) -> Seq<Seq<char>>
    decreases run.len(),
{
    if run.len() == 0 {
        seq![]
    } else {
        match run.last().1 {
            ClientAction::Report(text) => client_reports(run.drop_last()).push(text@),
            _ => client_reports(run.drop_last()),
        }
    }
}

/// The failures among some exchanges of headers for a service that are worth a report,
/// in words and in order.
pub open spec fn exchange_failures(
    service: Seq<char>,
    results: Seq<Result<RequestType, Error>>,
) -> Seq<Seq<char>>
    decreases results.len(),
{
    if results.len() == 0 {
        seq![]
    } else {
        match results.last() {
            Err(failure) if !error::closed_connection(failure@) => exchange_failures(
                service,
                results.drop_last(),
            ).push(
                "Failed to exchange headers for service '"@ + service + "': "@
                    + failure.kind@.text(),
            ),
            _ => exchange_failures(service, results.drop_last()),
        }
    }
}

/// A client has its requests answered exactly when it has come for that and its header
/// is acceptable, and each failure is reported, unless the client has just closed the
/// connection. Failures do not end it: that does only the end of the clients.
pub proof fn law_clients_served_in_turn(service: Seq<char>, run: Seq<(ClientEvent, ClientAction)>)
    requires
        is_listening(service, run),
    ensures
        clients_served(run) == Seq::new(
            exchange_results(run).len(),
            |i: int| exchange_results(run)[i] == Ok::<_, Error>(RequestType::Action),
        ),
        client_reports(run) == exchange_failures(service, exchange_results(run)),
        forall|i: int|
            0 <= i < run.len() && (#[trigger] run[i]).1 is Stop ==> run[i].0 is Closed && i
                == run.len() - 1,
    decreases run.len(),
{
    let earlier = run.drop_last();
    assert(client_step(service, run.last().0, run.last().1));
    assert forall|i: int| 0 <= i < run.len() && (#[trigger] run[i]).1 is Stop implies run[i].0
        is Closed && i == run.len() - 1 by {
        assert(client_step(service, run[i].0, run[i].1));
        if i < run.len() - 1 {
            assert(client_can_follow(run[i].1, run[i + 1].0));
        }
    }
    if run.len() > 1 {
        assert forall|i: int| 0 <= i < earlier.len() implies client_step(
            service,
            (#[trigger] earlier[i]).0,
            earlier[i].1,
        ) by {
            assert(client_step(service, run[i].0, run[i].1));
        }
        assert forall|i: int, j: int|
            0 <= i && j == i + 1 && j < earlier.len() implies client_can_follow(
            (#[trigger] earlier[i]).1,
            (#[trigger] earlier[j]).0,
        ) by {
            assert(client_can_follow(run[i].1, run[j].0));
        }
        law_clients_served_in_turn(service, earlier);
    } else {
        assert(clients_served(earlier) =~= seq![]);
        assert(exchange_results(earlier) =~= seq![]);
        assert(client_reports(earlier) =~= exchange_failures(service, exchange_results(earlier)));
    }
    if run.last().0 is Exchanged {
        assert(exchange_results(run).drop_last() =~= exchange_results(earlier));
    }
    assert(clients_served(run) =~= Seq::new(
        exchange_results(run).len(),
        |i: int| exchange_results(run)[i] == Ok::<_, Error>(RequestType::Action),
    ));
}

/// A client changes nothing for the others, however the exchange of headers with it
/// ends: a run remains one when its connection and the end of the exchange are left out.
pub proof fn law_clients_served_independently(
    service: Seq<char>,
    run: Seq<(ClientEvent, ClientAction)>,
    i: int,
)
    requires
        is_listening(service, run),
        0 <= i < run.len(),
        run[i].0 is Exchanged,
    ensures
        i > 0,
        run[i - 1].0 is Connected,
        run.len() > 2 ==> is_listening(service, run.take(i - 1) + run.skip(i + 1)),
{
    assert(client_can_follow(run[i - 1].1, run[i].0));
    assert(client_step(service, run[i - 1].0, run[i - 1].1));
    assert(client_step(service, run[i].0, run[i].1));
    let others = run.take(i - 1) + run.skip(i + 1);
    if run.len() > 2 {
        if i + 1 < run.len() {
            assert(client_can_follow(run[i].1, run[i + 1].0));
        }
        if i > 1 {
            assert(client_can_follow(run[i - 2].1, run[i - 1].0));
            assert(others[0] == run[0]);
        } else {
            assert(others[0] == run[2]);
        }
        assert forall|k: int| 0 <= k < others.len() implies client_step(
            service,
            (#[trigger] others[k]).0,
            others[k].1,
        ) by {
            let there = if k < i - 1 { k } else { k + 2 };
            assert(client_step(service, run[there].0, run[there].1));
        }
        assert forall|j: int, k: int|
            0 <= j && k == j + 1 && k < others.len() implies client_can_follow(
            (#[trigger] others[j]).1,
            (#[trigger] others[k]).0,
        ) by {
            if k < i - 1 {
                assert(client_can_follow(run[j].1, run[k].0));
            } else if j >= i - 1 {
                assert(client_can_follow(run[j + 2].1, run[k + 2].0));
            }
        }
    }
}

/// What is to be reported when the answering of a client's requests has ended: a
/// failure with its causes, unless the client has just closed the connection.
pub fn spawn_request_handler(outcome: &Result<(), Error>) -> (report: Option<String>)
    ensures
        match outcome {
            Ok(_) => report is None,
            Err(failure) => if error::closed_connection(failure@) {
                report is None
            } else {
                report matches Some(text) && text@ == error::chain_text(failure@)
            },
        },
{
    match outcome {
        Ok(()) => None,
        Err(failure) => {
            if failure.is_closed_connection() {
                None
            } else {
                Some(failure.report())
            }
        },
    }
}

/// A reply that tells a client that its request failed, and why.
pub open spec fn error_reply(message: Seq<char>) -> Seq<u8> {
    seq![0u8] + wire::str_bytes(message)
}

/// The message that a client gets when no request can be read.
pub open spec fn unreadable_request() -> Seq<char> {
    "Failed to parse passed arguments"@
}

fn write_error_reply(message: &str) -> (reply: Vec<u8>)
    ensures
        reply@ == error_reply(message@),
{
    let mut reply: Vec<u8> = Vec::new();
    wire::write_u8(&mut reply, 0);
    wire::encode_str(message, &mut reply);
    assert(reply@ =~= error_reply(message@));
    reply
}

/// What has happened while the requests of a client are answered. `Q` is what a request
/// is decoded to, `P` what the handler responds.
pub enum RequestEvent<Q, P> {
    Started,
    /// The length of the request has been read, or could not be, which is all the same.
    LengthRead,
    RequestRead(Q),
    RequestUnreadable,
    /// The handler has responded.
    Responded(P),
    /// The handler has refused the request, for this reason.
    Refused(String),
    SuccessWritten(P),
    /// The response has been encoded to these bytes.
    ResponseEncoded(Vec<u8>),
    ResponseNotEncoded(Error),
    ReplyWritten,
    FailureWritten,
    WriteFailed(Error),
}

/// What answering requests asks for next.
pub enum RequestAction<Q, P> {
    ReadLength,
    ReadRequest,
    CallHandler(Q),
    /// Write the bytes that announce a response, and keep the response.
    WriteSuccess(Vec<u8>, P),
    EncodeResponse(P),
    /// Write the response, or the reason why there is none.
    WriteReply(Vec<u8>),
    /// Write that no request can be read.
    WriteFailure(Vec<u8>),
    Finish(Result<(), Error>),
}

/// What follows each event while requests are answered. The success of a request is
/// announced before the response is encoded; once a request has been replied to, or
/// none could be read, the client is told that no request can be read, and that is the
/// end.
pub open spec fn request_step<Q, P>(event: RequestEvent<Q, P>, action: RequestAction<Q, P>) -> bool {
    match event {
        RequestEvent::Started => action is ReadLength,
        RequestEvent::LengthRead => action is ReadRequest,
        RequestEvent::RequestRead(request) => action == RequestAction::<Q, P>::CallHandler(request),
        RequestEvent::RequestUnreadable | RequestEvent::ReplyWritten => {
            action matches RequestAction::WriteFailure(bytes) && bytes@ == error_reply(
                unreadable_request(),
            )
        },
        RequestEvent::Responded(response) => action matches RequestAction::WriteSuccess(bytes, kept)
            && bytes@ == seq![1u8] && kept == response,
        RequestEvent::Refused(reason) => action matches RequestAction::WriteReply(bytes) && bytes@
            == error_reply(reason@),
        RequestEvent::SuccessWritten(response) => action == RequestAction::<Q, P>::EncodeResponse(
            response,
        ),
        RequestEvent::ResponseEncoded(body) => action matches RequestAction::WriteReply(bytes)
            && bytes@ == wire::block_bytes(body@),
        RequestEvent::FailureWritten => action == RequestAction::<Q, P>::Finish(Ok(())),
        RequestEvent::ResponseNotEncoded(failure) | RequestEvent::WriteFailed(failure) => {
            action == RequestAction::<Q, P>::Finish(Err(failure))
        },
    }
}

/// Answers the requests of a client, one event at a time.
pub fn handle_request_loop<Q, P>(event: RequestEvent<Q, P>) -> (action: RequestAction<Q, P>)
    ensures
        request_step(event, action),
{
    match event {
        RequestEvent::Started => RequestAction::ReadLength,
        RequestEvent::LengthRead => RequestAction::ReadRequest,
        RequestEvent::RequestRead(request) => RequestAction::CallHandler(request),
        RequestEvent::RequestUnreadable | RequestEvent::ReplyWritten => {
            RequestAction::WriteFailure(write_error_reply("Failed to parse passed arguments"))
        },
        RequestEvent::Responded(response) => {
            let mut flag: Vec<u8> = Vec::new();
            wire::write_u8(&mut flag, 1);
            assert(flag@ =~= seq![1u8]);
            RequestAction::WriteSuccess(flag, response)
        },
        RequestEvent::Refused(reason) => RequestAction::WriteReply(write_error_reply(reason.as_str())),
        RequestEvent::SuccessWritten(response) => RequestAction::EncodeResponse(response),
        RequestEvent::ResponseEncoded(body) => {
            let mut reply: Vec<u8> = Vec::new();
            wire::write_block(&mut reply, body.as_slice());
            assert(reply@ =~= wire::block_bytes(body@));
            RequestAction::WriteReply(reply)
        },
        RequestEvent::FailureWritten => RequestAction::Finish(Ok(())),
        RequestEvent::ResponseNotEncoded(failure) | RequestEvent::WriteFailed(failure) => {
            RequestAction::Finish(Err(failure))
        },
    }
}

/// Which events an action can bring about.
pub open spec fn can_follow<Q, P>(action: RequestAction<Q, P>, event: RequestEvent<Q, P>) -> bool {
    match action {
        RequestAction::ReadLength => event is LengthRead,
        RequestAction::ReadRequest => event is RequestRead || event is RequestUnreadable,
        RequestAction::CallHandler(_) => event is Responded || event is Refused,
        RequestAction::WriteSuccess(_, response) => event is WriteFailed || event
            == RequestEvent::<Q, P>::SuccessWritten(response),
        RequestAction::EncodeResponse(_) => event is ResponseEncoded || event is ResponseNotEncoded,
        RequestAction::WriteReply(_) => event is WriteFailed || event is ReplyWritten,
        RequestAction::WriteFailure(_) => event is WriteFailed || event is FailureWritten,
        RequestAction::Finish(_) => false,
    }
}

/// What happens on a connection from the start: events, each with the action that
/// answers it, each event brought about by the action before it.
pub open spec fn is_conversation<Q, P>(run: Seq<(RequestEvent<Q, P>, RequestAction<Q, P>)>) -> bool {
    &&& run.len() > 0
    &&& run[0].0 is Started
    &&& forall|i: int| 0 <= i < run.len() ==> request_step((#[trigger] run[i]).0, run[i].1)
    &&& forall|i: int, j: int|
        0 <= i && j == i + 1 && j < run.len() ==> can_follow(
            (#[trigger] run[i]).1,
            (#[trigger] run[j]).0,
        )
}

/// The bytes that an action writes.
pub open spec fn action_bytes<Q, P>(action: RequestAction<Q, P>) -> Seq<u8> {
    match action {
        RequestAction::WriteSuccess(bytes, _) => bytes@,
        RequestAction::WriteReply(bytes) => bytes@,
        RequestAction::WriteFailure(bytes) => bytes@,
        _ => seq![],
    }
}

/// The bytes that a client gets in the course of a conversation.
pub open spec fn client_receives<Q, P>(run: Seq<(RequestEvent<Q, P>, RequestAction<Q, P>)>) -> Seq<
    u8,
>
    decreases run.len(),
{
    if run.len() == 0 {
        seq![]
    } else {
        client_receives(run.drop_last()) + action_bytes(run.last().1)
    }
}

spec fn stage<Q, P>(event: RequestEvent<Q, P>) -> int {
    match event {
        RequestEvent::Started => 0,
        RequestEvent::LengthRead => 1,
        RequestEvent::RequestRead(_) => 2,
        RequestEvent::Responded(_) => 3,
        RequestEvent::SuccessWritten(_) => 4,
        RequestEvent::Refused(_) | RequestEvent::ResponseEncoded(_) => 5,
        RequestEvent::RequestUnreadable | RequestEvent::ReplyWritten => 6,
        RequestEvent::FailureWritten | RequestEvent::ResponseNotEncoded(_) | RequestEvent::WriteFailed(
            _,
        ) => 7,
    }
}

proof fn lemma_stage<Q, P>(run: Seq<(RequestEvent<Q, P>, RequestAction<Q, P>)>, i: int)
    requires
        is_conversation(run),
        0 <= i < run.len(),
    ensures
        i <= stage(run[i].0),
    decreases i,
{
    if i > 0 {
        lemma_stage(run, i - 1);
        assert(request_step(run[i - 1].0, run[i - 1].1));
        assert(can_follow(run[i - 1].1, run[i].0));
    }
}

/// Every conversation comes to an end: it has at most eight steps.
pub proof fn law_conversation_ends<Q, P>(run: Seq<(RequestEvent<Q, P>, RequestAction<Q, P>)>)
    requires
        is_conversation(run),
    ensures
        run.len() <= 8,
{
    lemma_stage(run, run.len() - 1);
}

pub(crate) proof fn lemma_next<Q, P>(run: Seq<(RequestEvent<Q, P>, RequestAction<Q, P>)>, i: int)
    requires
        is_conversation(run),
        0 <= i < run.len(),
    ensures
        request_step(run[i].0, run[i].1),
        i < run.len() - 1 ==> can_follow(run[i].1, run[i + 1].0),
        client_receives(run.take(i + 1)) == client_receives(run.take(i)) + action_bytes(run[i].1),
{
    assert(run.take(i + 1).drop_last() =~= run.take(i));
}

/// What a client gets in a conversation that ends well. A request that the handler
/// responds to brings the byte 1 and the response behind its length; one that the
/// handler refuses brings the byte 0 and the reason. Behind either, and alone when no
/// request could be read, come the byte 0 and the message that none can be read.
pub proof fn law_client_receives<Q, P>(run: Seq<(RequestEvent<Q, P>, RequestAction<Q, P>)>)
    requires
        is_conversation(run),
        run.last().1 == RequestAction::<Q, P>::Finish(Ok(())),
    ensures
        run.len() >= 4,
        match run[2].0 {
            RequestEvent::RequestUnreadable => client_receives(run) == error_reply(
                unreadable_request(),
            ),
            RequestEvent::RequestRead(_) => match run[3].0 {
                RequestEvent::Refused(reason) => client_receives(run) == error_reply(reason@)
                    + error_reply(unreadable_request()),
                RequestEvent::Responded(_) => {
                    &&& run.len() == 8
                    &&& run[5].0 matches RequestEvent::ResponseEncoded(body)
                    &&& client_receives(run) == seq![1u8] + wire::block_bytes(body@) + error_reply(
                        unreadable_request(),
                    )
                },
                _ => false,
            },
            _ => false,
        },
{
    lemma_next(run, 0);
    lemma_next(run, 1);
    lemma_next(run, 2);
    lemma_next(run, 3);
    assert(client_receives(run.take(3)) =~= action_bytes(run[2].1));
    if run[2].0 is RequestUnreadable {
        assert(run.take(4) =~= run);
        assert(client_receives(run) =~= error_reply(unreadable_request()));
    } else {
        lemma_next(run, 4);
        lemma_next(run, 5);
        if run[3].0 is Refused {
            assert(run.take(6) =~= run);
            assert(client_receives(run) =~= error_reply(run[3].0->Refused_0@) + error_reply(
                unreadable_request(),
            ));
        } else {
            lemma_next(run, 6);
            lemma_next(run, 7);
            assert(run.take(8) =~= run);
            assert(client_receives(run) =~= seq![1u8] + wire::block_bytes(
                run[5].0->ResponseEncoded_0@,
            ) + error_reply(unreadable_request()));
        }
    }
}

/// What a client gets when the handler responds and the response cannot be encoded: the
/// byte that announces a response, and nothing more.
pub proof fn law_response_announced_before_it_is_encoded<Q, P>(
    run: Seq<(RequestEvent<Q, P>, RequestAction<Q, P>)>,
)
    requires
        is_conversation(run),
        run.last().0 is ResponseNotEncoded,
    ensures
        client_receives(run) == seq![1u8],
        run.last().1 == RequestAction::<Q, P>::Finish(Err(run.last().0->ResponseNotEncoded_0)),
{
    lemma_next(run, 0);
    lemma_next(run, 1);
    lemma_next(run, 2);
    lemma_next(run, 3);
    if run[2].0 is RequestRead {
        lemma_next(run, 4);
        lemma_next(run, 5);
        if run[3].0 is Responded && run[5].0 is ResponseNotEncoded {
            assert(run.take(6) =~= run);
            assert(client_receives(run) =~= seq![1u8]);
        } else if run[3].0 is Responded {
            lemma_next(run, 6);
            lemma_next(run, 7);
        }
    }
}

/// Whatever digest the service has, a client that probes is told apart alike: the
/// digest plays no part in it.
pub proof fn law_probe_needs_no_digest(
    input: Seq<u8>,
    service: Seq<char>,
    md5sum: Seq<char>,
    other: Seq<char>,
)
    ensures
        request_outcome(input, service, md5sum) == Ok::<_, ErrorKindView>(RequestType::Probe)
            <==> request_outcome(input, service, other) == Ok::<_, ErrorKindView>(
            RequestType::Probe,
        ),
{
}

/// A client gets its requests answered only if it has named the service and itself,
/// does not probe, and knows the digest of the service; and then it does.
pub proof fn law_action_needs_digest(input: Seq<u8>, service: Seq<char>, md5sum: Seq<char>)
    ensures
        request_outcome(input, service, md5sum) == Ok::<_, ErrorKindView>(RequestType::Action)
            <==> (header::header_fields(input) matches Ok(fields) && {
            &&& fields.contains_key("service"@) && fields["service"@] == service
            &&& fields.contains_key("callerid"@)
            &&& !(fields.contains_key("probe"@) && fields["probe"@] == "1"@)
            &&& fields.contains_key("md5sum"@) && fields["md5sum"@] == md5sum
        }),
{
}

/// A client reads in the answer of a service the name of its node, its digest and its
/// type, and nothing else, as long as the length of the header can be written down.
pub proof fn law_response_read_of_write(pair: ServiceInfo, node_name: Seq<char>, rest: Seq<u8>)
    requires
        header::rows_bytes(response_rows(pair, node_name)).len() <= u32::MAX,
    ensures
        header::header_fields(header::header_bytes(response_rows(pair, node_name)) + rest) == Ok::<
            _,
            ErrorKindView,
        >(
            map!["callerid"@ => node_name, "md5sum"@ => pair.md5sum@, "type"@ => pair.msg_type@],
        ),
{
    let rows = response_rows(pair, node_name);
    reveal_strlit("callerid");
    reveal_strlit("md5sum");
    reveal_strlit("type");
    header::law_header_read_of_write(rows, rest);
    reveal_with_fuel(header::with_rows, 4);
    assert(header::with_rows(Map::empty(), rows)
        =~= map!["callerid"@ => node_name, "md5sum"@ => pair.md5sum@, "type"@ => pair.msg_type@]);
}

/// The decimal digit of a number below ten.
pub open spec fn digit(n: nat) -> char {
    seq!['0', '1', '2', '3', '4', '5', '6', '7', '8', '9'][n as int]
}

/// A number in decimal, without leading zeros.
pub open spec fn decimal(n: nat) -> Seq<char>
    decreases n,
{
    if n < 10 {
        seq![digit(n)]
    } else {
        decimal(n / 10).push(digit(n % 10))
    }
}

fn digit_text(n: u16) -> (text: &'static str)
    requires
        n < 10,
    ensures
        text@ == seq![digit(n as nat)],
{
    proof {
        reveal_strlit("0");
        reveal_strlit("1");
        reveal_strlit("2");
        reveal_strlit("3");
        reveal_strlit("4");
        reveal_strlit("5");
        reveal_strlit("6");
        reveal_strlit("7");
        reveal_strlit("8");
        reveal_strlit("9");
    }
    let text = match n {
        0 => "0",
        1 => "1",
        2 => "2",
        3 => "3",
        4 => "4",
        5 => "5",
        6 => "6",
        7 => "7",
        8 => "8",
        _ => "9",
    };
    assert(text@ =~= seq![digit(n as nat)]);
    text
}

fn decimal_text(n: u16) -> (text: String)
    ensures
        text@ == decimal(n as nat),
    decreases n,
{
    if n < 10 {
        digit_text(n).to_owned()
    } else {
        let text = decimal_text(n / 10).concat(digit_text(n % 10));
        assert(text@ =~= decimal(n as nat));
        text
    }
}

/// A service that a node offers: where it is to be reached, its type and its name.
#[derive(Debug)]
pub struct Service {
    pub api: String,
    pub msg_type: String,
    pub service: String,
}

impl Service {
    /// The service that listens on this port of this host.
    pub fn new(hostname: &str, port: u16, service: &str, pair: &ServiceInfo) -> (offered: Service)
        ensures
            offered.api@ == "rosrpc://"@ + hostname@ + ":"@ + decimal(port as nat),
            offered.msg_type@ == pair.msg_type@,
            offered.service@ == service@,
    {
        let api = "rosrpc://".to_owned().concat(hostname).concat(":").concat(
            decimal_text(port).as_str(),
        );
        Service::wrap_stream(service, pair, api.as_str())
    }

    /// The service that is to be reached under this address.
    pub fn wrap_stream(service: &str, pair: &ServiceInfo, api: &str) -> (offered: Service)
        ensures
            offered.api@ == api@,
            offered.msg_type@ == pair.msg_type@,
            offered.service@ == service@,
    {
        Service {
            api: api.to_owned(),
            msg_type: pair.msg_type.clone(),
            service: service.to_owned(),
        }
    }

    /// What the connections of a service are called in reports.
    pub fn connection_name(service: &str) -> (name: String)
        ensures
            name@ == "service '"@ + service@ + "'"@,
    {
        "service '".to_owned().concat(service).concat("'")
    }
}

} // verus!
