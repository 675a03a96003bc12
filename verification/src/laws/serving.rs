//! The offering side of a service: who is accepted, what a client gets, and under which
//! address the service is to be reached.
use crate::error::{Error, ErrorKind, ErrorKindView};
use crate::header;
use crate::laws::transport;
use crate::service;
use crate::service::{
    ClientAction, ClientEvent, RequestAction, RequestEvent, RequestType, Service, ServiceInfo,
};
use crate::stream::ByteStream;
use crate::wire;
use vstd::prelude::*;
use vstd::utf8::*;

verus! {

/// A client is taken for one that only probes exactly when its header names the service
/// and the client and says so, whatever else it says, its digest included.
pub proof fn law_client_that_probes(
    stream: &mut ByteStream,
    pair: &ServiceInfo,
    service: &str,
    result: Result<RequestType, Error>,
)
    requires
        call_ensures(service::read_request, (stream, pair, service), result),
    ensures
        result == Ok::<_, Error>(RequestType::Probe) <==> (header::header_fields(
            old(stream)@,
        ) matches Ok(fields) && {
            &&& fields.contains_key("service"@) && fields["service"@] == service@
            &&& fields.contains_key("callerid"@)
            &&& fields.contains_key("probe"@) && fields["probe"@] == "1"@
        }),
{
}

/// A client is taken for one with requests exactly when its header names the service and
/// the client, does not say that it probes, and shows the digest of the service,
/// whatever else it says.
pub proof fn law_client_with_requests(
    stream: &mut ByteStream,
    pair: &ServiceInfo,
    service: &str,
    result: Result<RequestType, Error>,
)
    requires
        call_ensures(service::read_request, (stream, pair, service), result),
    ensures
        result == Ok::<_, Error>(RequestType::Action) <==> (header::header_fields(
            old(stream)@,
        ) matches Ok(fields) && {
            &&& fields.contains_key("service"@) && fields["service"@] == service@
            &&& fields.contains_key("callerid"@)
            &&& !(fields.contains_key("probe"@) && fields["probe"@] == "1"@)
            &&& fields.contains_key("md5sum"@) && fields["md5sum"@] == pair.md5sum@
        }),
{
}

/// A client is refused for the first thing that is wrong with its header: that it cannot
/// be read, another service, no name of its own, or another digest.
pub proof fn law_client_that_is_refused(
    stream: &mut ByteStream,
    pair: &ServiceInfo,
    service: &str,
    failure: Error,
)
    requires
        call_ensures(service::read_request, (stream, pair, service), Err(failure)),
    ensures
        failure.causes@.len() == 0,
        match header::header_fields(old(stream)@) {
            Err(kind) => failure.kind@ == kind,
            Ok(fields) => failure.kind@ == (if !fields.contains_key("service"@) {
                ErrorKindView::HeaderMissingField("service"@)
            } else if fields["service"@] != service@ {
                ErrorKindView::HeaderMismatch {
                    field: "service"@,
                    expected: service@,
                    actual: fields["service"@],
                }
            } else if !fields.contains_key("callerid"@) {
                ErrorKindView::HeaderMissingField("callerid"@)
            } else if !fields.contains_key("md5sum"@) {
                ErrorKindView::HeaderMissingField("md5sum"@)
            } else {
                ErrorKindView::HeaderMismatch {
                    field: "md5sum"@,
                    expected: pair.md5sum@,
                    actual: fields["md5sum"@],
                }
            }),
        },
{
    assert(failure@.len() == 1);
    assert(failure@[0] == failure.kind@);
}

/// Of what a client sends only its header is read.
pub proof fn law_requests_stay_unread(
    stream: &mut ByteStream,
    pair: &ServiceInfo,
    service: &str,
    result: Result<RequestType, Error>,
)
    requires
        call_ensures(service::read_request, (stream, pair, service), result),
        old(stream)@.len() >= 4,
    ensures
        ({
            let input = old(stream)@;
            let length = input[0] + 0x100 * input[1] + 0x1_0000 * input[2] + 0x100_0000 * input[3];
            final(stream)@ == input.skip(
                if 4 + length <= input.len() {
                    4 + length
                } else {
                    input.len() as int
                },
            )
        }),
{
    transport::law_number_from_the_wire(old(stream)@.take(4));
}

proof fn lemma_answer(pair: ServiceInfo, node_name: Seq<char>, bytes: Seq<u8>, rest: Seq<u8>)
    requires
        bytes == header::header_bytes(service::response_rows(pair, node_name)),
        bytes.len() <= u32::MAX,
    ensures
        header::header_fields(bytes + rest) == Ok::<_, ErrorKindView>(
            map!["callerid"@ => node_name, "md5sum"@ => pair.md5sum@, "type"@ => pair.msg_type@],
        ),
        header::header_end(bytes + rest) == bytes.len(),
{
    let rows = service::response_rows(pair, node_name);
    service::law_response_read_of_write(pair, node_name, rest);
    reveal_strlit("callerid");
    reveal_strlit("md5sum");
    reveal_strlit("type");
    header::law_header_read_of_write(rows, rest);
}

/// The answer of a service comes after what was there, and says which node it is, its
/// digest and its type, and nothing else, as long as its length can be written down.
pub proof fn law_answer_says(
    stream: &mut Vec<u8>,
    pair: &ServiceInfo,
    node_name: &str,
    rest: Seq<u8>,
)
    requires
        call_ensures(service::write_response, (stream, pair, node_name), ()),
        final(stream)@.len() - old(stream)@.len() <= u32::MAX,
    ensures
        ({
            let (before, after) = (old(stream)@, final(stream)@);
            let written = after.skip(before.len() as int);
            &&& after.len() >= before.len()
            &&& after.take(before.len() as int) == before
            &&& header::header_fields(written + rest) == Ok::<_, ErrorKindView>(
                map![
                    "callerid"@ => node_name@,
                    "md5sum"@ => pair.md5sum@,
                    "type"@ => pair.msg_type@,
                ],
            )
            &&& header::header_end(written + rest) == written.len()
        }),
{
    let (before, after) = (old(stream)@, final(stream)@);
    let written = after.skip(before.len() as int);
    assert(after.take(before.len() as int) =~= before);
    assert(written =~= header::header_bytes(service::response_rows(*pair, node_name@)));
    lemma_answer(*pair, node_name@, written, rest);
}

/// In an exchange of headers a client is judged as when its header is read alone. One
/// that is accepted gets the answer of the service, and one that is refused gets
/// nothing.
pub proof fn law_only_accepted_clients_are_answered(
    incoming: &mut ByteStream,
    outgoing: &mut Vec<u8>,
    alone: &mut ByteStream,
    answer: &mut Vec<u8>,
    pair: &ServiceInfo,
    service: &str,
    node_name: &str,
    result: Result<RequestType, Error>,
    judgement: Result<RequestType, Error>,
)
    requires
        old(alone)@ == old(incoming)@,
        old(answer)@ == old(outgoing)@,
        call_ensures(
            service::exchange_headers,
            (incoming, outgoing, pair, service, node_name),
            result,
        ),
        call_ensures(service::read_request, (alone, pair, service), judgement),
        call_ensures(service::write_response, (answer, pair, node_name), ()),
    ensures
        final(incoming)@ == final(alone)@,
        match (result, judgement) {
            (Ok(request), Ok(judged)) => request == judged && final(outgoing)@ == final(answer)@,
            (Err(failure), Err(judged)) => failure@ == judged@ && final(outgoing)@ == old(outgoing)@,
            _ => false,
        },
{
}

/// What becomes of a client hangs only on how the exchange of headers with it ended.
pub proof fn law_client_gets_its_due(service: &str, event: ClientEvent, action: ClientAction)
    requires
        call_ensures(service::listen_for_clients, (service, event), action),
    ensures
        action is ExchangeHeaders <==> event is Connected,
        action is Serve <==> event == ClientEvent::Exchanged(Ok(RequestType::Action)),
        action is Stop <==> event is Closed,
        action is AwaitNext <==> match event {
            ClientEvent::Exchanged(Ok(request)) => request is Probe,
            ClientEvent::Exchanged(Err(failure)) => failure.kind is ConnectionClosed,
            _ => false,
        },
        action is Report <==> (event matches ClientEvent::Exchanged(Err(failure)) && !(failure.kind
            is ConnectionClosed)),
{
}

/// The report of a failed exchange of headers names the service and the failure.
pub proof fn law_failed_exchange_is_reported(
    service: &str,
    failure: Error,
    words: String,
    text: String,
)
    requires
        call_ensures(ErrorKind::text, (&failure.kind,), words),
        call_ensures(
            service::listen_for_clients,
            (service, ClientEvent::Exchanged(Err(failure))),
            ClientAction::Report(text),
        ),
    ensures
        text@ == "Failed to exchange headers for service '"@ + service@ + "': "@ + words@,
{
}

/// When the answering of requests has ended, a failure is reported with its causes, and
/// only then, unless the client has closed the connection.
pub proof fn law_failed_answering_is_reported(
    outcome: &Result<(), Error>,
    report: Option<String>,
    words: String,
)
    requires
        call_ensures(service::spawn_request_handler, (outcome,), report),
        *outcome matches Err(failure) ==> call_ensures(Error::report, (&failure,), words),
    ensures
        report is Some <==> (*outcome matches Err(failure) && !(failure.kind is ConnectionClosed)),
        report matches Some(text) ==> text@ == words@,
{
}

/// A response goes out whole behind its length, however long it is.
pub proof fn law_response_is_sent<Q, P>(body: Vec<u8>, action: RequestAction<Q, P>)
    requires
        call_ensures(
            service::handle_request_loop::<Q, P>,
            (RequestEvent::ResponseEncoded(body),),
            action,
        ),
    ensures
        action matches RequestAction::WriteReply(bytes) && {
            &&& bytes@.len() == 4 + body@.len()
            &&& bytes@.skip(4) == body@
            &&& body@.len() <= u32::MAX ==> bytes@[0] + 0x100 * bytes@[1] + 0x1_0000 * bytes@[2]
                + 0x100_0000 * bytes@[3] == body@.len()
        },
{
    transport::law_block_on_the_wire(body@);
}

/// The reply to a request that the handler refuses is the byte 0 and the reason, its
/// UTF-8 bytes behind their number. No such reply begins like the reply to a request
/// that the handler responds to, which begins with the byte 1.
pub proof fn law_refusal_is_sent<Q, P>(
    reason: String,
    refusal: RequestAction<Q, P>,
    response: P,
    success: RequestAction<Q, P>,
)
    requires
        call_ensures(
            service::handle_request_loop::<Q, P>,
            (RequestEvent::Refused(reason),),
            refusal,
        ),
        call_ensures(
            service::handle_request_loop::<Q, P>,
            (RequestEvent::Responded(response),),
            success,
        ),
    ensures
        refusal matches RequestAction::WriteReply(bytes) && {
            let text = encode_utf8(reason@);
            &&& bytes@.len() == 5 + text.len()
            &&& bytes@[0] == 0
            &&& text.len() <= u32::MAX ==> bytes@[1] + 0x100 * bytes@[2] + 0x1_0000 * bytes@[3]
                + 0x100_0000 * bytes@[4] == text.len()
            &&& bytes@.skip(5) == text
        },
        success matches RequestAction::WriteSuccess(bytes, kept) && kept == response
            && bytes@.len() == 1 && bytes@[0] == 1,
{
    lemma_error_reply(reason@);
}

proof fn lemma_error_reply(message: Seq<char>)
    ensures
        ({
            let (bytes, text) = (service::error_reply(message), encode_utf8(message));
            &&& bytes.len() == 5 + text.len()
            &&& bytes[0] == 0
            &&& text.len() <= u32::MAX ==> bytes[1] + 0x100 * bytes[2] + 0x1_0000 * bytes[3]
                + 0x100_0000 * bytes[4] == text.len()
            &&& bytes.skip(5) == text
        }),
{
    let (bytes, text) = (service::error_reply(message), encode_utf8(message));
    transport::law_block_on_the_wire(text);
    let block = wire::block_bytes(text);
    assert(bytes[1] == block[0] && bytes[2] == block[1] && bytes[3] == block[2] && bytes[4]
        == block[3]);
    assert(bytes.skip(5) =~= block.skip(4));
}

/// After a reply, and when no request could be read, the client is told that none can
/// be read.
pub proof fn law_unreadable_request_is_told<Q, P>(
    event: RequestEvent<Q, P>,
    action: RequestAction<Q, P>,
)
    requires
        event is RequestUnreadable || event is ReplyWritten,
        call_ensures(service::handle_request_loop::<Q, P>, (event,), action),
    ensures
        action matches RequestAction::WriteFailure(bytes) && {
            &&& bytes@.len() == 37
            &&& bytes@[0] == 0
            &&& bytes@.subrange(1, 5) == seq![32u8, 0, 0, 0]
            &&& bytes@.skip(5) == encode_utf8("Failed to parse passed arguments"@)
        },
{
    let message = "Failed to parse passed arguments"@;
    reveal_strlit("Failed to parse passed arguments");
    lemma_error_reply(message);
    assert(is_ascii_chars(message));
    is_ascii_chars_encode_utf8(message);
    assert(message.len() == 32);
    let bytes = (action->WriteFailure_0)@;
    assert(bytes == service::error_reply(message));
    assert(bytes.subrange(1, 5) =~= seq![32u8, 0, 0, 0]);
}

/// A request that can be read reaches the handler, and what the handler responds is what
/// is encoded.
pub proof fn law_request_is_handed_on<Q, P>(event: RequestEvent<Q, P>, action: RequestAction<Q, P>)
    requires
        call_ensures(service::handle_request_loop::<Q, P>, (event,), action),
    ensures
        action is ReadLength <==> event is Started,
        action is ReadRequest <==> event is LengthRead,
        event matches RequestEvent::RequestRead(request) ==> action
            == RequestAction::<Q, P>::CallHandler(request),
        action matches RequestAction::CallHandler(request) ==> event
            == RequestEvent::<Q, P>::RequestRead(request),
        event matches RequestEvent::SuccessWritten(response) ==> action
            == RequestAction::<Q, P>::EncodeResponse(response),
        action matches RequestAction::EncodeResponse(response) ==> event
            == RequestEvent::<Q, P>::SuccessWritten(response),
        action is WriteSuccess <==> event is Responded,
        action is WriteReply <==> event is Refused || event is ResponseEncoded,
        action is WriteFailure <==> event is RequestUnreadable || event is ReplyWritten,
{
}

/// Answering is broken off only by a failed write or a response that cannot be encoded,
/// with that failure; otherwise it ends well, once the client has been told that no
/// request can be read.
pub proof fn law_answering_ends<Q, P>(event: RequestEvent<Q, P>, action: RequestAction<Q, P>)
    requires
        call_ensures(service::handle_request_loop::<Q, P>, (event,), action),
    ensures
        action == RequestAction::<Q, P>::Finish(Ok(())) <==> event is FailureWritten,
        event matches RequestEvent::WriteFailed(failure) ==> action
            == RequestAction::<Q, P>::Finish(Err(failure)),
        event matches RequestEvent::ResponseNotEncoded(failure) ==> action
            == RequestAction::<Q, P>::Finish(Err(failure)),
        action matches RequestAction::Finish(Err(failure)) ==> event
            == RequestEvent::<Q, P>::WriteFailed(failure) || event
            == RequestEvent::<Q, P>::ResponseNotEncoded(failure),
{
}

/// A conversation in which nothing fails ends well once it has ended. When the handler
/// has responded, the client has got the byte 1 and the whole response behind its length;
/// when the handler has refused, the byte 0 and the reason behind its length.
pub proof fn law_conversation_without_failure<Q, P>(
    run: Seq<(RequestEvent<Q, P>, RequestAction<Q, P>)>,
)
    requires
        service::is_conversation(run),
        run.last().1 is Finish,
        forall|i: int|
            0 <= i < run.len() ==> !((#[trigger] run[i]).0 is WriteFailed) && !(run[i].0
                is ResponseNotEncoded),
    ensures
        run.last().1 == RequestAction::<Q, P>::Finish(Ok(())),
        ({
            let received = service::client_receives(run);
            match (run[2].0, run[3].0) {
                (RequestEvent::RequestRead(_), RequestEvent::Responded(_)) => {
                    &&& run.len() == 8
                    &&& run[5].0 matches RequestEvent::ResponseEncoded(body)
                    &&& received.len() >= 5 + body@.len()
                    &&& received[0] == 1
                    &&& body@.len() <= u32::MAX ==> received[1] + 0x100 * received[2] + 0x1_0000
                        * received[3] + 0x100_0000 * received[4] == body@.len()
                    &&& received.subrange(5, 5 + body@.len() as int) == body@
                },
                (RequestEvent::RequestRead(_), RequestEvent::Refused(reason)) => {
                    let text = encode_utf8(reason@);
                    &&& run.len() == 6
                    &&& received.len() >= 5 + text.len()
                    &&& received[0] == 0
                    &&& text.len() <= u32::MAX ==> received[1] + 0x100 * received[2] + 0x1_0000
                        * received[3] + 0x100_0000 * received[4] == text.len()
                    &&& received.subrange(5, 5 + text.len() as int) == text
                },
                _ => run[2].0 is RequestUnreadable && run.len() == 4 && received[0] == 0,
            }
        }),
{
    let last = run.len() - 1;
    assert(service::request_step(run[last].0, run[last].1));
    assert(run[last] == run.last());
    service::law_client_receives(run);
    let received = service::client_receives(run);
    let end = service::error_reply(service::unreadable_request());
    lemma_error_reply(service::unreadable_request());
    service::lemma_next(run, 0);
    service::lemma_next(run, 1);
    service::lemma_next(run, 2);
    service::lemma_next(run, 3);
    match (run[2].0, run[3].0) {
        (RequestEvent::RequestRead(_), RequestEvent::Responded(_)) => {
            let body = (run[5].0->ResponseEncoded_0)@;
            transport::law_block_on_the_wire(body);
            let block = wire::block_bytes(body);
            assert(received == seq![1u8] + block + end);
            assert(received[1] == block[0] && received[2] == block[1] && received[3] == block[2]
                && received[4] == block[3]);
            assert(received.subrange(5, 5 + body.len() as int) =~= block.skip(4));
        },
        (RequestEvent::RequestRead(_), RequestEvent::Refused(reason)) => {
            let text = encode_utf8(reason@);
            let reply = service::error_reply(reason@);
            lemma_error_reply(reason@);
            service::lemma_next(run, 4);
            service::lemma_next(run, 5);
            assert(received == reply + end);
            assert(received.subrange(5, 5 + text.len() as int) =~= reply.skip(5));
        },
        _ => {},
    }
}

/// The number that decimal digits stand for.
pub open spec fn number_of_digits(text: Seq<char>) -> int
    decreases text.len(),
{
    if text.len() == 0 {
        0
    } else {
        10 * number_of_digits(text.drop_last()) + (text.last() as int - '0' as int)
    }
}

/// A number in decimal is read back as the number. It is all digits, and none of them
/// is a leading zero.
pub proof fn law_decimal_reads_back(n: nat)
    ensures
        ({
            let text = service::decimal(n);
            &&& text.len() > 0
            &&& forall|i: int|
                0 <= i < text.len() ==> '0' as int <= #[trigger] text[i] as int && text[i] as int
                    <= '9' as int
            &&& number_of_digits(text) == n
            &&& text[0] == '0' ==> text.len() == 1
        }),
    decreases n,
{
    let text = service::decimal(n);
    let units = n % 10;
    assert(service::digit(units) as int == '0' as int + units);
    if n < 10 {
        assert(text.drop_last() =~= seq![]);
        assert(number_of_digits(text.drop_last()) == 0);
    } else {
        law_decimal_reads_back(n / 10);
        let tens = service::decimal(n / 10);
        assert(text.drop_last() =~= tens);
        assert(text[0] == tens[0]);
        if tens[0] == '0' {
            assert(tens.drop_last() =~= seq![]);
            assert(number_of_digits(tens.drop_last()) == 0);
        }
    }
}

/// The address of a service is made of the host and of the port in decimal, and nothing
/// is lost of either.
pub proof fn law_service_address(
    hostname: &str,
    port: u16,
    service: &str,
    pair: &ServiceInfo,
    offered: Service,
)
    requires
        call_ensures(Service::new, (hostname, port, service, pair), offered),
    ensures
        ({
            let host_end = 9 + hostname@.len() as int;
            let digits = offered.api@.skip(host_end + 1);
            &&& offered.api@.len() > host_end + 1
            &&& offered.api@.take(9) == "rosrpc://"@
            &&& offered.api@.subrange(9, host_end) == hostname@
            &&& offered.api@[host_end] == ':'
            &&& number_of_digits(digits) == port
            &&& digits[0] == '0' ==> digits.len() == 1
            &&& forall|i: int|
                0 <= i < digits.len() ==> '0' as int <= #[trigger] digits[i] as int
                    && digits[i] as int <= '9' as int
        }),
        offered.service@ == service@,
        offered.msg_type@ == pair.msg_type@,
{
    reveal_strlit("rosrpc://");
    reveal_strlit(":");
    law_decimal_reads_back(port as nat);
    let api = offered.api@;
    let host_end = 9 + hostname@.len() as int;
    assert(api.take(9) =~= "rosrpc://"@);
    assert(api.subrange(9, host_end) =~= hostname@);
    assert(api.skip(host_end + 1) =~= service::decimal(port as nat));
}

/// Two services of a host have the same address only if they have the same port.
pub proof fn law_port_tells_services_apart(
    hostname: &str,
    port: u16,
    other_port: u16,
    service: &str,
    other_service: &str,
    pair: &ServiceInfo,
    other_pair: &ServiceInfo,
    offered: Service,
    other: Service,
)
    requires
        call_ensures(Service::new, (hostname, port, service, pair), offered),
        call_ensures(Service::new, (hostname, other_port, other_service, other_pair), other),
    ensures
        offered.api@ == other.api@ <==> port == other_port,
{
    law_service_address(hostname, port, service, pair, offered);
    law_service_address(hostname, other_port, other_service, other_pair, other);
}

/// A service that is given its address keeps it.
pub proof fn law_service_keeps_its_address(
    service: &str,
    pair: &ServiceInfo,
    api: &str,
    offered: Service,
)
    requires
        call_ensures(Service::wrap_stream, (service, pair, api), offered),
    ensures
        offered.api@ == api@,
        offered.service@ == service@,
        offered.msg_type@ == pair.msg_type@,
{
}

/// The name of the connections of a service holds the name of the service in quotes.
pub proof fn law_connection_name(service: &str, name: String)
    requires
        call_ensures(Service::connection_name, (service,), name),
    ensures
        name@.len() == service@.len() + 10,
        name@.take(9) == "service '"@,
        name@.subrange(9, 9 + service@.len() as int) == service@,
        name@.last() == '\'',
{
    reveal_strlit("service '");
    reveal_strlit("'");
    assert(name@.take(9) =~= "service '"@);
    assert(name@.subrange(9, 9 + service@.len() as int) =~= service@);
}

} // verus!
