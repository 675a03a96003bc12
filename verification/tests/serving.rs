use rosrust::error::{Error, ErrorKind};
use rosrust::header::{decode, encode, HeaderFields};
use rosrust::service::{
    exchange_headers, handle_request_loop, listen_for_clients, read_request, spawn_request_handler,
    write_response, ClientAction, ClientEvent, RequestAction, RequestEvent, RequestType, Service,
    ServiceInfo,
};
use rosrust::stream::ByteStream;

fn pair() -> ServiceInfo {
    ServiceInfo {
        md5sum: "6a2e34150c00229791cc89ff309fff21".to_string(),
        msg_type: "rospy_tutorials/AddTwoInts".to_string(),
    }
}

const DIGEST: (&str, &str) = ("md5sum", "6a2e34150c00229791cc89ff309fff21");
const NAME: (&str, &str) = ("service", "/add");
const CALLER: (&str, &str) = ("callerid", "/client");

fn client_header(rows: &[(&str, &str)]) -> Vec<u8> {
    let mut fields = HeaderFields::new();
    for (name, value) in rows {
        fields.insert(name.to_string(), value.to_string());
    }
    let mut out = Vec::new();
    encode(&fields, &mut out);
    out
}

fn request(rows: &[(&str, &str)]) -> Result<RequestType, Error> {
    read_request(&mut ByteStream::new(client_header(rows)), &pair(), "/add")
}

fn error_reply(message: &str) -> Vec<u8> {
    let mut bytes = vec![0];
    bytes.extend_from_slice(&(message.len() as u32).to_le_bytes());
    bytes.extend_from_slice(message.as_bytes());
    bytes
}

#[test]
fn request_with_digest_is_an_action() {
    assert_eq!(request(&[NAME, CALLER, DIGEST]).unwrap(), RequestType::Action);
    assert_eq!(request(&[NAME, CALLER, DIGEST, ("probe", "0")]).unwrap(), RequestType::Action);
}

#[test]
fn probe_needs_no_digest() {
    assert_eq!(request(&[NAME, CALLER, ("probe", "1")]).unwrap(), RequestType::Probe);
    assert_eq!(
        request(&[NAME, CALLER, ("probe", "1"), ("md5sum", "wrong")]).unwrap(),
        RequestType::Probe
    );
    assert_eq!(request(&[NAME, CALLER, ("probe", "1"), DIGEST]).unwrap(), RequestType::Probe);
}

#[test]
fn request_has_to_name_service_and_caller() {
    let kind = request(&[CALLER, DIGEST]).unwrap_err().kind;
    assert!(matches!(kind, ErrorKind::HeaderMissingField(field) if field == "service"));
    let kind = request(&[("service", "/sub"), DIGEST]).unwrap_err().kind;
    match kind {
        ErrorKind::HeaderMismatch { field, expected, actual } => {
            assert_eq!((field.as_str(), expected.as_str(), actual.as_str()), ("service", "/add", "/sub"));
        }
        other => panic!("unexpected {:?}", other),
    }
    let kind = request(&[NAME, ("probe", "1")]).unwrap_err().kind;
    assert!(matches!(kind, ErrorKind::HeaderMissingField(field) if field == "callerid"));
}

#[test]
fn action_needs_the_digest() {
    let kind = request(&[NAME, CALLER]).unwrap_err().kind;
    assert!(matches!(kind, ErrorKind::HeaderMissingField(field) if field == "md5sum"));
    let kind = request(&[NAME, CALLER, ("probe", "0"), ("md5sum", "*")]).unwrap_err().kind;
    assert!(matches!(kind, ErrorKind::HeaderMismatch { field, .. } if field == "md5sum"));
}

#[test]
fn request_that_does_not_come_is_a_closed_connection() {
    let error = read_request(&mut ByteStream::new(vec![]), &pair(), "/add").unwrap_err();
    assert!(error.is_closed_connection());
    assert_eq!(error.report(), "failed to fill whole buffer");
}

#[test]
fn response_holds_the_three_fields() {
    let mut out = Vec::new();
    write_response(&mut out, &pair(), "/server");
    assert_eq!(
        out,
        client_header(&[("callerid", "/server"), DIGEST, ("type", "rospy_tutorials/AddTwoInts")])
    );
    let fields = decode(&mut ByteStream::new(out)).unwrap_or_else(|_| panic!("response was refused"));
    assert_eq!(fields.get("callerid").unwrap(), "/server");
    assert_eq!(fields.get("md5sum").unwrap(), DIGEST.1);
    assert!(fields.get("service").is_none());
}

#[test]
fn accepted_client_is_answered_and_refused_one_is_not() {
    let mut response = Vec::new();
    write_response(&mut response, &pair(), "/server");

    let mut bytes = client_header(&[NAME, CALLER, DIGEST]);
    bytes.push(17);
    let mut incoming = ByteStream::new(bytes);
    let mut outgoing = Vec::new();
    let result = exchange_headers(&mut incoming, &mut outgoing, &pair(), "/add", "/server");
    assert_eq!(result.unwrap(), RequestType::Action);
    assert_eq!(outgoing, response);
    assert_eq!(incoming.unread(), [17]);

    let mut incoming = ByteStream::new(client_header(&[NAME, CALLER, ("probe", "1")]));
    let mut outgoing = Vec::new();
    let result = exchange_headers(&mut incoming, &mut outgoing, &pair(), "/add", "/server");
    assert_eq!(result.unwrap(), RequestType::Probe);
    assert_eq!(outgoing, response);

    let mut incoming = ByteStream::new(client_header(&[NAME, CALLER]));
    let mut outgoing = Vec::new();
    let result = exchange_headers(&mut incoming, &mut outgoing, &pair(), "/add", "/server");
    assert!(result.is_err());
    assert!(outgoing.is_empty());
}

#[test]
fn only_a_client_with_requests_is_served() {
    let step = |event| listen_for_clients("/add", event);
    assert!(matches!(step(ClientEvent::Connected), ClientAction::ExchangeHeaders));
    assert!(matches!(step(ClientEvent::Exchanged(Ok(RequestType::Action))), ClientAction::Serve));
    assert!(matches!(step(ClientEvent::Exchanged(Ok(RequestType::Probe))), ClientAction::AwaitNext));
    assert!(matches!(step(ClientEvent::Closed), ClientAction::Stop));
}

#[test]
fn failed_exchange_is_reported_unless_the_client_left() {
    let closed = Error::new(ErrorKind::ConnectionClosed("gone".to_string()));
    let action = listen_for_clients("/add", ClientEvent::Exchanged(Err(closed)));
    assert!(matches!(action, ClientAction::AwaitNext));
    let missing = Error::new(ErrorKind::HeaderMissingField("callerid".to_string()));
    match listen_for_clients("/add", ClientEvent::Exchanged(Err(missing))) {
        ClientAction::Report(text) => assert_eq!(
            text,
            "Failed to exchange headers for service '/add': Data field 'callerid' within header missing"
        ),
        _ => panic!("a failure is reported"),
    }
}

/// Lets clients connect one after the other, and returns which of them are served and
/// what is reported.
fn listen(clients: Vec<Result<RequestType, Error>>) -> (Vec<usize>, Vec<String>) {
    let (mut served, mut reports) = (Vec::new(), Vec::new());
    let mut clients = clients.into_iter().enumerate();
    loop {
        let (client, mut event) = match clients.next() {
            Some((client, result)) => {
                let action = listen_for_clients("/add", ClientEvent::Connected);
                assert!(matches!(action, ClientAction::ExchangeHeaders));
                (client, Some(ClientEvent::Exchanged(result)))
            }
            None => (0, Some(ClientEvent::Closed)),
        };
        while let Some(happened) = event.take() {
            match listen_for_clients("/add", happened) {
                ClientAction::Serve => served.push(client),
                ClientAction::Report(text) => reports.push(text),
                ClientAction::AwaitNext => {}
                ClientAction::Stop => return (served, reports),
                ClientAction::ExchangeHeaders => panic!("headers have been exchanged"),
            }
        }
    }
}

#[test]
fn failed_client_changes_nothing_for_the_others() {
    let (served, reports) = listen(vec![
        Ok(RequestType::Action),
        Err(Error::new(ErrorKind::MalformedHeader)),
        Ok(RequestType::Probe),
        Err(Error::new(ErrorKind::ConnectionClosed("gone".to_string()))),
        Ok(RequestType::Action),
    ]);
    assert_eq!(served, [0, 4]);
    assert_eq!(
        reports,
        ["Failed to exchange headers for service '/add': Header rows need to have a format of key=value"]
    );
    let (served, reports) = listen(vec![Ok(RequestType::Action), Ok(RequestType::Probe), Ok(RequestType::Action)]);
    assert_eq!(served, [0, 2]);
    assert!(reports.is_empty());
    assert_eq!(listen(vec![]), (vec![], vec![]));
}

#[test]
fn failed_answering_is_reported_unless_the_client_left() {
    assert_eq!(spawn_request_handler(&Ok(())), None);
    let closed = Error::new(ErrorKind::ConnectionClosed("gone".to_string()));
    assert_eq!(spawn_request_handler(&Err(closed)), None);
    let failure = Error::new(ErrorKind::Io("reset".to_string())).chain_err(ErrorKind::MalformedHeader);
    assert_eq!(
        spawn_request_handler(&Err(failure)).unwrap(),
        "Header rows need to have a format of key=value\nCaused by:reset"
    );
}

/// Runs a conversation in which every write succeeds, and returns what the client gets.
fn conversation(request: Option<u8>, answer: Result<u8, &str>) -> (Vec<u8>, Result<(), Error>) {
    let mut received = Vec::new();
    let mut event: RequestEvent<u8, u8> = RequestEvent::Started;
    for _ in 0..8 {
        event = match handle_request_loop(event) {
            RequestAction::ReadLength => RequestEvent::LengthRead,
            RequestAction::ReadRequest => match request {
                Some(value) => RequestEvent::RequestRead(value),
                None => RequestEvent::RequestUnreadable,
            },
            RequestAction::CallHandler(value) => {
                assert_eq!(Some(value), request);
                match answer {
                    Ok(response) => RequestEvent::Responded(response),
                    Err(reason) => RequestEvent::Refused(reason.to_string()),
                }
            }
            RequestAction::WriteSuccess(bytes, response) => {
                received.extend_from_slice(&bytes);
                RequestEvent::SuccessWritten(response)
            }
            RequestAction::EncodeResponse(response) => RequestEvent::ResponseEncoded(vec![response; 3]),
            RequestAction::WriteReply(bytes) => {
                received.extend_from_slice(&bytes);
                RequestEvent::ReplyWritten
            }
            RequestAction::WriteFailure(bytes) => {
                received.extend_from_slice(&bytes);
                RequestEvent::FailureWritten
            }
            RequestAction::Finish(result) => return (received, result),
        };
    }
    panic!("the conversation does not end");
}

#[test]
fn response_comes_behind_its_length() {
    let (received, result) = conversation(Some(1), Ok(9));
    assert!(result.is_ok());
    let mut expected = vec![1, 3, 0, 0, 0, 9, 9, 9];
    expected.extend_from_slice(&error_reply("Failed to parse passed arguments"));
    assert_eq!(received, expected);
}

#[test]
fn refusal_comes_with_its_reason() {
    let (received, result) = conversation(Some(1), Err("too b\u{ef}g"));
    assert!(result.is_ok());
    let mut expected = error_reply("too b\u{ef}g");
    expected.extend_from_slice(&error_reply("Failed to parse passed arguments"));
    assert_eq!(received, expected);
}

#[test]
fn unreadable_request_is_told_so() {
    let (received, result) = conversation(None, Ok(0));
    assert!(result.is_ok());
    assert_eq!(received, error_reply("Failed to parse passed arguments"));
    assert_eq!(&received[..5], &[0, 32, 0, 0, 0]);
}

#[test]
fn response_is_announced_before_it_is_encoded() {
    let mut received = Vec::new();
    match handle_request_loop::<u8, u8>(RequestEvent::Responded(4)) {
        RequestAction::WriteSuccess(bytes, 4) => received.extend_from_slice(&bytes),
        _ => panic!("a response is announced"),
    }
    let action = handle_request_loop::<u8, u8>(RequestEvent::SuccessWritten(4));
    assert!(matches!(action, RequestAction::EncodeResponse(4)));
    let failure = Error::new(ErrorKind::Io("full".to_string()));
    let action = handle_request_loop::<u8, u8>(RequestEvent::ResponseNotEncoded(failure));
    assert!(matches!(action, RequestAction::Finish(Err(_))));
    assert_eq!(received, [1]);
}

#[test]
fn failed_write_or_encoding_ends_the_conversation() {
    let failure = || Error::new(ErrorKind::Io("reset".to_string()));
    let action = handle_request_loop::<u8, u8>(RequestEvent::WriteFailed(failure()));
    assert!(matches!(action, RequestAction::Finish(Err(error)) if error.report() == "reset"));
    let action = handle_request_loop::<u8, u8>(RequestEvent::ResponseNotEncoded(failure()));
    assert!(matches!(action, RequestAction::Finish(Err(error)) if error.report() == "reset"));
}

#[test]
fn service_is_reached_under_host_and_port() {
    let service = Service::new("localhost", 11311, "/add", &pair());
    assert_eq!(service.api, "rosrpc://localhost:11311");
    assert_eq!(service.msg_type, "rospy_tutorials/AddTwoInts");
    assert_eq!(service.service, "/add");
    assert_eq!(Service::new("h", 0, "/add", &pair()).api, "rosrpc://h:0");
    assert_eq!(Service::new("h", 65535, "/add", &pair()).api, "rosrpc://h:65535");
    assert_eq!(Service::wrap_stream("/add", &pair(), "rosrpc://h:1").api, "rosrpc://h:1");
    assert_eq!(Service::connection_name("/add"), "service '/add'");
}
