use rosrust::channel::SocketAddress;
use rosrust::error::{Error, ErrorKind};
use rosrust::header::{decode, encode, HeaderFields};
use rosrust::stream::ByteStream;
use rosrust::subscriber::{
    exchange_headers, handle_data, join_connection, join_connections, read_response, write_request,
    DataAction, DataEvent, HeaderAction, HeaderEvent, JoinAction, JoinEvent, MessageInfo,
    PublisherAction, PublisherEvent, Subscriber,
};

fn message() -> MessageInfo {
    MessageInfo {
        msg_definition: "string data\n".to_string(),
        md5sum: "992ce8a1687cec8c8bd883ec73ca41d1".to_string(),
        msg_type: "std_msgs/String".to_string(),
    }
}

fn header(rows: &[(&str, &str)]) -> Vec<u8> {
    let mut fields = HeaderFields::new();
    for (name, value) in rows {
        fields.insert(name.to_string(), value.to_string());
    }
    let mut out = Vec::new();
    encode(&fields, &mut out);
    out
}

fn good_response() -> Vec<u8> {
    header(&[
        ("callerid", "/talker"),
        ("md5sum", "992ce8a1687cec8c8bd883ec73ca41d1"),
        ("type", "std_msgs/String"),
    ])
}

fn response_error(rows: &[(&str, &str)]) -> ErrorKind {
    read_response(&mut ByteStream::new(header(rows)), &message()).unwrap_err().kind
}

#[test]
fn request_holds_the_five_fields() {
    let mut out = Vec::new();
    write_request(&mut out, &message(), "/listener", "/chatter");
    let expected = header(&[
        ("message_definition", "string data\n"),
        ("callerid", "/listener"),
        ("topic", "/chatter"),
        ("md5sum", "992ce8a1687cec8c8bd883ec73ca41d1"),
        ("type", "std_msgs/String"),
    ]);
    assert_eq!(out, expected);
    let fields = decode(&mut ByteStream::new(out)).unwrap_or_else(|_| panic!("request was refused"));
    assert_eq!(fields.get("topic").unwrap(), "/chatter");
    assert_eq!(fields.get("message_definition").unwrap(), "string data\n");
}

#[test]
fn response_with_digest_and_type_is_accepted() {
    let mut bytes = good_response();
    bytes.push(42);
    let mut stream = ByteStream::new(bytes);
    assert!(read_response(&mut stream, &message()).is_ok());
    assert_eq!(stream.unread(), [42]);
}

#[test]
fn response_with_other_digest_or_type_is_refused() {
    let kind = response_error(&[("md5sum", "*"), ("type", "wrong")]);
    assert!(matches!(kind, ErrorKind::HeaderMismatch { field, actual, .. } if field == "md5sum" && actual == "*"));
    let md5sum = "992ce8a1687cec8c8bd883ec73ca41d1";
    let kind = response_error(&[("md5sum", md5sum), ("type", "wrong")]);
    assert!(matches!(kind, ErrorKind::HeaderMismatch { field, .. } if field == "type"));
    let kind = response_error(&[("md5sum", md5sum)]);
    assert!(matches!(kind, ErrorKind::HeaderMissingField(field) if field == "type"));
    let kind = response_error(&[("type", "std_msgs/String")]);
    assert!(matches!(kind, ErrorKind::HeaderMissingField(field) if field == "md5sum"));
    let closed = read_response(&mut ByteStream::new(vec![]), &message()).unwrap_err();
    assert!(closed.is_closed_connection());
}

#[test]
fn headers_are_exchanged_request_first() {
    let message = message();
    let step = |event| exchange_headers(&message, "/listener", "/chatter", event);
    let mut request = Vec::new();
    write_request(&mut request, &message, "/listener", "/chatter");
    assert!(matches!(step(HeaderEvent::Started), HeaderAction::SendRequest(bytes) if bytes == request));
    assert!(matches!(step(HeaderEvent::RequestSent), HeaderAction::ReceiveResponse));
    assert!(matches!(
        step(HeaderEvent::ResponseReceived(good_response())),
        HeaderAction::Finish(Ok(()))
    ));
    assert!(matches!(
        step(HeaderEvent::ResponseReceived(header(&[]))),
        HeaderAction::Finish(Err(_))
    ));
    let failure = Error::new(ErrorKind::Io("broken pipe".to_string()));
    match step(HeaderEvent::Failed(failure)) {
        HeaderAction::Finish(Err(error)) => assert_eq!(error.report(), "broken pipe"),
        _ => panic!("a failure ends the exchange"),
    }
}

#[test]
fn publisher_is_joined_only_after_a_good_response() {
    let message = message();
    let step = |event| join_connection(&message, "/listener", "/chatter", event);
    assert!(matches!(step(JoinEvent::Started), JoinAction::Connect));
    assert!(matches!(step(JoinEvent::Connected), JoinAction::SendRequest(bytes) if !bytes.is_empty()));
    assert!(matches!(step(JoinEvent::RequestSent), JoinAction::ReceiveResponse));
    assert!(matches!(
        step(JoinEvent::ResponseReceived(good_response())),
        JoinAction::ForwardPackages
    ));
    match step(JoinEvent::ResponseReceived(header(&[("md5sum", "0")]))) {
        JoinAction::Fail(error) => assert!(matches!(error.kind, ErrorKind::HeaderMismatch { .. })),
        _ => panic!("the response is no good"),
    }
    let failure = Error::new(ErrorKind::Io("refused".to_string()));
    assert!(matches!(step(JoinEvent::Failed(failure)), JoinAction::Fail(error) if error.report() == "refused"));
}

#[test]
fn publishers_are_joined_as_announced() {
    assert!(matches!(join_connections("/t", PublisherEvent::Announced(5)), PublisherAction::Join(5)));
    let joined: PublisherEvent<u8> = PublisherEvent::Joined(Ok(()));
    assert!(matches!(join_connections("/t", joined), PublisherAction::AwaitNext));
    let closed: PublisherEvent<u8> = PublisherEvent::Closed;
    assert!(matches!(join_connections("/t", closed), PublisherAction::Stop));
    let failed: PublisherEvent<u8> =
        PublisherEvent::Joined(Err(Error::new(ErrorKind::Io("refused".to_string()))));
    match join_connections("/t", failed) {
        PublisherAction::Report(text) => {
            assert_eq!(text, "Could not connect to '/t' topic\nCaused by:refused");
        }
        _ => panic!("a failure is reported"),
    }
}

#[test]
fn messages_reach_the_callback_until_the_signal() {
    let event: DataEvent<u8> = DataEvent::Received(Some(vec![1, 2]));
    assert!(matches!(handle_data(event), DataAction::Decode(buffer) if buffer == [1, 2]));
    assert!(matches!(handle_data(DataEvent::Decoded(Ok(3u8))), DataAction::Call(3)));
    let event: DataEvent<u8> = DataEvent::Decoded(Err("too short".to_string()));
    assert!(matches!(handle_data(event), DataAction::Report(text) if text == "Failed to decode message: too short"));
    let event: DataEvent<u8> = DataEvent::Received(None);
    assert!(matches!(handle_data(event), DataAction::Stop));
    let event: DataEvent<u8> = DataEvent::Ended;
    assert!(matches!(handle_data(event), DataAction::Stop));
}

#[test]
fn subscriber_announces_publishers_in_order() {
    let (mut subscriber, publishers) = Subscriber::new("/chatter", "std_msgs/String");
    assert_eq!(subscriber.get_topic().name, "/chatter");
    assert_eq!(subscriber.topic.msg_type, "std_msgs/String");
    let first = SocketAddress::V4 { ipv4: 0x7f00_0001, port: 11311 };
    let second = SocketAddress::V6 { ipv6: 1, port: 8, flowinfo: 0, scope_id: 2 };
    assert_eq!(subscriber.connect_to(&[]), Ok(()));
    assert_eq!(subscriber.connect_to(&[first, second]), Ok(()));
    assert_eq!(subscriber.connect_to(&[first]), Ok(()));
    drop(subscriber);
    let announced: Vec<SocketAddress> = publishers.iter().collect();
    assert_eq!(announced, vec![first, second, first]);
}

#[test]
fn subscriber_gets_back_what_nobody_takes() {
    let (mut subscriber, publishers) = Subscriber::new("/chatter", "std_msgs/String");
    drop(publishers);
    let address = SocketAddress::V4 { ipv4: 1, port: 2 };
    assert_eq!(subscriber.connect_to(&[address]), Err(address));
    assert_eq!(subscriber.connect_to(&[]), Ok(()));
}

#[test]
fn subscriber_cannot_fail_while_its_publishers_are_taken() {
    let (mut subscriber, publishers) = Subscriber::new("/chatter", "std_msgs/String");
    let address = |port| SocketAddress::V4 { ipv4: 0x7f00_0001, port };
    for port in 0..100 {
        assert_eq!(subscriber.connect_while_received(&[address(port), address(port)], &publishers), Ok(()));
        assert_eq!(publishers.recv(), Ok(address(port / 2)));
    }
    assert_eq!(publishers.len(), 100);
    drop(publishers);
    assert_eq!(subscriber.connect_to(&[address(1), address(2)]), Err(address(1)));
    assert_eq!(subscriber.connect_to(&[address(3)]), Err(address(3)));
    let (_other, elsewhere) = Subscriber::new("/chatter", "std_msgs/String");
    assert_eq!(subscriber.connect_while_received(&[address(4)], &elsewhere), Err(address(4)));
    assert!(elsewhere.is_empty());
}

#[test]
fn subscribers_do_not_share_a_channel() {
    let (mut first, first_publishers) = Subscriber::new("/a", "std_msgs/String");
    let (mut second, second_publishers) = Subscriber::new("/b", "std_msgs/String");
    let address = SocketAddress::V4 { ipv4: 1, port: 2 };
    let other = SocketAddress::V4 { ipv4: 3, port: 4 };
    assert_eq!(first.connect_to(&[address]), Ok(()));
    assert_eq!(second.connect_to(&[other]), Ok(()));
    assert_eq!(first_publishers.try_recv(), Ok(address));
    assert_eq!(second_publishers.try_recv(), Ok(other));
    assert!(first_publishers.is_empty() && second_publishers.is_empty());
}

#[test]
fn failed_publisher_changes_nothing_for_the_others() {
    let mut tried = Vec::new();
    let mut reports = Vec::new();
    for publisher in 1..=4 {
        let mut event = PublisherEvent::Announced(publisher);
        loop {
            match join_connections("/t", event) {
                PublisherAction::Join(address) => {
                    tried.push(address);
                    event = PublisherEvent::Joined(if address % 2 == 0 {
                        Err(Error::new(ErrorKind::Io(format!("no route to {}", address))))
                    } else {
                        Ok(())
                    });
                }
                PublisherAction::Report(text) => {
                    reports.push(text);
                    break;
                }
                PublisherAction::AwaitNext => break,
                PublisherAction::Stop => panic!("a failure does not end it"),
            }
        }
    }
    assert_eq!(tried, [1, 2, 3, 4]);
    assert_eq!(
        reports,
        [
            "Could not connect to '/t' topic\nCaused by:no route to 2",
            "Could not connect to '/t' topic\nCaused by:no route to 4",
        ]
    );
}

#[test]
fn callback_gets_the_decodable_packages_before_the_signal() {
    let queue = vec![Some(vec![1]), Some(vec![]), Some(vec![3, 9]), None, Some(vec![5])];
    let (mut called, mut reports) = (Vec::new(), Vec::new());
    for item in queue {
        match handle_data(DataEvent::<u8>::Received(item)) {
            DataAction::Decode(buffer) => {
                let decoded = buffer.first().copied().ok_or("empty".to_string());
                match handle_data(DataEvent::Decoded(decoded)) {
                    DataAction::Call(value) => called.push(value),
                    DataAction::Report(text) => reports.push(text),
                    _ => panic!("a package is called or reported"),
                }
            }
            DataAction::Stop => break,
            _ => panic!("a package is decoded"),
        }
    }
    assert_eq!(called, [1, 3]);
    assert_eq!(reports, ["Failed to decode message: empty"]);
}

#[test]
fn subscriber_reports_a_queue_closed_before() {
    let (subscriber, _publishers) = Subscriber::new("/chatter", "std_msgs/String");
    assert_eq!(subscriber.drop_report(false), None);
    assert_eq!(
        subscriber.drop_report(true).unwrap(),
        "Subscriber data stream to topic '/chatter' has already been killed"
    );
}
