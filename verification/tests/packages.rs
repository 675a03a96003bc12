use rosrust::error::ErrorKind;
use rosrust::stream::ByteStream;
use rosrust::subscriber::{forward_packages, package_to_vector, Delivery, PackageAction, PackageEvent};

const FAILED_TO_READ_WRITE_VECTOR: &str = "Failed to read or write from vector";

#[test]
fn package_to_vector_creates_right_buffer_from_reader() {
    let input = [7, 0, 0, 0, 1, 2, 3, 4, 5, 6, 7];
    let data =
        package_to_vector(&mut ByteStream::new(input.to_vec())).expect(FAILED_TO_READ_WRITE_VECTOR);
    assert_eq!(data, [7, 0, 0, 0, 1, 2, 3, 4, 5, 6, 7]);
}

#[test]
fn package_to_vector_respects_provided_length() {
    let input = [7, 0, 0, 0, 1, 2, 3, 4, 5, 6, 7, 8, 9, 10, 11, 12];
    let data =
        package_to_vector(&mut ByteStream::new(input.to_vec())).expect(FAILED_TO_READ_WRITE_VECTOR);
    assert_eq!(data, [7, 0, 0, 0, 1, 2, 3, 4, 5, 6, 7]);
}

#[test]
fn package_to_vector_fails_if_stream_is_shorter_than_annotated() {
    let input = [7, 0, 0, 0, 1, 2, 3, 4, 5];
    package_to_vector(&mut ByteStream::new(input.to_vec())).unwrap_err();
}

#[test]
fn package_to_vector_fails_leaves_cursor_at_end_of_reading() {
    let input = [7, 0, 0, 0, 1, 2, 3, 4, 5, 6, 7, 4, 0, 0, 0, 11, 12, 13, 14];
    let mut cursor = ByteStream::new(input.to_vec());
    let data = package_to_vector(&mut cursor).expect(FAILED_TO_READ_WRITE_VECTOR);
    assert_eq!(data, [7, 0, 0, 0, 1, 2, 3, 4, 5, 6, 7]);
    let data = package_to_vector(&mut cursor).expect(FAILED_TO_READ_WRITE_VECTOR);
    assert_eq!(data, [4, 0, 0, 0, 11, 12, 13, 14]);
}

#[test]
fn package_without_content_is_its_length() {
    let mut stream = ByteStream::new(vec![0, 0, 0, 0, 9]);
    assert_eq!(package_to_vector(&mut stream).unwrap(), [0, 0, 0, 0]);
    assert_eq!(stream.unread(), [9]);
}

#[test]
fn package_length_uses_all_four_bytes() {
    let mut bytes = vec![0, 1, 1, 0];
    bytes.resize(4 + 0x10100, 5);
    let mut stream = ByteStream::new(bytes.clone());
    stream.extend(&[1]);
    assert_eq!(package_to_vector(&mut stream).unwrap(), bytes);
    assert_eq!(stream.len(), 1);
    let error = package_to_vector(&mut ByteStream::new(vec![0, 0, 0, 1, 0, 0])).unwrap_err();
    assert_eq!(error.text(), "failed to fill whole buffer");
}

#[test]
fn package_cut_anywhere_is_lost() {
    let package = [3, 0, 0, 0, 1, 2, 3];
    for n in 0..package.len() {
        let mut stream = ByteStream::new(package[..n].to_vec());
        assert!(matches!(package_to_vector(&mut stream), Err(ErrorKind::ConnectionClosed(_))));
        assert_eq!(stream.len(), 0);
    }
}

#[test]
fn missing_bytes_lead_to_a_package() {
    let mut stream = ByteStream::new(vec![]);
    assert_eq!(stream.missing(), 4);
    stream.extend(&[3]);
    assert_eq!(stream.missing(), 3);
    stream.extend(&[0, 0, 0]);
    assert_eq!(stream.missing(), 3);
    stream.extend(&[8]);
    assert_eq!(stream.missing(), 2);
    stream.extend(&[8, 8]);
    assert_eq!(stream.missing(), 0);
    assert_eq!(package_to_vector(&mut stream).unwrap(), [3, 0, 0, 0, 8, 8, 8]);
    stream.extend(&[0, 0]);
    assert_eq!(stream.missing(), 2);
}

#[test]
fn packages_in_a_row_are_read_in_a_row() {
    let mut stream = ByteStream::new(vec![1, 0, 0, 0, 7, 0, 0, 0, 0, 2, 0, 0, 0, 8, 9, 5, 0]);
    let mut packages = Vec::new();
    while let Ok(package) = package_to_vector(&mut stream) {
        packages.push(package);
    }
    assert_eq!(packages, vec![vec![1, 0, 0, 0, 7], vec![0, 0, 0, 0], vec![2, 0, 0, 0, 8, 9]]);
    assert_eq!(stream.len(), 0);
}

#[test]
fn forwarding_delivers_whole_packages() {
    let action = forward_packages(PackageEvent::Received(vec![2, 0, 0, 0, 8, 9]));
    assert!(matches!(action, PackageAction::Deliver(package) if package == [2, 0, 0, 0, 8, 9]));
    let action = forward_packages(PackageEvent::Received(vec![2, 0, 0, 0, 8]));
    assert!(matches!(action, PackageAction::Stop));
    assert!(matches!(forward_packages(PackageEvent::Failed), PackageAction::Stop));
}

#[test]
fn forwarding_ends_only_with_an_abandoned_queue() {
    let after = |delivery| forward_packages(PackageEvent::Delivered(delivery));
    assert!(matches!(after(Delivery::Queued), PackageAction::Receive));
    assert!(matches!(after(Delivery::Full), PackageAction::Receive));
    assert!(matches!(after(Delivery::Disconnected), PackageAction::Stop));
}

#[test]
fn package_takes_no_more_room_than_it_needs() {
    let input = [7, 0, 0, 0, 1, 2, 3, 4, 5, 6, 7, 8];
    let data = package_to_vector(&mut ByteStream::new(input.to_vec())).unwrap();
    assert_eq!((data.len(), data.capacity()), (11, 11));
}

/// Forwards what comes in these pieces, and returns what goes into the queue, which is
/// abandoned after as many packages as `room` says.
fn forward(pieces: &[&[u8]], room: usize) -> Vec<Vec<u8>> {
    let mut pieces = pieces.iter();
    let mut delivered = Vec::new();
    let mut action = PackageAction::Receive;
    loop {
        let event = match action {
            PackageAction::Receive => match pieces.next() {
                Some(bytes) => PackageEvent::Received(bytes.to_vec()),
                None => PackageEvent::Failed,
            },
            PackageAction::Deliver(package) => {
                delivered.push(package);
                PackageEvent::Delivered(if delivered.len() > room {
                    Delivery::Disconnected
                } else if delivered.len() % 2 == 0 {
                    Delivery::Full
                } else {
                    Delivery::Queued
                })
            }
            PackageAction::Stop => return delivered,
        };
        action = forward_packages(event);
    }
}

#[test]
fn all_whole_packages_are_forwarded_in_order() {
    let (one, two, three): (&[u8], &[u8], &[u8]) = (&[1, 0, 0, 0, 7], &[0, 0, 0, 0], &[2, 0, 0, 0, 8, 9]);
    let (cut, nothing): (&[u8], &[u8]) = (&[2, 0, 0, 0, 8], &[]);
    assert_eq!(forward(&[one, two, three, nothing], 9), [one, two, three]);
    assert_eq!(forward(&[one, two, three], 9), [one, two, three]);
    assert_eq!(forward(&[one, cut, three], 9), [one]);
    assert_eq!(forward(&[one, two, three], 1), [one, two]);
}
