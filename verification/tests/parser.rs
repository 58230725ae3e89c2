use dnp3::link::mock::{Expect, MockHandler, Received, Recorder};
use dnp3::link::{calc_crc, Ctrl, Function, Header, ParseError, Parser};

// 05 64 05 C0 01 00 00 04, CRC 0x21E9
const LENGTH_FIVE: [u8; 10] = [0x05, 0x64, 0x05, 0xC0, 0x01, 0x00, 0x00, 0x04, 0xE9, 0x21];

// control 0xC4, destination 3, source 4, user data 1..=20
const TWENTY: [u8; 34] = [
    0x05, 0x64, 0x19, 0xC4, 0x03, 0x00, 0x04, 0x00, 0x99, 0x24, 0x01, 0x02, 0x03, 0x04, 0x05, 0x06,
    0x07, 0x08, 0x09, 0x0A, 0x0B, 0x0C, 0x0D, 0x0E, 0x0F, 0x10, 0xF2, 0xA5, 0x11, 0x12, 0x13, 0x14,
    0x29, 0x7B,
];

fn with_crc(data: &[u8]) -> Vec<u8> {
    let crc = calc_crc(data);
    let mut out = data.to_vec();
    out.push((crc & 0xFF) as u8);
    out.push((crc >> 8) as u8);
    out
}

fn build_frame(ctrl: u8, dest: u16, src: u16, data: &[u8]) -> Vec<u8> {
    let length = (5 + data.len()) as u8;
    let mut out = with_crc(&[
        0x05,
        0x64,
        length,
        ctrl,
        (dest & 0xFF) as u8,
        (dest >> 8) as u8,
        (src & 0xFF) as u8,
        (src >> 8) as u8,
    ]);
    for block in data.chunks(16) {
        out.extend(with_crc(block));
    }
    out
}

fn decode_whole(bytes: &[u8]) -> Vec<Received> {
    let mut parser = Parser::new();
    let mut recorder = Recorder::new();
    parser.decode(bytes, &mut recorder);
    recorder.received
}

fn decode_in_chunks(bytes: &[u8], size: usize) -> Vec<Received> {
    let mut parser = Parser::new();
    let mut recorder = Recorder::new();
    for chunk in bytes.chunks(size) {
        parser.decode(chunk, &mut recorder);
    }
    recorder.received
}

fn payload(n: usize) -> Vec<u8> {
    (0..n).map(|i| (i * 7 + 3) as u8).collect()
}

#[test]
fn header_parse_catches_bad_length() {
    // CRC is the 0x21E9 at the end (little endian)
    let frame: [u8; 10] = [0x05, 0x64, 0x04, 0xC0, 0x01, 0x00, 0x00, 0x04, 0xE9, 0x21];

    let mut parser = Parser::new();
    let mut handler = MockHandler::new();

    handler.expects.push(Expect::Error(ParseError::BadLength(4)));

    parser.decode(&frame[..], &mut handler);

    assert!(handler.expects.is_empty());
    assert!(!handler.failed);
}

#[test]
fn header_parse_catches_bad_crc() {
    // CRC is the 0x21E9 at the end (little endian)
    let frame: [u8; 10] = [0x05, 0x64, 0x05, 0xC0, 0x01, 0x00, 0x00, 0x04, 0xE9, 0x20];

    let mut parser = Parser::new();
    let mut handler = MockHandler::new();

    handler.expects.push(Expect::Error(ParseError::BadHeaderCRC));

    parser.decode(&frame[..], &mut handler);

    assert!(handler.expects.is_empty());
    assert!(!handler.failed);
}

#[test]
fn returns_frame_for_length_of_five() {
    // CRC is the 0x21E9 at the end (little endian)
    let frame: [u8; 10] = [0x05, 0x64, 0x05, 0xC0, 0x01, 0x00, 0x00, 0x04, 0xE9, 0x21];

    let mut parser = Parser::new();
    let mut handler = MockHandler::new();

    handler.expects.push(Expect::Frame(Header::from(Ctrl::from(0xC0), 1, 1024), 0));

    parser.decode(&frame[..], &mut handler);

    assert!(handler.expects.is_empty());
    assert!(!handler.failed);
}

#[test]
fn mock_handler_marks_what_it_did_not_await() {
    let mut parser = Parser::new();
    let mut handler = MockHandler::new();
    parser.decode(&LENGTH_FIVE, &mut handler);
    assert!(handler.failed);

    let mut parser = Parser::new();
    let mut handler = MockHandler::new();
    handler.expects.push(Expect::Error(ParseError::BadHeaderCRC));
    parser.decode(&LENGTH_FIVE, &mut handler);
    assert!(handler.expects.is_empty());
    assert!(handler.failed);

    let mut parser = Parser::new();
    let mut handler = MockHandler::new();
    handler.expects.push(Expect::Frame(Header::from(Ctrl::from(0xC0), 1, 1024), 1));
    parser.decode(&LENGTH_FIVE, &mut handler);
    assert!(handler.failed);

    let mut parser = Parser::new();
    let mut handler = MockHandler::new();
    handler.expects.push(Expect::Frame(Header::from(Ctrl::from(0xC0), 2, 1024), 0));
    parser.decode(&LENGTH_FIVE, &mut handler);
    assert!(handler.failed);
}

#[test]
fn mock_handler_meets_the_last_expectation_first() {
    let mut bytes = TWENTY.to_vec();
    bytes.extend_from_slice(&[0x05, 0x64, 0x03, 0, 0, 0, 0, 0, 0, 0]);
    let mut parser = Parser::new();
    let mut handler = MockHandler::new();
    handler.expects.push(Expect::Error(ParseError::BadLength(3)));
    handler.expects.push(Expect::Frame(Header::from(Ctrl::from(0xC4), 3, 4), 20));
    parser.decode(&bytes, &mut handler);
    assert!(handler.expects.is_empty());
    assert!(!handler.failed);
}

#[test]
fn length_of_four_is_bad_whatever_the_checksum() {
    // the checksum of this header is right
    let frame = with_crc(&[0x05, 0x64, 0x04, 0xC0, 0x01, 0x00, 0x00, 0x04]);
    assert_eq!(frame[8..], [0x0E, 0x94]);
    assert_eq!(decode_whole(&frame), vec![Received::Error(ParseError::BadLength(4))]);
}

#[test]
fn every_length_under_five_is_reported_with_its_value() {
    for length in 0..5u8 {
        let frame = with_crc(&[0x05, 0x64, length, 0xC0, 0x01, 0x00, 0x00, 0x04]);
        assert_eq!(decode_whole(&frame), vec![Received::Error(ParseError::BadLength(length))]);
    }
}

#[test]
fn one_flipped_bit_in_the_header_is_caught() {
    let mut caught = 0;
    for index in 2..8 {
        for bit in 0..8 {
            let mut frame = LENGTH_FIVE;
            frame[index] ^= 1 << bit;
            let got = decode_whole(&frame);
            if index == 2 && frame[2] < 5 {
                assert_eq!(got, vec![Received::Error(ParseError::BadLength(frame[2]))]);
            } else {
                assert_eq!(got, vec![Received::Error(ParseError::BadHeaderCRC)]);
                caught += 1;
            }
        }
    }
    // of the length byte 5, two flips give 4 and 1
    assert_eq!(caught, 46);
}

#[test]
fn one_flipped_bit_in_a_sync_byte_hides_the_frame() {
    for index in 0..2 {
        for bit in 0..8 {
            let mut frame = LENGTH_FIVE;
            frame[index] ^= 1 << bit;
            assert_eq!(decode_whole(&frame), vec![]);
            assert_eq!(decode_in_chunks(&frame, 1), vec![]);
            assert_eq!(decode_in_chunks(&frame, 3), vec![]);
        }
    }
}

#[test]
fn length_of_five_gives_a_frame_without_user_data() {
    let mut parser = Parser::new();
    let mut recorder = Recorder::new();
    parser.decode(&LENGTH_FIVE, &mut recorder);
    assert_eq!(
        recorder.received,
        vec![Received::Frame(Header::from(Ctrl::from(0xC0), 1, 1024), vec![])]
    );
    // the decoder is back at the hunt: the next frame is found at once
    parser.decode(&LENGTH_FIVE, &mut recorder);
    assert_eq!(recorder.received.len(), 2);
}

#[test]
fn scenario_frame_of_length_five() {
    let got = decode_whole(&[0x05, 0x64, 0x05, 0xC0, 0x01, 0x00, 0x00, 0x04, 0xE9, 0x21]);
    assert_eq!(got.len(), 1);
    match &got[0] {
        Received::Frame(header, data) => {
            assert_eq!(header.dest, 1);
            assert_eq!(header.src, 1024);
            assert_eq!(header.ctrl.func, Function::from(0xC0 & 0x4F));
            assert_eq!(header.ctrl.func, Function::PriResetLinkStates);
            assert!(header.ctrl.master);
            assert!(!header.ctrl.fcb);
            assert!(!header.ctrl.fcvdfc);
            assert!(data.is_empty());
        }
        Received::Error(error) => panic!("{:?}", error),
    }
}

#[test]
fn scenario_wrong_trailing_checksum() {
    let got = decode_whole(&[0x05, 0x64, 0x05, 0xC0, 0x01, 0x00, 0x00, 0x04, 0x20, 0x21]);
    assert_eq!(got, vec![Received::Error(ParseError::BadHeaderCRC)]);
}

#[test]
fn twenty_bytes_of_user_data_round_trip() {
    let data: Vec<u8> = (1..=20).collect();
    let frame = build_frame(0xC4, 3, 4, &data);
    assert_eq!(frame, TWENTY.to_vec());
    assert_eq!(
        decode_whole(&frame),
        vec![Received::Frame(Header::from(Ctrl::from(0xC4), 3, 4), data)]
    );
}

#[test]
fn a_wrong_checksum_on_either_block_drops_the_frame() {
    // the checksum of the full block is at 26 and 27, that of the short one at 32 and 33
    for index in [26, 27, 32, 33] {
        for bit in 0..8 {
            let mut frame = TWENTY;
            frame[index] ^= 1 << bit;
            assert_eq!(decode_whole(&frame), vec![Received::Error(ParseError::BadBodyCRC)]);
        }
    }
}

#[test]
fn a_wrong_data_byte_drops_the_frame() {
    for index in (10..26).chain(28..32) {
        let mut frame = TWENTY;
        frame[index] = frame[index].wrapping_add(1);
        assert_eq!(decode_whole(&frame), vec![Received::Error(ParseError::BadBodyCRC)]);
    }
}

#[test]
fn the_body_is_as_long_as_the_formula_says() {
    assert_eq!(Parser::calc_body_size(0), 0);
    assert_eq!(Parser::calc_body_size(1), 3);
    assert_eq!(Parser::calc_body_size(15), 17);
    assert_eq!(Parser::calc_body_size(16), 18);
    assert_eq!(Parser::calc_body_size(17), 21);
    assert_eq!(Parser::calc_body_size(20), 24);
    assert_eq!(Parser::calc_body_size(32), 36);
    assert_eq!(Parser::calc_body_size(250), 282);
    assert_eq!(Parser::calc_body_size(255), 287);
}

#[test]
fn the_frame_comes_with_the_last_byte_of_its_body() {
    for n in [1usize, 15, 16, 17, 31, 32, 33, 250] {
        let data = payload(n);
        let frame = build_frame(0x44, 10, 20, &data);
        assert_eq!(frame.len(), 10 + Parser::calc_body_size(n as u8));
        let mut parser = Parser::new();
        let mut recorder = Recorder::new();
        parser.decode(&frame[..frame.len() - 1], &mut recorder);
        assert_eq!(recorder.received, vec![]);
        parser.decode(&frame[frame.len() - 1..], &mut recorder);
        assert_eq!(
            recorder.received,
            vec![Received::Frame(Header::from(Ctrl::from(0x44), 10, 20), data)]
        );
    }
}

#[test]
fn every_length_of_user_data_round_trips() {
    for n in 0..=250usize {
        let data = payload(n);
        let frame = build_frame(0xD3, 0xFFFF, 0x1234, &data);
        assert_eq!(
            decode_whole(&frame),
            vec![Received::Frame(Header::from(Ctrl::from(0xD3), 0xFFFF, 0x1234), data)]
        );
    }
}

#[test]
fn frames_back_to_back_decode_the_same_in_any_chunking() {
    let mut stream = Vec::new();
    stream.extend(build_frame(0xC4, 3, 4, &payload(20)));
    stream.extend_from_slice(&LENGTH_FIVE);
    stream.extend(with_crc(&[0x05, 0x64, 0x02, 0xC0, 0x01, 0x00, 0x00, 0x04]));
    stream.extend(build_frame(0x44, 7, 8, &payload(250)));
    stream.extend_from_slice(&[0x05, 0x64, 0x05, 0xC0, 0x01, 0x00, 0x00, 0x04, 0x20, 0x21]);
    let mut broken = build_frame(0x44, 7, 8, &payload(33));
    broken[20] ^= 0x10;
    stream.extend(broken);
    stream.extend(build_frame(0x00, 0, 0, &payload(1)));
    stream.extend_from_slice(&[0x00, 0x64, 0xFF, 0x17]);

    let whole = decode_whole(&stream);
    assert_eq!(
        whole,
        vec![
            Received::Frame(Header::from(Ctrl::from(0xC4), 3, 4), payload(20)),
            Received::Frame(Header::from(Ctrl::from(0xC0), 1, 1024), vec![]),
            Received::Error(ParseError::BadLength(2)),
            Received::Frame(Header::from(Ctrl::from(0x44), 7, 8), payload(250)),
            Received::Error(ParseError::BadHeaderCRC),
            Received::Error(ParseError::BadBodyCRC),
            Received::Frame(Header::from(Ctrl::from(0x00), 0, 0), payload(1)),
        ]
    );
    for size in 1..=stream.len() {
        assert_eq!(decode_in_chunks(&stream, size), whole);
    }
    for cut in 0..=stream.len() {
        let mut parser = Parser::new();
        let mut recorder = Recorder::new();
        parser.decode(&stream[..cut], &mut recorder);
        parser.decode(&stream[cut..], &mut recorder);
        assert_eq!(recorder.received, whole);
    }
}

#[test]
fn a_stray_sync_byte_is_dropped_without_an_error() {
    let frame = Received::Frame(Header::from(Ctrl::from(0xC0), 1, 1024), vec![]);

    // in the same call
    let mut stream = vec![0x05, 0x00];
    stream.extend_from_slice(&LENGTH_FIVE);
    assert_eq!(decode_whole(&stream), vec![frame]);

    // in an earlier call
    let frame = Received::Frame(Header::from(Ctrl::from(0xC0), 1, 1024), vec![]);
    let mut parser = Parser::new();
    let mut recorder = Recorder::new();
    parser.decode(&[0x05], &mut recorder);
    parser.decode(&[0x63], &mut recorder);
    assert_eq!(recorder.received, vec![]);
    parser.decode(&LENGTH_FIVE, &mut recorder);
    assert_eq!(recorder.received, vec![frame]);

    // byte by byte
    let frame = Received::Frame(Header::from(Ctrl::from(0xC0), 1, 1024), vec![]);
    assert_eq!(decode_in_chunks(&stream, 1), vec![frame]);
}

#[test]
fn the_byte_behind_a_stray_sync_byte_is_dropped_with_it() {
    // the second 05 is taken for the byte behind the first and not for a sync byte
    let mut stream = vec![0x05];
    stream.extend_from_slice(&LENGTH_FIVE);
    assert_eq!(decode_whole(&stream), vec![]);
    assert_eq!(decode_in_chunks(&stream, 1), vec![]);
}

#[test]
fn noise_is_skipped_in_a_call_of_its_own() {
    let frame = Received::Frame(Header::from(Ctrl::from(0xC0), 1, 1024), vec![]);
    let mut parser = Parser::new();
    let mut recorder = Recorder::new();
    parser.decode(&[0x00, 0x64, 0xFF, 0x04, 0x06], &mut recorder);
    parser.decode(&LENGTH_FIVE, &mut recorder);
    assert_eq!(recorder.received, vec![frame]);
}

#[test]
fn a_frame_behind_noise_is_found_in_the_same_call() {
    let mut stream = vec![0xAA];
    stream.extend_from_slice(&LENGTH_FIVE);
    let got = decode_whole(&stream);
    assert_eq!(got, vec![Received::Frame(Header::from(Ctrl::from(0xC0), 1, 1024), vec![])]);

    for noise in 0..6 {
        let mut stream = vec![0x64; noise];
        stream.extend_from_slice(&TWENTY);
        let frame = Received::Frame(Header::from(Ctrl::from(0xC4), 3, 4), (1..=20).collect());
        assert_eq!(decode_whole(&stream), vec![frame]);
        for size in 1..stream.len() {
            let frame = Received::Frame(Header::from(Ctrl::from(0xC4), 3, 4), (1..=20).collect());
            assert_eq!(decode_in_chunks(&stream, size), vec![frame]);
        }
    }
}

#[test]
fn a_frame_behind_noise_and_a_false_start_is_found_in_the_same_call() {
    let mut stream = vec![0x17, 0x64, 0x05, 0x00, 0x01, 0xFF];
    stream.extend_from_slice(&LENGTH_FIVE);
    stream.extend_from_slice(&[0x00, 0x63]);
    stream.extend_from_slice(&TWENTY);
    let whole = decode_whole(&stream);
    assert_eq!(
        whole,
        vec![
            Received::Frame(Header::from(Ctrl::from(0xC0), 1, 1024), vec![]),
            Received::Frame(Header::from(Ctrl::from(0xC4), 3, 4), (1..=20).collect()),
        ]
    );
    for size in 1..stream.len() {
        assert_eq!(decode_in_chunks(&stream, size), whole);
    }
}

#[test]
fn an_empty_slice_changes_nothing() {
    let mut parser = Parser::new();
    let mut recorder = Recorder::new();
    parser.decode(&[], &mut recorder);
    for i in 0..TWENTY.len() {
        parser.decode(&TWENTY[i..i + 1], &mut recorder);
        parser.decode(&[], &mut recorder);
    }
    assert_eq!(
        recorder.received,
        vec![Received::Frame(Header::from(Ctrl::from(0xC4), 3, 4), (1..=20).collect())]
    );
}

#[test]
fn the_decoder_goes_on_after_each_kind_of_error() {
    let mut stream = Vec::new();
    stream.extend_from_slice(&[0x05, 0x64, 0x00, 0xC0, 0x01, 0x00, 0x00, 0x04, 0xE9, 0x21]);
    stream.extend_from_slice(&[0x05, 0x64, 0x05, 0xC0, 0x01, 0x00, 0x00, 0x04, 0xE9, 0x20]);
    let mut broken = TWENTY;
    broken[33] = 0;
    stream.extend_from_slice(&broken);
    stream.extend_from_slice(&LENGTH_FIVE);
    assert_eq!(
        decode_whole(&stream),
        vec![
            Received::Error(ParseError::BadLength(0)),
            Received::Error(ParseError::BadHeaderCRC),
            Received::Error(ParseError::BadBodyCRC),
            Received::Frame(Header::from(Ctrl::from(0xC0), 1, 1024), vec![]),
        ]
    );
}

#[test]
fn a_sync_pair_inside_a_header_starts_no_frame() {
    // destination 0x6405: the pair is data while a header is collected
    let frame = build_frame(0xC0, 0x6405, 2, &[]);
    assert_eq!(
        decode_whole(&frame),
        vec![Received::Frame(Header::from(Ctrl::from(0xC0), 0x6405, 2), vec![])]
    );
}

#[test]
fn the_hunt_consumes_the_noise_and_the_sync_byte() {
    let mut parser = Parser::new();
    assert_eq!(parser.wait_sync1(&[]), 0);
    assert_eq!(parser.wait_sync1(&[0xAA, 0x64, 0x00]), 3);
    assert_eq!(parser.wait_sync1(&[0xAA, 0x17, 0x05, 0x64, 0x05]), 3);
    // the decoder awaits the second sync byte now
    assert_eq!(parser.wait_sync2(&[]), 0);
    assert_eq!(parser.wait_sync2(&[0x64, 0x05]), 1);

    let mut parser = Parser::new();
    assert_eq!(parser.wait_sync1(&[0x05, 0x05]), 1);
    assert_eq!(parser.wait_sync2(&[0x05, 0x64]), 1);
    // back at the hunt: the rest of a frame is noise
    let mut recorder = Recorder::new();
    parser.decode(&LENGTH_FIVE[1..], &mut recorder);
    assert_eq!(recorder.received, vec![]);
}

#[test]
fn a_header_is_collected_from_where_it_stands() {
    let mut parser = Parser::new();
    let mut recorder = Recorder::new();
    assert_eq!(parser.wait_sync1(&LENGTH_FIVE), 1);
    assert_eq!(parser.wait_sync2(&LENGTH_FIVE[1..]), 1);
    assert_eq!(parser.decode_header(&LENGTH_FIVE[2..5], 2, &mut recorder), 3);
    assert_eq!(parser.decode_header(&[], 5, &mut recorder), 0);
    assert_eq!(recorder.received, vec![]);
    let mut more = LENGTH_FIVE[5..].to_vec();
    more.extend_from_slice(&[0x05, 0x64]);
    assert_eq!(parser.decode_header(&more, 5, &mut recorder), 5);
    assert_eq!(
        recorder.received,
        vec![Received::Frame(Header::from(Ctrl::from(0xC0), 1, 1024), vec![])]
    );
}

#[test]
fn a_body_is_collected_by_the_numbers_given() {
    // the checksum of a block of zeroes is 0xFFFF
    let mut body = vec![0u8; 16];
    body.extend_from_slice(&[0xFF, 0xFF, 0, 0, 0, 0, 0xFF, 0xFF]);
    assert_eq!(calc_crc(&[0u8; 16]), 0xFFFF);

    let mut parser = Parser::new();
    let mut recorder = Recorder::new();
    assert_eq!(parser.decode_body(&body, 0, 24, 20, &mut recorder), 24);
    assert_eq!(recorder.received, vec![Received::Frame(Header::default(), vec![0u8; 20])]);

    // in two parts, and with more behind the body than it takes
    let mut parser = Parser::new();
    let mut recorder = Recorder::new();
    assert_eq!(parser.decode_body(&body[..7], 0, 24, 20, &mut recorder), 7);
    assert_eq!(recorder.received, vec![]);
    body.extend_from_slice(&[0x05, 0x64]);
    assert_eq!(parser.decode_body(&body[7..], 7, 17, 20, &mut recorder), 17);
    assert_eq!(recorder.received, vec![Received::Frame(Header::default(), vec![0u8; 20])]);

    // a wrong checksum on the second block
    body[23] = 0xFE;
    let mut parser = Parser::new();
    let mut recorder = Recorder::new();
    assert_eq!(parser.decode_body(&body, 0, 24, 20, &mut recorder), 24);
    assert_eq!(recorder.received, vec![Received::Error(ParseError::BadBodyCRC)]);
}

#[test]
fn one_move_at_a_time() {
    let mut parser = Parser::new();
    let mut recorder = Recorder::new();
    let mut stream = vec![0x00, 0x01];
    stream.extend_from_slice(&TWENTY);
    stream.push(0x00);
    assert_eq!(parser.decode_one(&stream, &mut recorder), 3);
    assert_eq!(parser.decode_one(&stream[3..], &mut recorder), 1);
    assert_eq!(parser.decode_one(&stream[4..], &mut recorder), 8);
    assert_eq!(recorder.received, vec![]);
    assert_eq!(parser.decode_one(&stream[12..], &mut recorder), 24);
    assert_eq!(recorder.received.len(), 1);
    assert_eq!(parser.decode_one(&stream[36..], &mut recorder), 1);
    assert_eq!(parser.decode_one(&stream[37..], &mut recorder), 0);
}

#[test]
fn the_helpers_of_the_body() {
    assert_eq!(Parser::read_u16(&[0x00, 0x04]), 1024);
    assert_eq!(Parser::read_u16(&[0xE9, 0x21, 0xFF]), 0x21E9);
    assert!(Parser::verify_body_crc(&TWENTY[10..]));
    assert!(Parser::verify_body_crc(&[]));
    assert!(!Parser::verify_body_crc(&TWENTY[11..29]));
    let mut dest = [0xEEu8; 30];
    assert_eq!(Parser::extract_user_data(&TWENTY[10..], &mut dest), 20);
    let expected: Vec<u8> = (1..=20).collect();
    assert_eq!(dest[..20], expected[..]);
    assert_eq!(dest[20..], [0xEEu8; 10]);
    let mut room = [1u8, 2, 3, 4];
    Parser::mem_copy(&[9, 8], &mut room);
    assert_eq!(room, [9, 8, 3, 4]);
}
