use mini_rxtx::{serialize_msg_owned, Decoded, Decoder, EncodeError, Error, StdDecoder};

type Outcome = Decoded<Vec<u8>, &'static str>;

/// A payload decoder that hands the payload back as it came.
fn read_payload(payload: &[u8]) -> Result<(Vec<u8>, usize), &'static str> {
    Ok((payload.to_vec(), payload.len()))
}

/// A payload decoder that refuses payloads that start with a zero byte.
fn refuse_leading_zero(payload: &[u8]) -> Result<(Vec<u8>, usize), &'static str> {
    if payload.first() == Some(&0) {
        Err("leading zero")
    } else {
        Ok((payload.to_vec(), payload.len()))
    }
}

/// A payload decoder that refuses the empty payload.
fn refuse_empty(payload: &[u8]) -> Result<(Vec<u8>, usize), &'static str> {
    if payload.is_empty() {
        Err("empty")
    } else {
        Ok((payload.to_vec(), payload.len()))
    }
}

fn frame_of(payload: &[u8]) -> Vec<u8> {
    let out = serialize_msg_owned(|area: &mut [u8]| -> Result<usize, EncodeError<&'static str>> {
        area[..payload.len()].copy_from_slice(payload);
        Ok(payload.len())
    });
    out.unwrap()
}

/// What the outcome is, in a form that can be compared.
fn shape(outcome: Outcome) -> Result<Option<Vec<u8>>, String> {
    match outcome {
        Decoded::Msg(payload) => Ok(Some(payload)),
        Decoded::FrameNotYetComplete => Ok(None),
        Decoded::Error(Error::SerializeError(e)) => Err(format!("codec: {}", e)),
        Decoded::Error(Error::TooLong) => Err("TooLong".to_string()),
        Decoded::Error(Error::PreviousError) => Err("PreviousError".to_string()),
        Decoded::Error(Error::Incomplete) => Err("Incomplete".to_string()),
        Decoded::Error(Error::ExtraCharactersFound) => Err("ExtraCharactersFound".to_string()),
    }
}

fn too_long() -> Result<Option<Vec<u8>>, String> {
    Err("TooLong".to_string())
}

fn previous_error() -> Result<Option<Vec<u8>>, String> {
    Err("PreviousError".to_string())
}

#[test]
fn every_byte_but_the_last_leaves_the_frame_incomplete() {
    let payload = [10u8, 20, 30, 40, 50];
    let frame = frame_of(&payload);
    assert_eq!(frame.len(), 7);
    let mut scratch = [0u8; 16];
    let mut decoder = Decoder::new(&mut scratch);
    for (i, byte) in frame.iter().enumerate() {
        let outcome = shape(decoder.consume(*byte, &read_payload));
        if i + 1 < frame.len() {
            assert_eq!(outcome, Ok(None));
        } else {
            assert_eq!(outcome, Ok(Some(payload.to_vec())));
        }
    }
}

#[test]
fn std_decoder_streams_like_the_borrowing_one() {
    let payload = [10u8, 20, 30, 40, 50];
    let frame = frame_of(&payload);
    let mut decoder = StdDecoder::new(16);
    for (i, byte) in frame.iter().enumerate() {
        let outcome = shape(decoder.consume(*byte, &read_payload));
        if i + 1 < frame.len() {
            assert_eq!(outcome, Ok(None));
        } else {
            assert_eq!(outcome, Ok(Some(payload.to_vec())));
        }
    }
}

#[test]
fn empty_frame_completes_with_its_length_prefix() {
    let mut scratch = [0u8; 4];
    let mut decoder = Decoder::new(&mut scratch);
    assert_eq!(shape(decoder.consume(0, &read_payload)), Ok(None));
    assert_eq!(shape(decoder.consume(0, &read_payload)), Ok(Some(vec![])));
    // the decoder is between frames again
    assert_eq!(shape(decoder.consume(1, &read_payload)), Ok(None));
    assert_eq!(shape(decoder.consume(0, &read_payload)), Ok(None));
    assert_eq!(shape(decoder.consume(77, &read_payload)), Ok(Some(vec![77])));
}

#[test]
fn empty_frame_passes_the_codec_answer_through() {
    let mut decoder = StdDecoder::new(0);
    assert_eq!(shape(decoder.consume(0, &refuse_empty)), Ok(None));
    assert_eq!(shape(decoder.consume(0, &refuse_empty)), Err("codec: empty".to_string()));
}

#[test]
fn oversized_length_prefix_latches_the_decoder() {
    let mut scratch = [0u8; 4];
    let mut decoder = Decoder::new(&mut scratch);
    assert_eq!(shape(decoder.consume(5, &read_payload)), Ok(None));
    assert_eq!(shape(decoder.consume(0, &read_payload)), too_long());
    for byte in [0u8, 0, 1, 0, 9, 255, 3] {
        assert_eq!(shape(decoder.consume(byte, &read_payload)), previous_error());
    }
}

#[test]
fn std_decoder_latches_on_an_oversized_length_prefix() {
    let mut decoder = StdDecoder::new(255);
    assert_eq!(shape(decoder.consume(0, &read_payload)), Ok(None));
    assert_eq!(shape(decoder.consume(1, &read_payload)), too_long());
    for _ in 0..300 {
        assert_eq!(shape(decoder.consume(0, &read_payload)), previous_error());
    }
}

#[test]
fn length_prefix_equal_to_the_capacity_is_accepted() {
    let mut scratch = [0u8; 3];
    let mut decoder = Decoder::new(&mut scratch);
    assert_eq!(shape(decoder.consume(3, &read_payload)), Ok(None));
    assert_eq!(shape(decoder.consume(0, &read_payload)), Ok(None));
    assert_eq!(shape(decoder.consume(1, &read_payload)), Ok(None));
    assert_eq!(shape(decoder.consume(2, &read_payload)), Ok(None));
    assert_eq!(shape(decoder.consume(3, &read_payload)), Ok(Some(vec![1, 2, 3])));
}

#[test]
fn length_prefix_is_read_low_byte_first() {
    let mut decoder = StdDecoder::new(300);
    assert_eq!(shape(decoder.consume(0x2c, &read_payload)), Ok(None));
    assert_eq!(shape(decoder.consume(0x01, &read_payload)), Ok(None));
    for _ in 0..299 {
        assert_eq!(shape(decoder.consume(8, &read_payload)), Ok(None));
    }
    assert_eq!(shape(decoder.consume(8, &read_payload)), Ok(Some(vec![8u8; 300])));
}

#[test]
fn high_byte_of_the_length_prefix_counts_256() {
    let mut decoder = StdDecoder::new(255);
    assert_eq!(shape(decoder.consume(0xff, &read_payload)), Ok(None));
    assert_eq!(shape(decoder.consume(0x00, &read_payload)), Ok(None));
    let mut decoder = StdDecoder::new(255);
    assert_eq!(shape(decoder.consume(0x00, &read_payload)), Ok(None));
    assert_eq!(shape(decoder.consume(0x01, &read_payload)), too_long());
}

#[test]
fn two_frames_in_a_row_give_two_messages_in_order() {
    let first = [1u8, 2, 3];
    let second = [4u8, 5];
    let mut stream = frame_of(&first);
    stream.extend(frame_of(&second));
    let mut scratch = [0u8; 8];
    let mut decoder = Decoder::new(&mut scratch);
    let mut outcomes = Vec::new();
    for byte in stream.iter() {
        outcomes.push(shape(decoder.consume(*byte, &read_payload)));
    }
    assert_eq!(
        outcomes,
        vec![
            Ok(None),
            Ok(None),
            Ok(None),
            Ok(None),
            Ok(Some(vec![1, 2, 3])),
            Ok(None),
            Ok(None),
            Ok(None),
            Ok(Some(vec![4, 5])),
        ]
    );
}

#[test]
fn shorter_frame_after_a_longer_one_does_not_see_old_bytes() {
    let mut stream = frame_of(&[9, 9, 9, 9]);
    stream.extend(frame_of(&[1]));
    let mut decoder = StdDecoder::new(4);
    let mut messages = Vec::new();
    for byte in stream.iter() {
        if let Decoded::Msg(payload) = decoder.consume(*byte, &read_payload) {
            messages.push(payload);
        }
    }
    assert_eq!(messages, vec![vec![9, 9, 9, 9], vec![1]]);
}

#[test]
fn payload_that_does_not_decode_leaves_the_stream_in_step() {
    let mut stream = frame_of(&[0, 7]);
    stream.extend(frame_of(&[6, 7]));
    let mut scratch = [0u8; 8];
    let mut decoder = Decoder::new(&mut scratch);
    let mut outcomes = Vec::new();
    for byte in stream.iter() {
        outcomes.push(shape(decoder.consume(*byte, &refuse_leading_zero)));
    }
    assert_eq!(
        outcomes,
        vec![
            Ok(None),
            Ok(None),
            Ok(None),
            Err("codec: leading zero".to_string()),
            Ok(None),
            Ok(None),
            Ok(None),
            Ok(Some(vec![6, 7])),
        ]
    );
}

#[test]
fn from_decode_keeps_the_message_and_drops_the_count() {
    let ok: Outcome = Decoded::from_decode(Ok((vec![1, 2], 2)));
    assert_eq!(shape(ok), Ok(Some(vec![1, 2])));
    let err: Outcome = Decoded::from_decode(Err("bad"));
    assert_eq!(shape(err), Err("codec: bad".to_string()));
}

#[test]
fn decoder_without_a_buffer_takes_only_empty_frames() {
    let mut scratch = [0u8; 0];
    let mut decoder = Decoder::new(&mut scratch);
    assert_eq!(shape(decoder.consume(0, &read_payload)), Ok(None));
    assert_eq!(shape(decoder.consume(0, &read_payload)), Ok(Some(vec![])));
    assert_eq!(shape(decoder.consume(1, &read_payload)), Ok(None));
    assert_eq!(shape(decoder.consume(0, &read_payload)), too_long());
    assert_eq!(shape(decoder.consume(0, &read_payload)), previous_error());
}

#[test]
fn refused_length_prefix_writes_nothing_into_the_buffer() {
    let mut scratch = [0u8; 4];
    {
        let mut decoder = Decoder::new(&mut scratch);
        assert_eq!(shape(decoder.consume(0x05, &read_payload)), Ok(None));
        assert_eq!(shape(decoder.consume(0x00, &read_payload)), too_long());
        assert_eq!(shape(decoder.consume(0x01, &read_payload)), previous_error());
        assert_eq!(shape(decoder.consume(0x00, &read_payload)), previous_error());
        assert_eq!(shape(decoder.consume(0x2a, &read_payload)), previous_error());
    }
    assert_eq!(scratch, [0, 0, 0, 0]);
}

#[test]
fn each_payload_byte_is_stored_at_its_place_and_nowhere_else() {
    let mut scratch = [0xeeu8; 5];
    {
        let mut decoder = Decoder::new(&mut scratch);
        for byte in [3u8, 0, 10, 20] {
            assert_eq!(shape(decoder.consume(byte, &read_payload)), Ok(None));
        }
    }
    assert_eq!(scratch, [10, 20, 0xee, 0xee, 0xee]);
    {
        let mut decoder = Decoder::new(&mut scratch);
        for byte in [2u8, 0, 7] {
            assert_eq!(shape(decoder.consume(byte, &read_payload)), Ok(None));
        }
        assert_eq!(shape(decoder.consume(8, &read_payload)), Ok(Some(vec![7, 8])));
        assert_eq!(shape(decoder.consume(1, &read_payload)), Ok(None));
    }
    assert_eq!(scratch, [7, 8, 0xee, 0xee, 0xee]);
}
