use mini_rxtx::queue::QUEUE_CAPACITY;
use mini_rxtx::{serialize_msg, EncodeError, MiniTxRx, RxStatus, TxStatus};
use std::cell::RefCell;

/// Queues the frame of `payload` for sending.
fn send_payload(engine: &mut MiniTxRx, payload: &[u8]) -> Result<(), u8> {
    let mut buf = vec![0u8; payload.len() + 2];
    let encoded = serialize_msg(
        |area: &mut [u8]| -> Result<usize, EncodeError<&'static str>> {
            area.copy_from_slice(payload);
            Ok(payload.len())
        },
        &mut buf,
    );
    engine.send_msg(encoded.unwrap())
}

/// Pumps until nothing is left to send, with a write primitive that takes
/// every byte, and returns the bytes in the order in which they were taken.
fn drain(engine: &mut MiniTxRx) -> Vec<u8> {
    let sent = RefCell::new(Vec::new());
    loop {
        let before = sent.borrow().len();
        engine.pump(|byte: u8| {
            sent.borrow_mut().push(byte);
            TxStatus::Accepted
        });
        if sent.borrow().len() == before {
            break;
        }
    }
    sent.into_inner()
}

#[test]
fn fresh_engine_has_nothing_to_do() {
    let mut engine = MiniTxRx::new();
    let mut calls = 0;
    let received = engine.pump(|_byte: u8| {
        calls += 1;
        TxStatus::Accepted
    });
    assert_eq!(received, None);
    assert_eq!(calls, 0);
    assert!(!engine.inbound_is_full());
}

#[test]
fn received_bytes_come_out_in_their_order() {
    let mut engine = MiniTxRx::new();
    for byte in [3u8, 1, 4, 1, 5] {
        engine.on_interrupt(RxStatus::Byte(byte));
    }
    let mut got = Vec::new();
    while let Some(byte) = engine.pump(|_byte: u8| TxStatus::Accepted) {
        got.push(byte);
    }
    assert_eq!(got, vec![3, 1, 4, 1, 5]);
    assert_eq!(engine.pump(|_byte: u8| TxStatus::Accepted), None);
}

#[test]
fn answers_without_a_byte_change_nothing() {
    let mut engine = MiniTxRx::new();
    engine.on_interrupt(RxStatus::WouldBlock);
    engine.on_interrupt(RxStatus::Fault);
    assert_eq!(engine.pump(|_byte: u8| TxStatus::Accepted), None);
    engine.on_interrupt(RxStatus::Byte(9));
    engine.on_interrupt(RxStatus::WouldBlock);
    engine.on_interrupt(RxStatus::Fault);
    assert_eq!(engine.pump(|_byte: u8| TxStatus::Accepted), Some(9));
    assert_eq!(engine.pump(|_byte: u8| TxStatus::Accepted), None);
}

#[test]
fn inbound_queue_is_full_at_its_capacity() {
    assert_eq!(QUEUE_CAPACITY, 128);
    let mut engine = MiniTxRx::new();
    for i in 0..QUEUE_CAPACITY {
        assert!(!engine.inbound_is_full());
        engine.on_interrupt(RxStatus::Byte(i as u8));
    }
    assert!(engine.inbound_is_full());
    assert_eq!(engine.pump(|_byte: u8| TxStatus::Accepted), Some(0));
    assert!(!engine.inbound_is_full());
    engine.on_interrupt(RxStatus::Byte(200));
    assert!(engine.inbound_is_full());
    let mut got = Vec::new();
    while let Some(byte) = engine.pump(|_byte: u8| TxStatus::Accepted) {
        got.push(byte);
    }
    let mut expected: Vec<u8> = (1..QUEUE_CAPACITY).map(|i| i as u8).collect();
    expected.push(200);
    assert_eq!(got, expected);
}

#[test]
fn one_byte_is_offered_per_round_in_frame_order() {
    let mut engine = MiniTxRx::new();
    send_payload(&mut engine, &[7, 8, 9]).unwrap();
    let mut offered = Vec::new();
    for _ in 0..8 {
        let mut calls = 0;
        engine.pump(|byte: u8| {
            calls += 1;
            offered.push(byte);
            TxStatus::Accepted
        });
        assert!(calls <= 1);
    }
    assert_eq!(offered, vec![3, 0, 7, 8, 9]);
}

#[test]
fn blocked_byte_is_offered_again_before_the_next() {
    let mut engine = MiniTxRx::new();
    send_payload(&mut engine, &[7, 8, 9]).unwrap();
    // the write primitive blocks in rounds 2, 3 and 4, and in round 6
    let answers = [true, true, false, false, false, true, false, true, true, true, true];
    let mut offered = Vec::new();
    for accept in answers {
        engine.pump(|byte: u8| {
            offered.push(byte);
            if accept {
                TxStatus::Accepted
            } else {
                TxStatus::WouldBlock
            }
        });
    }
    assert_eq!(offered, vec![3, 0, 7, 7, 7, 7, 8, 8, 9]);
}

#[test]
fn accepted_held_byte_ends_the_round() {
    let mut engine = MiniTxRx::new();
    send_payload(&mut engine, &[7]).unwrap();
    let mut offered = Vec::new();
    engine.pump(|byte: u8| {
        offered.push(byte);
        TxStatus::WouldBlock
    });
    engine.pump(|byte: u8| {
        offered.push(byte);
        TxStatus::Accepted
    });
    assert_eq!(offered, vec![1, 1]);
    assert_eq!(drain(&mut engine), vec![0, 7]);
}

#[test]
fn frames_queued_while_a_byte_is_held_go_behind_it() {
    let mut engine = MiniTxRx::new();
    send_payload(&mut engine, &[1]).unwrap();
    engine.pump(|_byte: u8| TxStatus::WouldBlock);
    send_payload(&mut engine, &[2]).unwrap();
    assert_eq!(drain(&mut engine), vec![1, 0, 1, 1, 0, 2]);
}

#[test]
fn full_outbound_queue_refuses_a_frame_and_keeps_what_it_holds() {
    let mut engine = MiniTxRx::new();
    let payload: Vec<u8> = (0..126).map(|i| i as u8).collect();
    send_payload(&mut engine, &payload).unwrap();
    // the queue now holds its 128 bytes
    assert_eq!(send_payload(&mut engine, &[0xee]), Err(1));
    assert_eq!(send_payload(&mut engine, &[]), Err(0));
    let mut expected = vec![126u8, 0];
    expected.extend(payload);
    assert_eq!(drain(&mut engine), expected);
}

#[test]
fn frame_that_fits_only_in_part_is_queued_up_to_the_capacity() {
    let mut engine = MiniTxRx::new();
    let payload = vec![0x11u8; 123];
    send_payload(&mut engine, &payload).unwrap();
    // 125 bytes are queued: three more fit
    assert_eq!(send_payload(&mut engine, &[0xa, 0xb, 0xc]), Err(0xb));
    let mut expected = vec![123u8, 0];
    expected.extend(payload);
    expected.extend([3, 0, 0xa]);
    assert_eq!(drain(&mut engine), expected);
}

#[test]
fn frame_that_fills_the_queue_exactly_is_taken() {
    let mut engine = MiniTxRx::new();
    send_payload(&mut engine, &[0x22u8; 60]).unwrap();
    send_payload(&mut engine, &[0x33u8; 62]).unwrap();
    assert_eq!(send_payload(&mut engine, &[]), Ok(()));
    assert_eq!(send_payload(&mut engine, &[]), Err(0));
    assert_eq!(drain(&mut engine).len(), 128);
}

#[test]
fn held_byte_leaves_room_in_the_queue() {
    let mut engine = MiniTxRx::new();
    send_payload(&mut engine, &[0x44u8; 126]).unwrap();
    engine.pump(|_byte: u8| TxStatus::WouldBlock);
    // the held byte has left the queue, so one byte fits again
    assert_eq!(send_payload(&mut engine, &[5]), Err(0));
    let sent = drain(&mut engine);
    assert_eq!(sent.len(), 129);
    assert_eq!(&sent[..2], &[126, 0]);
    assert_eq!(sent[128], 1);
}

#[test]
fn both_directions_move_in_one_round() {
    let mut engine = MiniTxRx::new();
    send_payload(&mut engine, &[]).unwrap();
    engine.on_interrupt(RxStatus::Byte(42));
    let mut offered = Vec::new();
    let received = engine.pump(|byte: u8| {
        offered.push(byte);
        TxStatus::WouldBlock
    });
    assert_eq!(received, Some(42));
    assert_eq!(offered, vec![0]);
}

#[test]
fn queue_wraps_around_many_times() {
    let mut engine = MiniTxRx::new();
    let mut expected = Vec::new();
    let mut got = Vec::new();
    for round in 0..1000u32 {
        let byte = (round % 251) as u8;
        engine.on_interrupt(RxStatus::Byte(byte));
        expected.push(byte);
        if round % 3 != 0 {
            if let Some(b) = engine.pump(|_byte: u8| TxStatus::Accepted) {
                got.push(b);
            }
        }
        if engine.inbound_is_full() {
            while let Some(b) = engine.pump(|_byte: u8| TxStatus::Accepted) {
                got.push(b);
            }
        }
    }
    while let Some(b) = engine.pump(|_byte: u8| TxStatus::Accepted) {
        got.push(b);
    }
    assert_eq!(got, expected);
}

#[test]
fn failures_of_the_read_primitive_are_counted() {
    let mut engine = MiniTxRx::new();
    assert_eq!(engine.fault_count(), 0);
    engine.on_interrupt(RxStatus::WouldBlock);
    engine.on_interrupt(RxStatus::Byte(1));
    assert_eq!(engine.fault_count(), 0);
    engine.on_interrupt(RxStatus::Fault);
    engine.on_interrupt(RxStatus::Fault);
    engine.on_interrupt(RxStatus::Byte(2));
    engine.on_interrupt(RxStatus::Fault);
    assert_eq!(engine.fault_count(), 3);
    assert_eq!(engine.pump(|_byte: u8| TxStatus::Accepted), Some(1));
    assert_eq!(engine.pump(|_byte: u8| TxStatus::Accepted), Some(2));
    assert_eq!(engine.pump(|_byte: u8| TxStatus::Accepted), None);
    assert_eq!(engine.fault_count(), 3);
}

#[test]
fn stream_order_survives_interleaved_sends_and_blocked_rounds() {
    let mut engine = MiniTxRx::new();
    let mut queued = Vec::new();
    let mut accepted = Vec::new();
    for round in 0..400u32 {
        if round % 7 == 0 {
            let payload = [round as u8, (round >> 8) as u8, 0x5a];
            let frame = [3u8, 0, payload[0], payload[1], payload[2]];
            match send_payload(&mut engine, &payload) {
                Ok(()) => queued.extend(frame),
                Err(byte) => {
                    let fitted = frame.iter().position(|b| *b == byte).unwrap();
                    queued.extend(&frame[..fitted]);
                }
            }
        }
        let accept = round % 3 != 1;
        engine.pump(|byte: u8| {
            if accept {
                accepted.push(byte);
                TxStatus::Accepted
            } else {
                TxStatus::WouldBlock
            }
        });
    }
    accepted.extend(drain(&mut engine));
    assert_eq!(accepted, queued);
}
