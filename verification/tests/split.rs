use split_keyboard::channel::{ChannelError, EventChannel};
use split_keyboard::config::HalfConfig;
use split_keyboard::event::{KeyEvent, LogicalCoordinate};
use split_keyboard::layout::{left_half, right_half};
use split_keyboard::split::{encode_frame, DecoderState, FrameDecoder, SplitFrame, FRAME_MARKER};

#[test]
fn frame_has_marker_row_column_and_level() {
    let f = SplitFrame { row: 3, col: 7, pressed: true };
    assert_eq!(encode_frame(f), Some([0xA5, 3, 7, 1]));
    let g = SplitFrame { row: 0, col: 127, pressed: false };
    assert_eq!(encode_frame(g), Some([FRAME_MARKER, 0, 127, 0]));
}

#[test]
fn frame_with_large_coordinate_cannot_be_sent() {
    assert_eq!(encode_frame(SplitFrame { row: 128, col: 0, pressed: true }), None);
    assert_eq!(encode_frame(SplitFrame { row: 0, col: 0xA5, pressed: true }), None);
}

#[test]
fn malformed_frame_then_well_formed_frame_delivers_one() {
    let mut d = FrameDecoder::new();
    let bytes = vec![0xA5, 1, 2, 7, 0xA5, 0, 3, 1];
    assert_eq!(d.feed_all(&bytes), vec![SplitFrame { row: 0, col: 3, pressed: true }]);
    assert_eq!(d.state(), DecoderState::Idle);
}

#[test]
fn partial_frame_is_dropped_at_the_next_marker() {
    let mut d = FrameDecoder::new();
    let bytes = vec![0xA5, 4, 0xA5, 2, 5, 0];
    assert_eq!(d.feed_all(&bytes), vec![SplitFrame { row: 2, col: 5, pressed: false }]);
}

#[test]
fn bytes_outside_a_frame_are_skipped() {
    let mut d = FrameDecoder::new();
    assert_eq!(d.feed_all(&vec![0, 1, 2, 1, 0x80, 0xFF]), vec![]);
    assert_eq!(d.state(), DecoderState::Idle);
    assert_eq!(d.feed_all(&vec![0xA5, 0x80, 1, 1]), vec![]);
}

#[test]
fn decoder_walks_through_its_states() {
    let mut d = FrameDecoder::new();
    assert_eq!(d.feed(0xA5), None);
    assert_eq!(d.state(), DecoderState::Marker);
    assert_eq!(d.feed(4), None);
    assert_eq!(d.state(), DecoderState::Row(4));
    assert_eq!(d.feed(6), None);
    assert_eq!(d.state(), DecoderState::Col(4, 6));
    assert_eq!(d.feed(1), Some(SplitFrame { row: 4, col: 6, pressed: true }));
    assert_eq!(d.state(), DecoderState::Idle);
}

#[test]
fn frames_arrive_in_the_order_sent() {
    let frames = vec![
        SplitFrame { row: 0, col: 0, pressed: true },
        SplitFrame { row: 4, col: 7, pressed: true },
        SplitFrame { row: 0, col: 0, pressed: false },
        SplitFrame { row: 1, col: 1, pressed: true },
    ];
    let mut bytes = vec![9u8, 0xA5, 3];
    for f in &frames {
        bytes.extend_from_slice(&encode_frame(*f).unwrap());
    }
    let mut d = FrameDecoder::new();
    assert_eq!(d.feed_all(&bytes), frames);
}

#[test]
fn frame_split_over_two_reads_is_received() {
    let mut d = FrameDecoder::new();
    assert_eq!(d.feed_all(&vec![0xA5, 2]), vec![]);
    assert_eq!(d.feed_all(&vec![3, 1]), vec![SplitFrame { row: 2, col: 3, pressed: true }]);
}

#[test]
fn half_maps_local_coordinates() {
    let right = right_half();
    assert_eq!(right.to_logical(0, 0), Some(LogicalCoordinate { row: 0, col: 8 }));
    assert_eq!(right.to_logical(4, 7), Some(LogicalCoordinate { row: 4, col: 15 }));
    assert_eq!(right.to_logical(5, 0), None);
    assert_eq!(right.to_logical(0, 8), None);
    assert_eq!(left_half().to_logical(4, 7), Some(LogicalCoordinate { row: 4, col: 7 }));
    assert!(!left_half().overlaps_with(&right));
    assert!(left_half().overlaps_with(&left_half()));
    assert!(right.fits_in(5, 16));
    assert!(!right.fits_in(5, 15));
}

#[test]
fn half_configuration_is_validated() {
    assert!(HalfConfig::new(0, 0, 0, 8).is_none());
    assert!(HalfConfig::new(0, 0, 5, 0).is_none());
    assert!(HalfConfig::new(252, 0, 5, 8).is_none());
    assert!(HalfConfig::new(0, 249, 5, 8).is_none());
    assert_eq!(
        HalfConfig::new(251, 248, 5, 8),
        Some(HalfConfig { row_offset: 251, col_offset: 248, rows: 5, cols: 8 })
    );
}

#[test]
fn channel_needs_a_capacity() {
    assert!(EventChannel::new(0).is_none());
    let c = EventChannel::new(3).unwrap();
    assert_eq!((c.len(), c.capacity(), c.is_empty(), c.is_full()), (0, 3, true, false));
}

#[test]
fn channel_numbers_events_and_keeps_their_order() {
    let mut c = EventChannel::new(4).unwrap();
    let a = LogicalCoordinate { row: 1, col: 2 };
    let b = LogicalCoordinate { row: 0, col: 9 };
    assert_eq!(c.push(a, true), Ok(None));
    assert_eq!(c.push(b, true), Ok(None));
    assert_eq!(c.push(a, false), Ok(None));
    assert_eq!(c.len(), 3);
    assert_eq!(c.pop(), Some(KeyEvent { coordinate: a, pressed: true, sequence: 0 }));
    assert_eq!(c.pop(), Some(KeyEvent { coordinate: b, pressed: true, sequence: 1 }));
    assert_eq!(c.pop(), Some(KeyEvent { coordinate: a, pressed: false, sequence: 2 }));
    assert_eq!(c.pop(), None);
    assert_eq!(c.push(b, false), Ok(None));
    assert_eq!(c.pop(), Some(KeyEvent { coordinate: b, pressed: false, sequence: 3 }));
}

#[test]
fn full_channel_drops_the_oldest() {
    let mut c = EventChannel::new(2).unwrap();
    let a = LogicalCoordinate { row: 0, col: 0 };
    assert_eq!(c.push(a, true), Ok(None));
    assert_eq!(c.push(a, false), Ok(None));
    assert!(c.is_full());
    assert_eq!(
        c.push(a, true),
        Ok(Some(KeyEvent { coordinate: a, pressed: true, sequence: 0 }))
    );
    assert_eq!(c.len(), 2);
    assert_eq!(c.pop(), Some(KeyEvent { coordinate: a, pressed: false, sequence: 1 }));
    assert_eq!(c.pop(), Some(KeyEvent { coordinate: a, pressed: true, sequence: 2 }));
}

#[test]
fn channel_takes_events_of_both_halves() {
    let mut c = EventChannel::new(8).unwrap();
    assert_eq!(c.push_from_half(&right_half(), 1, 2, true), Ok(None));
    assert_eq!(c.push_from_half(&left_half(), 1, 2, true), Ok(None));
    assert_eq!(c.push_from_half(&right_half(), 5, 2, true), Err(ChannelError::OutOfRange));
    assert_eq!(c.push_from_half(&right_half(), 1, 8, true), Err(ChannelError::OutOfRange));
    assert_eq!(
        c.pop(),
        Some(KeyEvent { coordinate: LogicalCoordinate { row: 1, col: 10 }, pressed: true, sequence: 0 })
    );
    assert_eq!(
        c.pop(),
        Some(KeyEvent { coordinate: LogicalCoordinate { row: 1, col: 2 }, pressed: true, sequence: 1 })
    );
    assert_eq!(c.pop(), None);
}

#[test]
fn channel_stops_when_the_numbers_run_out() {
    assert!(EventChannel::starting_at(0, 5).is_none());
    let mut c = EventChannel::starting_at(2, u64::MAX - 1).unwrap();
    let a = LogicalCoordinate { row: 0, col: 0 };
    assert_eq!(c.next_sequence(), u64::MAX - 1);
    assert_eq!(c.push(a, true), Ok(None));
    assert_eq!(c.next_sequence(), u64::MAX);
    assert_eq!(c.push(a, false), Err(ChannelError::SequenceExhausted));
    assert_eq!(c.push_from_half(&left_half(), 0, 0, false), Err(ChannelError::SequenceExhausted));
    assert_eq!(c.len(), 1);
    assert_eq!(c.pop(), Some(KeyEvent { coordinate: a, pressed: true, sequence: u64::MAX - 1 }));
}
