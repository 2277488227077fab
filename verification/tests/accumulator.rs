use kernel_transport::drivers::accumulator::{AccError, Accumulator};

/// Feeds `window` until nothing of it is left and collects the frames.
fn feed_all<const N: usize>(acc: &mut Accumulator<N>, window: &[u8], frames: &mut Vec<Vec<u8>>) {
    let mut window = window;
    while !window.is_empty() {
        match acc.feed(window) {
            Ok(Some(mut done)) => {
                frames.push(done.msg.as_mut_slice().to_vec());
                window = done.remainder;
            }
            Ok(None) => window = &[],
            Err(AccError::NoRoomNoRem) => window = &[],
            Err(AccError::NoRoomWithRem(rem)) => window = rem,
        }
    }
}

#[test]
fn frame_completes_across_two_windows() {
    let mut acc = Accumulator::<4>::new();
    assert!(matches!(acc.feed(b"AB"), Ok(None)));
    match acc.feed(b"CD\x00") {
        Ok(Some(mut frame)) => {
            assert_eq!(frame.msg.as_mut_slice(), b"ABCD");
            assert_eq!(frame.msg.len(), 4);
            assert!(frame.remainder.is_empty());
        }
        _ => panic!("expected a frame"),
    }
}

#[test]
fn overflow_resets_the_accumulator() {
    let mut acc = Accumulator::<4>::new();
    assert!(matches!(acc.feed(b"ABCDE\x00"), Err(AccError::NoRoomNoRem)));
    match acc.feed(b"X\x00") {
        Ok(Some(mut frame)) => {
            assert_eq!(frame.msg.as_mut_slice(), b"X");
            assert!(frame.remainder.is_empty());
        }
        _ => panic!("expected a frame"),
    }
}

#[test]
fn overflow_with_bytes_after_the_sentinel() {
    let mut acc = Accumulator::<4>::new();
    match acc.feed(b"ABCDE\x00YZ") {
        Err(AccError::NoRoomWithRem(rem)) => assert_eq!(rem, b"YZ"),
        _ => panic!("expected an overflow with a remainder"),
    }
    match acc.feed(b"YZ\x00") {
        Ok(Some(mut frame)) => assert_eq!(frame.msg.as_mut_slice(), b"YZ"),
        _ => panic!("expected a frame"),
    }
}

#[test]
fn overflow_without_sentinel_drops_what_was_held() {
    let mut acc = Accumulator::<4>::new();
    assert!(matches!(acc.feed(b"ABC"), Ok(None)));
    assert!(matches!(acc.feed(b"DE"), Err(AccError::NoRoomNoRem)));
    match acc.feed(b"F\x00") {
        Ok(Some(mut frame)) => assert_eq!(frame.msg.as_mut_slice(), b"F"),
        _ => panic!("expected a frame"),
    }
}

#[test]
fn held_bytes_count_against_the_capacity() {
    let mut acc = Accumulator::<4>::new();
    assert!(matches!(acc.feed(b"ABC"), Ok(None)));
    match acc.feed(b"DE\x00Q") {
        Err(AccError::NoRoomWithRem(rem)) => assert_eq!(rem, b"Q"),
        _ => panic!("expected an overflow with a remainder"),
    }
}

#[test]
fn frame_of_exactly_the_capacity_fits() {
    let mut acc = Accumulator::<4>::new();
    match acc.feed(b"ABCD\x00") {
        Ok(Some(mut frame)) => assert_eq!(frame.msg.as_mut_slice(), b"ABCD"),
        _ => panic!("expected a frame"),
    }
}

#[test]
fn empty_window_changes_nothing() {
    let mut acc = Accumulator::<4>::new();
    assert!(matches!(acc.feed(b"A"), Ok(None)));
    assert!(matches!(acc.feed(b""), Ok(None)));
    match acc.feed(b"\x00") {
        Ok(Some(mut frame)) => assert_eq!(frame.msg.as_mut_slice(), b"A"),
        _ => panic!("expected a frame"),
    }
}

#[test]
fn lone_sentinel_gives_an_empty_frame() {
    let mut acc = Accumulator::<4>::new();
    match acc.feed(b"\x00\x00") {
        Ok(Some(mut frame)) => {
            assert!(frame.msg.as_mut_slice().is_empty());
            assert_eq!(frame.remainder, b"\x00");
        }
        _ => panic!("expected a frame"),
    }
}

#[test]
fn remainder_holds_the_next_frame() {
    let mut acc = Accumulator::<8>::new();
    match acc.feed(b"ab\x00cd\x00e") {
        Ok(Some(mut frame)) => {
            assert_eq!(frame.msg.as_mut_slice(), b"ab");
            assert_eq!(frame.remainder, b"cd\x00e");
        }
        _ => panic!("expected a frame"),
    }
}

#[test]
fn frames_do_not_depend_on_how_the_stream_is_cut() {
    let stream: &[u8] = b"abc\x00\x00defgh\x00i\x00jk";
    let mut whole = Vec::new();
    let mut acc = Accumulator::<8>::new();
    feed_all(&mut acc, stream, &mut whole);
    assert_eq!(
        whole,
        vec![b"abc".to_vec(), b"".to_vec(), b"defgh".to_vec(), b"i".to_vec()]
    );
    for first in 0..=stream.len() {
        for second in first..=stream.len() {
            let mut frames = Vec::new();
            let mut acc = Accumulator::<8>::new();
            feed_all(&mut acc, &stream[..first], &mut frames);
            feed_all(&mut acc, &stream[first..second], &mut frames);
            feed_all(&mut acc, &stream[second..], &mut frames);
            assert_eq!(frames, whole);
            // Both accumulators hold "jk" now.
            let mut after = Vec::new();
            feed_all(&mut acc, b"\x00", &mut after);
            assert_eq!(after, vec![b"jk".to_vec()]);
        }
    }
}

#[test]
fn frames_come_out_byte_by_byte() {
    let stream: &[u8] = b"one\x00two\x00";
    let mut frames = Vec::new();
    let mut acc = Accumulator::<4>::new();
    for byte in stream {
        feed_all(&mut acc, &[*byte], &mut frames);
    }
    assert_eq!(frames, vec![b"one".to_vec(), b"two".to_vec()]);
}
