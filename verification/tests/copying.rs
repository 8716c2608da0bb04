use rdd::config::{CopyArgs, CopyConfig, HashAlgorithm};
use rdd::digest::to_hex;
use rdd::engine::{Action, CopyEngine, Event, Phase, Step};
use rdd::error::RddError;
use rdd::memory::{copy_in_memory, run_in_memory};

fn pattern(len: usize) -> Vec<u8> {
    (0..len).map(|i| ((i * 7 + 3) % 251) as u8).collect()
}

fn job(bs: &str, count: u64, skip: u64, seek: u64) -> CopyConfig {
    CopyConfig::from_args(CopyArgs {
        input: "in.img".to_string(),
        output: "out.img".to_string(),
        bs: bs.to_string(),
        count,
        skip,
        seek,
        verify: None,
        progress: true,
        threads: 1,
        direct: false,
    })
    .unwrap()
}

#[test]
fn ten_thousand_bytes_in_three_blocks() {
    let input = pattern(10_000);
    let (written, result) = copy_in_memory(&job("4096", 0, 0, 0), &input);
    assert_eq!(written, input);
    assert_eq!(written.len(), 10_000);
    assert_eq!(result.blocks_copied, 3);
    assert_eq!(result.bytes_copied, 10_000);
    assert!(result.succeeded());
    assert!(result.verification_digest.is_none());
}

#[test]
fn write_requests_are_4096_4096_1808() {
    let mut engine = CopyEngine::new(&job("4096", 0, 0, 0));
    let mut left: usize = 10_000;
    let mut writes = Vec::new();
    let mut action = engine.advance(Event::Start);
    loop {
        let event = match action {
            Action::Read(len) => {
                let n = len.min(left);
                left -= n;
                Event::Read(n)
            }
            Action::Write(len) => {
                writes.push(len);
                Event::Completed
            }
            Action::Finish => break,
            Action::Abort(e) => panic!("{:?}", e),
            Action::OpenInput | Action::OpenOutput { .. } => Event::Opened(1),
            _ => Event::Completed,
        };
        action = engine.advance(event);
    }
    assert_eq!(writes, vec![4096, 4096, 1808]);
    assert_eq!(engine.blocks_copied, 3);
    assert_eq!(engine.bytes_copied, 10_000);
    assert_eq!(engine.phase(), Phase::Done);
}

#[test]
fn skip_two_blocks_of_512_starts_at_byte_1024() {
    let config = job("512", 0, 2, 0);
    assert_eq!(config.skip_bytes(), 1024);
    let mut engine = CopyEngine::new(&config);
    assert_eq!(engine.input_start, 1024);
    assert!(matches!(engine.advance(Event::Start), Action::OpenInput));
    assert!(matches!(engine.advance(Event::Opened(1)), Action::OpenOutput { truncate: true }));
    assert!(matches!(engine.advance(Event::Opened(1)), Action::SeekInput(1024)));
    assert_eq!(engine.phase(), Phase::Seeking);
    assert!(matches!(engine.advance(Event::Completed), Action::Read(512)));

    let input = pattern(10_000);
    let (written, result) = copy_in_memory(&config, &input);
    assert_eq!(written, input[1024..].to_vec());
    assert_eq!(result.bytes_copied, 10_000 - 1024);
    assert_eq!(result.blocks_copied, 18);
}

#[test]
fn input_shorter_than_count_stops_at_its_end() {
    let input = pattern(1000);
    let (written, result) = copy_in_memory(&job("300", 10, 0, 0), &input);
    assert_eq!(written, input);
    assert_eq!(result.bytes_copied, 1000);
    assert_eq!(result.blocks_copied, 4);
}

#[test]
fn count_limits_the_copy() {
    let input = pattern(10_000);
    let (written, result) = copy_in_memory(&job("1k", 3, 1, 0), &input);
    assert_eq!(written, input[1024..4096].to_vec());
    assert_eq!(result.blocks_copied, 3);
    assert_eq!(result.bytes_copied, 3072);
}

#[test]
fn skip_past_the_end_copies_nothing() {
    let input = pattern(100);
    let (written, result) = copy_in_memory(&job("64", 0, 5, 0), &input);
    assert!(written.is_empty());
    assert_eq!(result.blocks_copied, 0);
    assert_eq!(result.bytes_copied, 0);
    assert!(result.succeeded());
}

#[test]
fn empty_input_copies_nothing() {
    let (written, result) = copy_in_memory(&job("512k", 0, 0, 0), &[]);
    assert!(written.is_empty());
    assert_eq!(result.blocks_copied, 0);
    assert!(result.succeeded());
}

#[test]
fn copying_twice_gives_the_same_bytes() {
    let input = pattern(5000);
    let config = job("777", 0, 1, 0);
    let first = copy_in_memory(&config, &input);
    let second = copy_in_memory(&config, &input);
    assert_eq!(first.0, second.0);
    assert_eq!(first.1.blocks_copied, second.1.blocks_copied);
    assert_eq!(first.1.bytes_copied, second.1.bytes_copied);
}

#[test]
fn seek_moves_the_output_cursor_only() {
    let config = job("512", 0, 0, 3);
    assert_eq!(config.seek_bytes(), 1536);
    let mut engine = CopyEngine::new(&config);
    assert!(matches!(engine.advance(Event::Start), Action::OpenInput));
    assert!(matches!(engine.advance(Event::Opened(1)), Action::OpenOutput { truncate: true }));
    assert!(matches!(engine.advance(Event::Opened(1)), Action::SeekOutput(1536)));
    assert!(matches!(engine.advance(Event::Completed), Action::Read(512)));
    let input = pattern(700);
    let (written, _) = copy_in_memory(&config, &input);
    assert_eq!(written, input);
}

#[test]
fn a_short_read_is_written_short() {
    let mut engine = CopyEngine::new(&job("4096", 0, 0, 0));
    engine.advance(Event::Start);
    engine.advance(Event::Opened(512));
    assert!(matches!(engine.advance(Event::Opened(512)), Action::Read(4096)));
    assert!(matches!(engine.advance(Event::Read(17)), Action::Write(17)));
    assert!(matches!(engine.step, Step::Write(17)));
    assert!(matches!(engine.advance(Event::Completed), Action::Read(4096)));
    assert_eq!(engine.blocks_copied, 1);
    assert_eq!(engine.bytes_copied, 17);
    assert!(matches!(engine.advance(Event::Read(0)), Action::Flush));
    assert_eq!(engine.phase(), Phase::Flushing);
    assert!(matches!(engine.advance(Event::Completed), Action::Finish));
    assert_eq!(engine.phase(), Phase::Done);
    // A finished copy stays finished.
    assert!(matches!(engine.advance(Event::Read(5)), Action::Finish));
    assert_eq!(engine.phase(), Phase::Done);
}

#[test]
fn success_comes_only_after_the_flush() {
    let mut engine = CopyEngine::new(&job("8", 1, 0, 0));
    engine.advance(Event::Start);
    engine.advance(Event::Opened(1));
    engine.advance(Event::Opened(1));
    engine.advance(Event::Read(8));
    assert!(matches!(engine.advance(Event::Completed), Action::Flush));
    let failure = std::io::Error::new(std::io::ErrorKind::Other, "disk full");
    match engine.advance(Event::Failed(failure)) {
        Action::Abort(RddError::Io(cause)) => assert_eq!(cause.to_string(), "disk full"),
        other => panic!("{:?}", other),
    }
    assert_eq!(engine.phase(), Phase::Failed);
    assert_eq!(engine.blocks_copied, 1);
}

#[test]
fn any_io_failure_fails_the_copy_with_its_cause() {
    for steps in 0..4 {
        let mut engine = CopyEngine::new(&job("8", 0, 1, 1));
        engine.advance(Event::Start);
        for step in 0..steps {
            engine.advance(if step < 2 { Event::Opened(1) } else { Event::Completed });
        }
        let failure = std::io::Error::new(std::io::ErrorKind::NotFound, "gone");
        match engine.advance(Event::Failed(failure)) {
            Action::Abort(RddError::Io(cause)) => {
                assert_eq!(cause.kind(), std::io::ErrorKind::NotFound)
            }
            other => panic!("{:?}", other),
        }
        assert_eq!(engine.phase(), Phase::Failed);
        // A failed copy stays failed.
        assert!(matches!(engine.advance(Event::Completed), Action::Abort(RddError::Channel(_))));
        assert_eq!(engine.phase(), Phase::Failed);
    }
}

#[test]
fn events_that_were_not_asked_for_fail_the_copy() {
    let mut engine = CopyEngine::new(&job("8", 0, 0, 0));
    match engine.advance(Event::Completed) {
        Action::Abort(RddError::Channel(text)) => assert_eq!(
            text,
            "The copy engine received an event that it was not waiting for."
        ),
        other => panic!("{:?}", other),
    }

    let mut engine = CopyEngine::new(&job("8", 0, 0, 0));
    engine.advance(Event::Start);
    engine.advance(Event::Opened(1));
    assert!(matches!(engine.advance(Event::Opened(1)), Action::Read(8)));
    // More bytes than the buffer holds cannot have been read.
    assert!(matches!(engine.advance(Event::Read(9)), Action::Abort(RddError::Channel(_))));
    assert_eq!(engine.phase(), Phase::Failed);
}

#[test]
fn a_range_without_blocks_only_opens_and_flushes() {
    let mut engine = CopyEngine::for_range(16, Some(0), 32, 32, false, false);
    assert!(matches!(engine.advance(Event::Start), Action::OpenInput));
    assert!(matches!(engine.advance(Event::Opened(1)), Action::OpenOutput { truncate: false }));
    assert!(matches!(engine.advance(Event::Opened(1)), Action::SeekInput(32)));
    assert!(matches!(engine.advance(Event::Completed), Action::SeekOutput(32)));
    assert!(matches!(engine.advance(Event::Completed), Action::Flush));
    assert!(matches!(engine.advance(Event::Completed), Action::Finish));
}

#[test]
fn digest_of_the_copied_region() {
    let input = pattern(10_000);
    let engine = CopyEngine::for_range(512, None, 1024, 0, true, false);
    let (written, result) = run_in_memory(engine, &input, Some(HashAlgorithm::Sha256));
    assert_eq!(written, input[1024..].to_vec());
    assert_eq!(
        to_hex(&result.verification_digest.unwrap()),
        "e881ce202637c962782bf9f9479098597a9bc5bccb709f23901111b9721f04fa"
    );

    let engine = CopyEngine::for_range(512, Some(3), 1024, 0, true, false);
    let (_, result) = run_in_memory(engine, &input, Some(HashAlgorithm::Sha256));
    assert_eq!(
        to_hex(&result.verification_digest.unwrap()),
        "ef132bfd73ac9025bdf245451a08217efab1efc7a6ceba98d242f616e973c7cc"
    );
}

#[test]
fn direct_io_takes_devices_that_suit_the_blocks() {
    let mut engine = CopyEngine::for_range(4096, None, 0, 0, true, true);
    assert!(matches!(engine.advance(Event::Start), Action::OpenInput));
    assert!(matches!(engine.advance(Event::Opened(512)), Action::OpenOutput { truncate: true }));
    assert!(matches!(engine.advance(Event::Opened(4096)), Action::Read(4096)));
}

#[test]
fn direct_io_fails_at_open_on_a_device_that_does_not_suit() {
    let mut engine = CopyEngine::for_range(4096, None, 0, 0, true, true);
    engine.advance(Event::Start);
    match engine.advance(Event::Opened(8192)) {
        Action::Abort(RddError::Config(text)) => assert_eq!(
            text,
            "Block size of 4096 bytes is not a multiple of the alignment of 8192 bytes that direct I/O requires."
        ),
        other => panic!("{:?}", other),
    }
    assert_eq!(engine.phase(), Phase::Failed);

    // The output is held against its own device.
    let mut engine = CopyEngine::for_range(1000, None, 0, 0, true, true);
    engine.advance(Event::Start);
    assert!(matches!(engine.advance(Event::Opened(8)), Action::OpenOutput { .. }));
    assert!(matches!(engine.advance(Event::Opened(512)), Action::Abort(RddError::Config(_))));
    assert_eq!(engine.bytes_copied, 0);

    // Without direct I/O any device will do.
    let mut engine = CopyEngine::for_range(1000, None, 0, 0, true, false);
    engine.advance(Event::Start);
    assert!(matches!(engine.advance(Event::Opened(512)), Action::OpenOutput { .. }));
    assert!(matches!(engine.advance(Event::Opened(0)), Action::Read(1000)));
}

#[test]
fn an_open_is_not_answered_like_a_write() {
    let mut engine = CopyEngine::new(&job("8", 0, 0, 0));
    engine.advance(Event::Start);
    assert!(matches!(engine.advance(Event::Completed), Action::Abort(RddError::Channel(_))));
}
