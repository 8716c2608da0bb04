use rdd::config::HashAlgorithm;
use rdd::digest::{digest_bytes, to_hex};
use rdd::engine::{Action, CopyEngine, Event, Phase};
use rdd::error::RddError;
use rdd::session::CopySession;

/// Runs a session over `input` with a buffer that keeps what earlier blocks
/// left in it, and returns what was written.
fn run(session: &mut CopySession, input: &[u8], block_size: usize) -> Vec<u8> {
    let mut buffer = vec![0xeeu8; block_size];
    let mut written = Vec::new();
    let mut at = 0;
    let mut action = session.advance(Event::Start, &buffer);
    loop {
        let event = match action {
            Action::OpenInput | Action::OpenOutput { .. } => Event::Opened(1),
            Action::SeekInput(offset) => {
                at = (offset as usize).min(input.len());
                Event::Completed
            }
            Action::Read(len) => {
                let n = len.min(input.len() - at);
                buffer[..n].copy_from_slice(&input[at..at + n]);
                at += n;
                Event::Read(n)
            }
            Action::Write(len) => {
                written.extend_from_slice(&buffer[..len]);
                Event::Completed
            }
            Action::Finish => return written,
            Action::Abort(e) => panic!("{:?}", e),
            _ => Event::Completed,
        };
        action = session.advance(event, &buffer);
    }
}

#[test]
fn the_digest_covers_what_was_written_and_nothing_else() {
    let input: Vec<u8> = (0..1000u32).map(|i| (i % 251) as u8).collect();
    for algorithm in [HashAlgorithm::Sha256, HashAlgorithm::Blake3] {
        let engine = CopyEngine::for_range(300, None, 100, 0, true, false);
        let mut session = CopySession::new(engine, Some(algorithm));
        let written = run(&mut session, &input, 300);
        assert_eq!(written, input[100..].to_vec());
        assert_eq!(session.blocks_copied(), 3);
        assert_eq!(session.bytes_copied(), 900);
        assert_eq!(session.phase(), Phase::Done);
        let result = session.result(None);
        assert_eq!(
            to_hex(&result.verification_digest.unwrap()),
            to_hex(&digest_bytes(algorithm, &input[100..]).unwrap())
        );
        assert!(result.error.is_none());
        assert_eq!(result.blocks_copied, 3);
        assert_eq!(result.bytes_copied, 900);
    }
}

#[test]
fn a_copy_that_is_not_verified_has_no_digest() {
    let mut session = CopySession::new(CopyEngine::for_range(64, Some(2), 0, 0, true, false), None);
    let written = run(&mut session, &[5u8; 500], 64);
    assert_eq!(written, vec![5u8; 128]);
    let result = session.result(None);
    assert!(result.verification_digest.is_none());
    assert_eq!(result.blocks_copied, 2);
}

#[test]
fn a_failed_copy_reports_its_failure_and_no_digest() {
    let engine = CopyEngine::for_range(8, None, 0, 0, true, false);
    let mut session = CopySession::new(engine, Some(HashAlgorithm::Sha256));
    let buffer = [1u8; 8];
    session.advance(Event::Start, &buffer);
    session.advance(Event::Opened(1), &buffer);
    session.advance(Event::Opened(1), &buffer);
    assert!(matches!(session.advance(Event::Read(8), &buffer), Action::Write(8)));
    assert!(matches!(session.advance(Event::Completed, &buffer), Action::Read(8)));
    let failure = std::io::Error::new(std::io::ErrorKind::Other, "bad sector");
    let error = match session.advance(Event::Failed(failure), &buffer) {
        Action::Abort(error) => error,
        other => panic!("{:?}", other),
    };
    assert_eq!(session.phase(), Phase::Failed);
    let result = session.result(Some(error));
    assert!(matches!(result.error, Some(RddError::Io(_))));
    assert!(result.verification_digest.is_none());
    assert_eq!(result.blocks_copied, 1);
    assert_eq!(result.bytes_copied, 8);
}

#[test]
fn a_write_needs_its_bytes_to_be_digested() {
    let engine = CopyEngine::for_range(8, None, 0, 0, true, false);
    let mut session = CopySession::new(engine, Some(HashAlgorithm::Blake3));
    let buffer = [1u8; 8];
    session.advance(Event::Start, &buffer);
    session.advance(Event::Opened(1), &buffer);
    session.advance(Event::Opened(1), &buffer);
    assert!(matches!(session.advance(Event::Read(8), &buffer), Action::Write(8)));
    // The write is reported with a buffer that cannot hold what was written.
    assert!(matches!(
        session.advance(Event::Completed, &buffer[..4]),
        Action::Abort(RddError::Channel(_))
    ));
    assert_eq!(session.phase(), Phase::Failed);
    assert_eq!(session.bytes_copied(), 0);
}

#[test]
fn only_the_bytes_of_short_last_block_are_digested() {
    let input = b"0123456789";
    let engine = CopyEngine::for_range(8, None, 0, 0, true, false);
    let mut session = CopySession::new(engine, Some(HashAlgorithm::Sha256));
    let written = run(&mut session, input, 8);
    assert_eq!(written, input.to_vec());
    assert_eq!(
        session.result(None).verification_digest.unwrap(),
        digest_bytes(HashAlgorithm::Sha256, input).unwrap()
    );
}
