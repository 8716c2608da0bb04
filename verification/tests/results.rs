use rdd::error::RddError;
use rdd::result::JobResult;

fn shard(blocks: u64, bytes: u64, error: Option<RddError>) -> JobResult {
    JobResult { blocks_copied: blocks, bytes_copied: bytes, verification_digest: None, error }
}

#[test]
fn counters_add_up() {
    let merged = JobResult::merge(vec![shard(3, 1536, None), shard(3, 1536, None), shard(4, 1808, None)]);
    assert_eq!(merged.blocks_copied, 10);
    assert_eq!(merged.bytes_copied, 4880);
    assert!(merged.succeeded());
    assert!(merged.verification_digest.is_none());
}

#[test]
fn nothing_merges_to_nothing() {
    let merged = JobResult::merge(Vec::new());
    assert_eq!(merged.blocks_copied, 0);
    assert_eq!(merged.bytes_copied, 0);
    assert!(merged.succeeded());
}

#[test]
fn the_first_failure_in_shard_order_wins() {
    let merged = JobResult::merge(vec![
        shard(2, 20, None),
        shard(1, 10, Some(RddError::Config("second shard".to_string()))),
        shard(0, 0, Some(RddError::Channel("third shard".to_string()))),
        shard(5, 50, None),
    ]);
    assert!(!merged.succeeded());
    assert!(matches!(merged.error, Some(RddError::Config(ref text)) if text == "second shard"));
    // What the other shards copied stays counted.
    assert_eq!(merged.blocks_copied, 8);
    assert_eq!(merged.bytes_copied, 80);
}

#[test]
fn an_io_failure_keeps_its_cause() {
    let cause = std::io::Error::new(std::io::ErrorKind::PermissionDenied, "read-only");
    let merged = JobResult::merge(vec![shard(1, 1, None), shard(0, 0, Some(RddError::Io(cause)))]);
    match merged.error {
        Some(RddError::Io(e)) => assert_eq!(e.kind(), std::io::ErrorKind::PermissionDenied),
        other => panic!("{:?}", other),
    }
}

#[test]
fn sums_stay_at_the_largest_number() {
    let merged = JobResult::merge(vec![shard(u64::MAX - 1, u64::MAX, None), shard(5, 5, None)]);
    assert_eq!(merged.blocks_copied, u64::MAX);
    assert_eq!(merged.bytes_copied, u64::MAX);
}

#[test]
fn a_matching_digest_verifies() {
    let result = JobResult {
        blocks_copied: 3,
        bytes_copied: 10_000,
        verification_digest: Some(vec![0xca, 0xfe]),
        error: None,
    };
    let checked = result.verified(&[0xca, 0xfe]);
    assert!(checked.succeeded());
    assert_eq!(checked.verification_digest, Some(vec![0xca, 0xfe]));
    assert_eq!(checked.blocks_copied, 3);
}

#[test]
fn a_mismatch_fails_the_job_and_keeps_what_was_copied() {
    let result = JobResult {
        blocks_copied: 3,
        bytes_copied: 10_000,
        verification_digest: Some(vec![0xca, 0xfe]),
        error: None,
    };
    let checked = result.verified(&[0xca, 0xff]);
    match &checked.error {
        Some(RddError::VerificationFailure { expected, actual }) => {
            assert_eq!(expected, "caff");
            assert_eq!(actual, "cafe");
        }
        other => panic!("{:?}", other),
    }
    assert_eq!(checked.blocks_copied, 3);
    assert_eq!(checked.bytes_copied, 10_000);
    assert_eq!(checked.verification_digest, Some(vec![0xca, 0xfe]));
}

#[test]
fn a_failed_job_stays_failed_as_it_was() {
    let checked = shard(1, 5, Some(RddError::Config("earlier".to_string()))).verified(&[1]);
    assert!(matches!(checked.error, Some(RddError::Config(ref text)) if text == "earlier"));
}

#[test]
fn no_digest_cannot_verify() {
    let checked = shard(1, 5, None).verified(&[1]);
    assert!(matches!(checked.error, Some(RddError::Channel(_))));
}

#[test]
fn messages_of_every_kind_of_error() {
    assert_eq!(
        RddError::Config("Block size cannot be zero.".to_string()).message(),
        "Configuration Error: Block size cannot be zero."
    );
    assert_eq!(
        RddError::VerificationFailure { expected: "aa".to_string(), actual: "bb".to_string() }
            .message(),
        "Verification failed: Hashes do not match. Expected: aa, Got: bb"
    );
    assert_eq!(
        RddError::Channel("receiver hung up".to_string()).message(),
        "Threading channel error: receiver hung up"
    );
    assert_eq!(
        RddError::NotImplemented("resume".to_string()).message(),
        "Features not yet implement: resume"
    );
    let io = RddError::Io(std::io::Error::new(std::io::ErrorKind::Other, "device gone"));
    assert_eq!(io.message(), "I/O Error: device gone");
}

#[test]
fn an_io_failure_converts_into_an_error() {
    let error: RddError = std::io::Error::new(std::io::ErrorKind::NotFound, "no such file").into();
    assert!(matches!(error, RddError::Io(ref cause) if cause.kind() == std::io::ErrorKind::NotFound));
    assert_eq!(error.message(), "I/O Error: no such file");
}
