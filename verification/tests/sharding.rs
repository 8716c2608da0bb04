use rdd::config::{CopyArgs, CopyConfig, HashAlgorithm};
use rdd::engine::{CopyEngine, Step};
use rdd::error::RddError;
use rdd::digest::{digest_bytes, to_hex};
use rdd::extent::{lay_out, write_at, Extent};
use rdd::memory::copy_in_memory;
use rdd::sharded::{copy_sharded_in_memory, copy_ticketed_in_memory, run_job_in_memory};
use rdd::shard::{
    engine_for, partition, plan_shards, select_engine, BlockRange, EngineKind, TicketCursor,
};

fn bytes(len: usize) -> Vec<u8> {
    (0..len).map(|i| ((i * 31 + 7) % 253) as u8).collect()
}

fn threaded_job(bs: &str, count: u64, skip: u64, seek: u64, threads: u8) -> CopyConfig {
    CopyConfig::from_args(CopyArgs {
        input: "in".to_string(),
        output: "out".to_string(),
        bs: bs.to_string(),
        count,
        skip,
        seek,
        verify: None,
        progress: false,
        threads,
        direct: false,
    })
    .unwrap()
}

/// The file that a single write of `data` at `offset` leaves.
fn file_of(offset: u64, data: Vec<u8>) -> Vec<u8> {
    lay_out(&vec![Extent { offset, data }], &vec![0])
}

/// Some orders in which to write `count` extents: first to last, last to
/// first, and from the middle outwards with the first written twice.
fn orders(count: usize) -> Vec<Vec<usize>> {
    let forwards: Vec<usize> = (0..count).collect();
    let backwards: Vec<usize> = (0..count).rev().collect();
    let mut outwards: Vec<usize> = Vec::new();
    for step in 0..count {
        let middle = count / 2;
        outwards.push(if step % 2 == 0 { middle + step / 2 } else { middle - 1 - step / 2 } % count);
    }
    outwards.extend(0..count);
    outwards.push(0);
    vec![forwards, backwards, outwards]
}

#[test]
fn ten_blocks_over_three_shards() {
    assert_eq!(
        partition(10, 3),
        vec![
            BlockRange { start: 0, len: 3 },
            BlockRange { start: 3, len: 3 },
            BlockRange { start: 6, len: 4 },
        ]
    );
}

#[test]
fn shares_are_even_and_the_last_takes_the_rest() {
    assert_eq!(partition(7, 1), vec![BlockRange { start: 0, len: 7 }]);
    assert_eq!(
        partition(8, 2),
        vec![BlockRange { start: 0, len: 4 }, BlockRange { start: 4, len: 4 }]
    );
    assert_eq!(
        partition(2, 4),
        vec![
            BlockRange { start: 0, len: 0 },
            BlockRange { start: 0, len: 0 },
            BlockRange { start: 0, len: 0 },
            BlockRange { start: 0, len: 2 },
        ]
    );
    assert_eq!(partition(0, 2), vec![BlockRange { start: 0, len: 0 }; 2]);
    let large = partition(u64::MAX, 255);
    assert_eq!(large.len(), 255);
    assert_eq!(large[254].start + large[254].len, u64::MAX);
}

#[test]
fn ranges_follow_one_another_without_gap() {
    for count in [1u64, 5, 64, 1000, 1001] {
        for shards in [1u8, 2, 3, 7, 64, 255] {
            let ranges = partition(count, shards);
            assert_eq!(ranges.len(), shards as usize);
            let mut next = 0;
            for range in &ranges {
                assert_eq!(range.start, next);
                next += range.len;
            }
            assert_eq!(next, count);
            let base = count / shards as u64;
            assert!(ranges[..ranges.len() - 1].iter().all(|r| r.len == base));
        }
    }
}

#[test]
fn engine_is_chosen_by_threads_verification_and_count() {
    let mut config = threaded_job("4k", 0, 0, 0, 1);
    assert_eq!(select_engine(&config), EngineKind::SinglePath);
    config.threads = 4;
    assert_eq!(select_engine(&config), EngineKind::Ticketed);
    config.count = 100;
    assert_eq!(select_engine(&config), EngineKind::Partitioned);
    config.verification_algo = Some(HashAlgorithm::Blake3);
    assert_eq!(select_engine(&config), EngineKind::SinglePath);
}

#[test]
fn shard_engines_start_at_their_own_offsets_and_do_not_truncate() {
    let config = threaded_job("512", 10, 2, 5, 3);
    let engines = plan_shards(&config).unwrap();
    assert_eq!(engines.len(), 3);
    let expected = [(3u64, 2 * 512u64, 5 * 512u64), (3, 5 * 512, 8 * 512), (4, 8 * 512, 11 * 512)];
    for (engine, (len, input, output)) in engines.iter().zip(expected) {
        assert_eq!(engine.block_size, 512);
        assert_eq!(engine.limit, Some(len));
        assert_eq!(engine.input_start, input);
        assert_eq!(engine.output_start, output);
        assert!(!engine.truncate);
        assert!(!engine.direct);
        assert!(matches!(engine.step, Step::Ready));
        assert_eq!(engine.blocks_copied, 0);
    }
    let single: CopyEngine = CopyEngine::new(&config);
    assert!(single.truncate);
    assert_eq!(single.limit, Some(10));
}

#[test]
fn ranges_beyond_64_bits_are_a_configuration_error() {
    let config = threaded_job("1k", u64::MAX, 1 << 53, 0, 2);
    match plan_shards(&config) {
        Err(RddError::Config(text)) => {
            assert_eq!(text, "Block range is too large to be split across threads.")
        }
        other => panic!("{:?}", other),
    }
    assert!(matches!(copy_sharded_in_memory(&config, &bytes(10)), Err(RddError::Config(_))));
    assert!(engine_for(&config, BlockRange { start: u64::MAX, len: 1 }).is_none());
    assert!(engine_for(&config, BlockRange { start: 1, len: 1 }).is_some());
}

#[test]
fn sharded_and_single_path_write_the_same_bytes() {
    for len in [0usize, 1, 511, 512, 513, 5000, 10_000] {
        let input = bytes(len);
        for threads in [2u8, 3, 4, 7] {
            for (bs, count, skip, seek) in
                [("512", 10u64, 0u64, 0u64), ("512", 3, 2, 1), ("100", 77, 1, 0), ("4k", 1, 0, 9), ("7", 5000, 3, 3)]
            {
                let config = threaded_job(bs, count, skip, seek, threads);
                let (single, single_result) = copy_in_memory(&config, &input);
                let (extents, result) = copy_sharded_in_memory(&config, &input).unwrap();
                assert_eq!(extents.len(), threads as usize);
                let joined: Vec<u8> = extents.iter().flat_map(|e| e.data.clone()).collect();
                assert_eq!(joined, single);
                assert_eq!(result.blocks_copied, single_result.blocks_copied);
                assert_eq!(result.bytes_copied, single_result.bytes_copied);
                assert!(result.succeeded());
                assert!(result.verification_digest.is_none());

                let expected_file = file_of(config.seek_bytes(), single);
                for order in orders(extents.len()) {
                    assert_eq!(lay_out(&extents, &order), expected_file);
                }
            }
        }
    }
}

#[test]
fn tickets_and_single_path_write_the_same_bytes() {
    for len in [0usize, 1, 99, 100, 101, 4096, 10_000] {
        let input = bytes(len);
        for stride in [1u64, 2, 5, 64, u64::MAX] {
            for (bs, skip, seek) in [("100", 0u64, 0u64), ("512", 2, 0), ("33", 1, 4), ("16k", 0, 1)] {
                let config = threaded_job(bs, 0, skip, seek, 4);
                let (single, single_result) = copy_in_memory(&config, &input);
                let (extents, result) = copy_ticketed_in_memory(&config, &input, stride);
                let joined: Vec<u8> = extents.iter().flat_map(|e| e.data.clone()).collect();
                assert_eq!(joined, single);
                assert_eq!(result.blocks_copied, single_result.blocks_copied);
                assert_eq!(result.bytes_copied, single_result.bytes_copied);
                assert!(result.succeeded());

                let expected_file = file_of(config.seek_bytes(), single);
                for order in orders(extents.len()) {
                    assert_eq!(lay_out(&extents, &order), expected_file);
                }
            }
        }
    }
}

#[test]
fn claims_follow_one_another() {
    let mut cursor = TicketCursor::new(8);
    assert_eq!(cursor.claim(), Some(BlockRange { start: 0, len: 8 }));
    assert_eq!(cursor.claim(), Some(BlockRange { start: 8, len: 8 }));
    assert_eq!(cursor.claim(), Some(BlockRange { start: 16, len: 8 }));
    assert_eq!(cursor.next_block, 24);
    cursor.close();
    assert_eq!(cursor.claim(), None);
    assert_eq!(cursor.claim(), None);
    assert_eq!(cursor.next_block, 24);
}

#[test]
fn claims_end_with_the_block_numbers() {
    let mut cursor = TicketCursor { next_block: u64::MAX - 10, stride: 8, closed: false };
    assert_eq!(cursor.claim(), Some(BlockRange { start: u64::MAX - 10, len: 8 }));
    assert_eq!(cursor.claim(), Some(BlockRange { start: u64::MAX - 2, len: 2 }));
    assert_eq!(cursor.claim(), None);
    assert!(!cursor.closed);
}

#[test]
fn positioned_writes() {
    let mut file = Vec::new();
    write_at(&mut file, 3, &[]);
    assert!(file.is_empty());
    write_at(&mut file, 3, &[7, 8]);
    assert_eq!(file, vec![0, 0, 0, 7, 8]);
    write_at(&mut file, 0, &[1]);
    assert_eq!(file, vec![1, 0, 0, 7, 8]);
    write_at(&mut file, 4, &[9, 9, 9]);
    assert_eq!(file, vec![1, 0, 0, 7, 9, 9, 9]);
    write_at(&mut file, 1, &[2, 3]);
    assert_eq!(file, vec![1, 2, 3, 7, 9, 9, 9]);
    write_at(&mut file, 20, &[]);
    assert_eq!(file.len(), 7);
}

#[test]
fn a_seek_leaves_a_gap_of_zeros_in_front() {
    let input = bytes(100);
    let config = threaded_job("16", 0, 1, 2, 1);
    let (extents, _) = run_job_in_memory(&config, &input, 4).unwrap();
    let file = lay_out(&extents, &vec![0]);
    assert_eq!(file.len(), 32 + 84);
    assert!(file[..32].iter().all(|byte| *byte == 0));
    assert_eq!(file[32..], input[16..]);
}

#[test]
fn a_job_leaves_the_same_file_whatever_engine_runs_it() {
    let input = bytes(3000);
    for (count, verify) in [(0u64, None), (5, None), (0, Some(HashAlgorithm::Sha256)), (9, Some(HashAlgorithm::Blake3))] {
        let mut files = Vec::new();
        for threads in [1u8, 2, 5] {
            let mut config = threaded_job("256", count, 1, 1, threads);
            config.verification_algo = verify;
            let (extents, result) = run_job_in_memory(&config, &input, 3).unwrap();
            let whole: Vec<u8> = extents.iter().flat_map(|e| e.data.clone()).collect();
            match verify {
                Some(algorithm) => {
                    // A job that verifies runs on one path and reports the
                    // digest of what it wrote.
                    assert_eq!(extents.len(), 1);
                    assert_eq!(
                        to_hex(&result.verification_digest.unwrap()),
                        to_hex(&digest_bytes(algorithm, &whole).unwrap())
                    );
                }
                None => assert!(result.verification_digest.is_none()),
            }
            for order in orders(extents.len()) {
                files.push(lay_out(&extents, &order));
            }
        }
        assert!(files.iter().all(|file| *file == files[0]));
        let end = if count == 0 { 3000 } else { 256 + count as usize * 256 };
        assert_eq!(files[0][256..], input[256..end]);
    }
}
