use gh_info_rs::rate_limit::{
    RateLimitConfig, RateLimitError, RateLimitManager, ThrottleState,
};
use gh_info_rs::tee::TeePipe;

#[test]
fn test_permit_pool_bound() {
    // With a budget of one, the second acquisition waits for the release.
    let config = RateLimitConfig {
        max_concurrent_downloads: 1,
        download_speed_limit: 0,
        max_requests_per_window: 100,
        window_duration_secs: 60,
    };
    let mut pool = RateLimitManager::new(config);
    assert!(pool.try_acquire_download_permit());
    assert!(!pool.try_acquire_download_permit());
    assert!(!pool.try_acquire_download_permit());
    pool.release_download_permit();
    assert!(pool.try_acquire_download_permit());
}

#[test]
fn test_permit_pool_default_budget() {
    let mut pool = RateLimitManager::new(RateLimitConfig::default());
    for _ in 0..10 {
        assert!(pool.try_acquire_download_permit());
    }
    assert!(!pool.try_acquire_download_permit());
}

#[test]
fn test_rate_limit_window() {
    let config = RateLimitConfig {
        max_concurrent_downloads: 10,
        download_speed_limit: 0,
        max_requests_per_window: 2,
        window_duration_secs: 60,
    };
    let mut m = RateLimitManager::new(config);
    assert!(m.check_rate_limit("1.2.3.4", 0).is_ok());
    assert!(m.check_rate_limit("1.2.3.4", 1_000).is_ok());
    let refused = m.check_rate_limit("1.2.3.4", 2_000);
    match refused {
        Err(RateLimitError::TooManyRequests { limit, window_secs }) => {
            assert_eq!(limit, 2);
            assert_eq!(window_secs, 60);
        }
        _ => panic!("the third request in the window is refused"),
    }
    // another address has its own window
    assert!(m.check_rate_limit("5.6.7.8", 2_000).is_ok());
    // and after the window has passed, the address may come back
    assert!(m.check_rate_limit("1.2.3.4", 61_000).is_ok());
}

#[test]
fn test_throttle_state() {
    let mut t = ThrottleState::new(1000, 0);
    assert!(!t.needs_throttle(100));
    t.record_sent(600);
    assert!(!t.needs_throttle(200));
    t.record_sent(600);
    // 1200 bytes within the second: pause
    assert!(t.needs_throttle(300));
    t.reset_window(1300);
    assert!(!t.needs_throttle(1400));
    // a fresh second rolls the window over without a pause
    t.record_sent(1500);
    assert!(t.needs_throttle(1500));
    assert!(!t.needs_throttle(2400));
}

#[test]
fn test_throttle_unlimited() {
    let mut t = ThrottleState::new(0, 0);
    t.record_sent(u64::MAX);
    t.record_sent(u64::MAX);
    assert!(!t.needs_throttle(5));
}

#[test]
fn test_tee_pipeline_clean_run() {
    // The client sees exactly the origin bytes, and a drained clean stream
    // hands the writer exactly the origin bytes.
    let mut pipe = TeePipe::new(100);
    let mut client: Vec<u8> = Vec::new();
    let mut file: Vec<u8> = Vec::new();
    let chunks: Vec<Vec<u8>> = vec![vec![1, 2, 3], vec![4], vec![], vec![5, 6]];
    for c in chunks {
        let fwd = pipe.on_chunk(c.clone());
        assert_eq!(fwd, c);
        client.extend_from_slice(&fwd);
    }
    pipe.origin_end();
    while let Some(chunk) = pipe.writer_pop() {
        file.extend_from_slice(&chunk);
    }
    assert!(pipe.commit_ready());
    assert_eq!(client, vec![1, 2, 3, 4, 5, 6]);
    assert_eq!(file, vec![1, 2, 3, 4, 5, 6]);
}

#[test]
fn test_tee_pipeline_overflow_spares_client() {
    // A full queue abandons caching but never the client.
    let mut pipe = TeePipe::new(1);
    let mut client: Vec<u8> = Vec::new();
    for c in [vec![1u8], vec![2], vec![3]] {
        let fwd = pipe.on_chunk(c.clone());
        assert_eq!(fwd, c);
        client.extend_from_slice(&fwd);
    }
    pipe.origin_end();
    while pipe.writer_pop().is_some() {}
    assert!(!pipe.commit_ready());
    assert_eq!(client, vec![1, 2, 3]);
}

#[test]
fn test_tee_pipeline_writer_failure_blocks_commit() {
    let mut pipe = TeePipe::new(100);
    let _ = pipe.on_chunk(vec![9, 9]);
    pipe.writer_fail();
    pipe.origin_end();
    while pipe.writer_pop().is_some() {}
    assert!(!pipe.commit_ready());
}

#[test]
fn test_tee_pipeline_no_commit_before_origin_end() {
    let mut pipe = TeePipe::new(100);
    let _ = pipe.on_chunk(vec![1]);
    while pipe.writer_pop().is_some() {}
    assert!(!pipe.commit_ready());
    pipe.origin_end();
    assert!(pipe.commit_ready());
}

#[test]
fn test_rate_limit_config_default() {
    let c = RateLimitConfig::default();
    assert_eq!(c.max_concurrent_downloads, 10);
    assert_eq!(c.download_speed_limit, 10 * 1024 * 1024);
    assert_eq!(c.max_requests_per_window, 100);
    assert_eq!(c.window_duration_secs, 60);
}
