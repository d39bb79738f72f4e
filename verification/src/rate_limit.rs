//! Download rate limiting: a bounded permit pool for concurrent downloads,
//! a per-address request window, and the bookkeeping behind speed limiting.
//!
//! Time arrives as an argument, in milliseconds of a monotonic clock read
//! by the caller. Waiting itself (for a permit, or to pace a stream) is the
//! caller's business: the pool only decides, and its decisions keep the
//! number of permits out at or below the configured maximum.

use vstd::prelude::*;
use crate::ttl_map::{keys_unique, seq_get, lemma_seq_get_some_iff, lemma_seq_get_push,
    lemma_seq_get_at_index};

verus! {

/// Limits on downloads: how many run at once, how fast each may go, and
/// how many requests one address may make per time window.
pub struct RateLimitConfig {
    /// Permits in the download pool.
    pub max_concurrent_downloads: usize,
    /// Bytes per second per stream; 0 means unlimited.
    pub download_speed_limit: u64,
    /// Requests allowed per address and window.
    pub max_requests_per_window: usize,
    /// Window length in seconds.
    pub window_duration_secs: u64,
}

impl Clone for RateLimitConfig {
    fn clone(&self) -> (r: Self)
        ensures
            r == *self,
    {
        RateLimitConfig {
            max_concurrent_downloads: self.max_concurrent_downloads,
            download_speed_limit: self.download_speed_limit,
            max_requests_per_window: self.max_requests_per_window,
            window_duration_secs: self.window_duration_secs,
        }
    }
}

impl Default for RateLimitConfig {
    /// Ten concurrent downloads, 10 MB/s, 100 requests per minute.
    fn default() -> (r: Self)
        ensures
            r.max_concurrent_downloads == 10,
            r.download_speed_limit == 10 * 1024 * 1024,
            r.max_requests_per_window == 100,
            r.window_duration_secs == 60,
    {
        RateLimitConfig {
            max_concurrent_downloads: 10,
            download_speed_limit: 10 * 1024 * 1024,
            max_requests_per_window: 100,
            window_duration_secs: 60,
        }
    }
}

/// Why a request was refused.
pub enum RateLimitError {
    /// The address exhausted its window.
    TooManyRequests { limit: usize, window_secs: u64 },
    /// No download permit is free.
    TooManyConcurrent,
}

/// One address's requests within the current window.
pub struct RequestRecord {
    pub count: usize,
    /// Start of the window, milliseconds of the caller's monotonic clock.
    pub window_start: u64,
}

impl Clone for RequestRecord {
    fn clone(&self) -> (r: Self)
        ensures
            r == *self,
    {
        RequestRecord { count: self.count, window_start: self.window_start }
    }
}

/// Milliseconds elapsed since `start`, clamped at zero.
pub open spec fn elapsed_ms(now: u64, start: u64) -> int {
    if now >= start {
        now - start
    } else {
        0
    }
}

/// The position of an address in the request ledger.
fn find_ip(records: &Vec<(String, RequestRecord)>, needle: &String) -> (r: Option<usize>)
    ensures
        match r {
            Some(i) => i < records@.len() && records@[i as int].0@ == needle@,
            None => forall|t: int| 0 <= t < records@.len() ==> records@[t].0@ != needle@,
        },
{
    let n = records.len();
    let mut i: usize = 0;
    while i < n
        invariant
            n == records@.len(),
            i <= n,
            forall|t: int| 0 <= t < i ==> records@[t].0@ != needle@,
        decreases n - i,
    {
        if records[i].0 == *needle {
            return Some(i);
        }
        i += 1;
    }
    None
}

/// The download pool and the per-address request ledger.
pub struct RateLimitManager {
    config: RateLimitConfig,
    in_flight: usize,
    request_records: Vec<(String, RequestRecord)>,
}

impl RateLimitManager {
    pub closed spec fn spec_config(self) -> RateLimitConfig {
        self.config
    }

    /// Permits currently out.
    pub closed spec fn spec_in_flight(self) -> int {
        self.in_flight as int
    }

    pub open spec fn spec_max_concurrent(self) -> int {
        self.spec_config().max_concurrent_downloads as int
    }

    pub closed spec fn records_seq(self) -> Seq<(String, RequestRecord)> {
        self.request_records@
    }

    /// The window length in milliseconds.
    pub open spec fn spec_window_ms(self) -> int {
        self.spec_config().window_duration_secs * 1000
    }

    /// Whether a record still falls inside the current window at `now_ms`.
    pub open spec fn record_current(self, rec: RequestRecord, now_ms: u64) -> bool {
        elapsed_ms(now_ms, rec.window_start) < self.spec_window_ms()
    }

    /// How many requests count against `ip` at `now_ms`: the recorded count
    /// while the record's window is current, and zero otherwise.
    pub open spec fn effective_count(self, ip: Seq<char>, now_ms: u64) -> int {
        match seq_get(self.records_seq(), ip) {
            Some(rec) => if self.record_current(rec, now_ms) {
                rec.count as int
            } else {
                0
            },
            None => 0,
        }
    }

    /// Well-formed: the permit bound holds and record keys are unique.
    pub open spec fn wf(self) -> bool {
        &&& self.spec_in_flight() <= self.spec_max_concurrent()
        &&& keys_unique(self.records_seq())
    }

    pub fn new(config: RateLimitConfig) -> (r: Self)
        ensures
            r.wf(),
            r.spec_config() == config,
            r.spec_in_flight() == 0,
            forall|ip: Seq<char>| #[trigger] seq_get(r.records_seq(), ip) is None,
    {
        let r = RateLimitManager { config, in_flight: 0, request_records: Vec::new() };
        proof {
            assert forall|ip: Seq<char>| #[trigger] seq_get(r.records_seq(), ip) is None by {
                lemma_seq_get_some_iff(r.records_seq(), ip);
            }
        }
        r
    }

    /// Takes a download permit when one is free. The caller holds the
    /// permit for the whole lifetime of the response stream and returns it
    /// through `release_download_permit`; a refusal means the pool is full
    /// and the caller must wait and ask again.
    pub fn try_acquire_download_permit(&mut self) -> (granted: bool)
        requires
            old(self).wf(),
        ensures
            final(self).wf(),
            final(self).spec_config() == old(self).spec_config(),
            final(self).records_seq() == old(self).records_seq(),
            granted <==> old(self).spec_in_flight() < old(self).spec_max_concurrent(),
            granted ==> final(self).spec_in_flight() == old(self).spec_in_flight() + 1,
            !granted ==> *final(self) == *old(self),
    {
        if self.in_flight < self.config.max_concurrent_downloads {
            self.in_flight = self.in_flight + 1;
            true
        } else {
            false
        }
    }

    /// Returns a download permit to the pool.
    pub fn release_download_permit(&mut self)
        requires
            old(self).wf(),
            old(self).spec_in_flight() > 0,
        ensures
            final(self).wf(),
            final(self).spec_config() == old(self).spec_config(),
            final(self).records_seq() == old(self).records_seq(),
            final(self).spec_in_flight() == old(self).spec_in_flight() - 1,
    {
        self.in_flight = self.in_flight - 1;
    }

    /// Counts a request from `ip` against its window: stale records are
    /// pruned, and the request passes exactly when fewer than the allowed
    /// number already fell in the address's current window.
    pub fn check_rate_limit(&mut self, ip: &str, now_ms: u64) -> (r: Result<(), RateLimitError>)
        requires
            old(self).wf(),
            old(self).spec_config().window_duration_secs * 1000 <= u64::MAX,
        ensures
            final(self).wf(),
            final(self).spec_config() == old(self).spec_config(),
            final(self).spec_in_flight() == old(self).spec_in_flight(),
            (r is Ok) <==> old(self).effective_count(ip@, now_ms)
                < old(self).spec_config().max_requests_per_window,
            r matches Err(e) ==> e == (RateLimitError::TooManyRequests {
                limit: old(self).spec_config().max_requests_per_window,
                window_secs: old(self).spec_config().window_duration_secs,
            }),
            r is Ok ==> (seq_get(final(self).records_seq(), ip@) matches Some(rec) && rec.count
                == old(self).effective_count(ip@, now_ms) + 1),
            forall|p: Seq<char>|
                p != ip@ ==> #[trigger] seq_get(final(self).records_seq(), p) == (match seq_get(
                    old(self).records_seq(),
                    p,
                ) {
                    Some(rec) => if old(self).record_current(rec, now_ms) {
                        Some(rec)
                    } else {
                        None
                    },
                    None => None,
                }),
    {
        let window_ms: u64 = self.config.window_duration_secs * 1000;

        // Prune records whose window has passed.
        let ghost all = self.request_records@;
        let ghost m0 = *self;
        let mut kept: Vec<(String, RequestRecord)> = Vec::new();
        let n = self.request_records.len();
        let mut i: usize = 0;
        proof {
            assert forall|p: Seq<char>| #[trigger] seq_get(kept@, p) is None by {
                lemma_seq_get_some_iff(kept@, p);
            }
        }
        while i < n
            invariant
                *self == m0,
                m0.wf(),
                window_ms == m0.spec_window_ms(),
                all == m0.records_seq(),
                n == all.len(),
                i <= n,
                keys_unique(kept@),
                forall|p: Seq<char>|
                    #[trigger] seq_get(kept@, p) == (match seq_get(all.take(i as int), p) {
                        Some(rec) => if m0.record_current(rec, now_ms) {
                            Some(rec)
                        } else {
                            None
                        },
                        None => None,
                    }),
                forall|j: int|
                    0 <= j < kept@.len() ==> exists|t: int|
                        0 <= t < i && (#[trigger] kept@[j]).0@ == (#[trigger] all[t]).0@,
            decreases n - i,
        {
            let pair = &self.request_records[i];
            let elapsed: u64 = if now_ms >= pair.1.window_start {
                now_ms - pair.1.window_start
            } else {
                0
            };
            proof {
                assert(all.take(i as int + 1).drop_last() =~= all.take(i as int));
                assert(all.take(i as int + 1).last() == all[i as int]);
                assert forall|p: Seq<char>|
                    seq_get(all.take(i as int + 1), p) == (if all[i as int].0@ == p {
                        Some(all[i as int].1)
                    } else {
                        seq_get(all.take(i as int), p)
                    }) by {
                    lemma_seq_get_push(all.take(i as int), all[i as int], p);
                }
                lemma_seq_get_some_iff(all.take(i as int), all[i as int].0@);
                assert forall|j: int|
                    0 <= j < i implies all.take(i as int)[j].0@ != all[i as int].0@ by {
                    assert(all[j].0@ != all[i as int].0@);
                }
                assert(seq_get(kept@, all[i as int].0@) is None);
                lemma_seq_get_some_iff(kept@, all[i as int].0@);
            }
            if elapsed < window_ms {
                let ghost kept_before = kept@;
                kept.push((pair.0.clone(), pair.1.clone()));
                proof {
                    assert(kept@ == kept_before.push(kept@.last()));
                    assert(kept@.last().0@ == all[i as int].0@);
                    assert(kept@.last().1 == all[i as int].1);
                    assert forall|p: Seq<char>|
                        seq_get(kept@, p) == (if all[i as int].0@ == p {
                            Some(all[i as int].1)
                        } else {
                            seq_get(kept_before, p)
                        }) by {
                        lemma_seq_get_push(kept_before, kept@.last(), p);
                    }
                    assert forall|j1: int, j2: int|
                        0 <= j1 < j2 < kept@.len() implies (#[trigger] kept@[j1]).0@ != (
                    #[trigger] kept@[j2]).0@ by {
                        if j2 == kept@.len() - 1 {
                            assert(seq_get(kept_before, kept@[j1].0@) is Some) by {
                                lemma_seq_get_some_iff(kept_before, kept@[j1].0@);
                            }
                        }
                    }
                }
            }
            i += 1;
        }
        proof {
            assert(all.take(n as int) =~= all);
        }
        self.request_records = kept;

        // Find or open the address's window.
        let needle = String::from_str(ip);
        let found = find_ip(&self.request_records, &needle);
        let ghost pruned = self.request_records@;
        let idx: usize = match found {
            Some(j) => j,
            None => {
                proof {
                    lemma_seq_get_some_iff(pruned, ip@);
                }
                let fresh = RequestRecord { count: 0, window_start: now_ms };
                proof {
                    assert forall|p: Seq<char>|
                        seq_get(pruned.push((needle, fresh)), p) == (if ip@ == p {
                            Some(fresh)
                        } else {
                            seq_get(pruned, p)
                        }) by {
                        lemma_seq_get_push(pruned, (needle, fresh), p);
                    }
                    assert forall|j1: int, j2: int|
                        0 <= j1 < j2 < pruned.push((needle, fresh)).len() implies (
                    #[trigger] pruned.push((needle, fresh))[j1]).0@ != (#[trigger] pruned.push(
                        (needle, fresh),
                    )[j2]).0@ by {
                        if j2 == pruned.len() as int {
                            assert(pruned[j1].0@ != ip@);
                        }
                    }
                }
                let k = self.request_records.len();
                self.request_records.push((needle, fresh));
                k
            },
        };
        let ghost with_fresh = self.request_records@;
        proof {
            if found is Some {
                lemma_seq_get_at_index(pruned, idx as int, ip@);
            }
            assert(seq_get(self.request_records@, ip@) matches Some(rec) && rec
                == self.request_records@[idx as int].1);
            assert(self.request_records@[idx as int].1.count as int == m0.effective_count(
                ip@,
                now_ms,
            ));
            assert forall|p: Seq<char>| p != ip@ implies seq_get(with_fresh, p) == seq_get(
                pruned,
                p,
            ) by {
                if with_fresh.len() > pruned.len() {
                    assert(with_fresh == pruned.push(with_fresh.last()));
                    assert(with_fresh.last().0@ == ip@);
                    lemma_seq_get_push(pruned, with_fresh.last(), p);
                }
            }
        }

        proof {
            assert(all.take(n as int) =~= all);
            assert forall|p: Seq<char>| p != ip@ implies seq_get(pruned, p) == (
            match seq_get(m0.records_seq(), p) {
                Some(rec) => if m0.record_current(rec, now_ms) {
                    Some(rec)
                } else {
                    None
                },
                None => None,
            }) by {
                assert(seq_get(pruned, p) == (match seq_get(all.take(n as int), p) {
                    Some(rec) => if m0.record_current(rec, now_ms) {
                        Some(rec)
                    } else {
                        None
                    },
                    None => None,
                }));
            }
        }

        // The record is current by construction; check the limit.
        let count = self.request_records[idx].1.count;
        if count >= self.config.max_requests_per_window {
            return Err(
                RateLimitError::TooManyRequests {
                    limit: self.config.max_requests_per_window,
                    window_secs: self.config.window_duration_secs,
                },
            );
        }
        let ghost before_update = self.request_records@;
        let start = self.request_records[idx].1.window_start;
        let updated = RequestRecord { count: count + 1, window_start: start };
        let key_again = self.request_records[idx].0.clone();
        proof {
            crate::ttl_map::lemma_seq_get_remove(before_update, idx as int, ip@);
            crate::ttl_map::lemma_keys_unique_remove(before_update, idx as int);
            assert forall|p: Seq<char>|
                p != ip@ implies seq_get(before_update.remove(idx as int), p) == seq_get(
                before_update,
                p,
            ) by {
                crate::ttl_map::lemma_seq_get_remove(before_update, idx as int, p);
            }
        }
        self.request_records.remove(idx);
        let ghost after_remove = self.request_records@;
        proof {
            assert forall|p: Seq<char>|
                seq_get(after_remove.push((key_again, updated)), p) == (if ip@ == p {
                    Some(updated)
                } else {
                    seq_get(after_remove, p)
                }) by {
                lemma_seq_get_push(after_remove, (key_again, updated), p);
            }
            lemma_seq_get_some_iff(after_remove, ip@);
            assert forall|j1: int, j2: int|
                0 <= j1 < j2 < after_remove.push((key_again, updated)).len() implies (
            #[trigger] after_remove.push((key_again, updated))[j1]).0@ != (#[trigger] after_remove.push(
                (key_again, updated),
            )[j2]).0@ by {
                if j2 == after_remove.len() as int {
                    assert(after_remove[j1].0@ != ip@);
                }
            }
        }
        self.request_records.push((key_again, updated));
        proof {
            assert(before_update == with_fresh);
            assert forall|p: Seq<char>|
                p != ip@ implies seq_get(self.request_records@, p) == (
            match seq_get(m0.records_seq(), p) {
                Some(rec) => if m0.record_current(rec, now_ms) {
                    Some(rec)
                } else {
                    None
                },
                None => None,
            }) by {
                assert(seq_get(self.request_records@, p) == seq_get(after_remove, p));
                assert(seq_get(after_remove, p) == seq_get(before_update, p));
                assert(seq_get(before_update, p) == seq_get(pruned, p));
            }
        }
        Ok(())
    }
}

/// Permit bound: a well-formed pool never has more downloads in flight
/// than the configured maximum, and every pool operation keeps it
/// well-formed, so at no time do in-flight downloads exceed the limit.
pub proof fn lemma_permit_bound(m: RateLimitManager)
    requires
        m.wf(),
    ensures
        m.spec_in_flight() <= m.spec_max_concurrent(),
{
}

/// The pacing state behind a speed-limited stream: how many bytes went out
/// since the window opened.
pub struct ThrottleState {
    /// Bytes per second; 0 means unlimited.
    pub speed_limit: u64,
    /// Bytes sent since `window_start_ms`.
    pub bytes_sent: u64,
    /// Start of the current one-second window, caller's monotonic clock.
    pub window_start_ms: u64,
}

impl ThrottleState {
    pub fn new(speed_limit: u64, now_ms: u64) -> (r: Self)
        ensures
            r.speed_limit == speed_limit,
            r.bytes_sent == 0,
            r.window_start_ms == now_ms,
    {
        ThrottleState { speed_limit, bytes_sent: 0, window_start_ms: now_ms }
    }

    /// Decides, before a chunk goes out, whether the stream must pause: the
    /// one-second window is first rolled over if it has passed, and a pause
    /// is due when the window's byte budget is exhausted. With no speed
    /// limit nothing changes and nothing pauses.
    pub fn needs_throttle(&mut self, now_ms: u64) -> (pause: bool)
        ensures
            final(self).speed_limit == old(self).speed_limit,
            old(self).speed_limit == 0 ==> !pause && *final(self) == *old(self),
            old(self).speed_limit > 0 ==> {
                let rolled = elapsed_ms(now_ms, old(self).window_start_ms) >= 1000;
                &&& final(self).bytes_sent == (if rolled {
                    0
                } else {
                    old(self).bytes_sent
                })
                &&& final(self).window_start_ms == (if rolled {
                    now_ms
                } else {
                    old(self).window_start_ms
                })
                &&& pause == (final(self).bytes_sent >= old(self).speed_limit)
            },
    {
        if self.speed_limit == 0 {
            return false;
        }
        let elapsed: u64 = if now_ms >= self.window_start_ms {
            now_ms - self.window_start_ms
        } else {
            0
        };
        if elapsed >= 1000 {
            self.bytes_sent = 0;
            self.window_start_ms = now_ms;
        }
        self.bytes_sent >= self.speed_limit
    }

    /// Opens a fresh window after the caller paused.
    pub fn reset_window(&mut self, now_ms: u64)
        ensures
            final(self).speed_limit == old(self).speed_limit,
            final(self).bytes_sent == 0,
            final(self).window_start_ms == now_ms,
    {
        self.bytes_sent = 0;
        self.window_start_ms = now_ms;
    }

    /// Charges a delivered chunk against the window, saturating at the
    /// counter's top.
    pub fn record_sent(&mut self, chunk_len: u64)
        ensures
            final(self).speed_limit == old(self).speed_limit,
            final(self).window_start_ms == old(self).window_start_ms,
            final(self).bytes_sent == if old(self).bytes_sent + chunk_len <= u64::MAX {
                (old(self).bytes_sent + chunk_len) as u64
            } else {
                u64::MAX
            },
    {
        self.bytes_sent = self.bytes_sent.saturating_add(chunk_len);
    }
}

} // verus!
