use soroscope::oracle_aggregator::{compute_twap, median, sort_prices, Error, OracleAggregator, OracleRecord, TwapSample};

/// An oracle source: what it answers at a given ledger time (`None` for a
/// source that fails to answer).
#[derive(Clone, Copy)]
enum Source {
    Fresh(i128),
    /// Last updated 500 s before the ledger time.
    Stale,
    Unresponsive,
    /// Answers whatever was last set, with the timestamp set.
    Tunable(usize),
}

struct World {
    timestamp: u64,
    tunable: Vec<Option<OracleRecord>>,
}

impl World {
    fn default() -> World {
        World { timestamp: 0, tunable: Vec::new() }
    }

    fn answer(&self, s: Source) -> Option<OracleRecord> {
        match s {
            Source::Fresh(p) => Some(OracleRecord { price: p, timestamp: self.timestamp }),
            Source::Stale => Some(OracleRecord { price: 100, timestamp: self.timestamp.saturating_sub(500) }),
            Source::Unresponsive => None,
            Source::Tunable(i) => self.tunable[i],
        }
    }

    fn register_tunable(&mut self) -> Source {
        self.tunable.push(None);
        Source::Tunable(self.tunable.len() - 1)
    }

    fn set_record(&mut self, s: Source, price: i128, timestamp: u64) {
        if let Source::Tunable(i) = s {
            self.tunable[i] = Some(OracleRecord { price, timestamp });
        }
    }
}

struct Client {
    agg: OracleAggregator,
}

impl Client {
    fn new() -> Client {
        Client { agg: OracleAggregator::new() }
    }

    fn try_aggregate_price(&mut self, env: &World, sources: &[Source], max_age: u64) -> Result<i128, Error> {
        let records: Vec<Option<OracleRecord>> = sources.iter().map(|s| env.answer(*s)).collect();
        self.agg.aggregate_price(&records, env.timestamp, max_age)
    }

    fn aggregate_price(&mut self, env: &World, sources: &[Source], max_age: u64) -> i128 {
        match self.try_aggregate_price(env, sources, max_age) {
            Ok(p) => p,
            Err(e) => panic!("Error(Contract, #{})", e.code()),
        }
    }

    fn get_twap(&self, env: &World) -> i128 {
        self.agg.get_twap(env.timestamp)
    }

    fn try_initialize(&mut self, window: u64) -> Result<(), Error> {
        self.agg.initialize(window)
    }

    fn initialize(&mut self, window: u64) {
        self.try_initialize(window).unwrap()
    }
}

const FRESH_100: Source = Source::Fresh(100);
const FRESH_101: Source = Source::Fresh(101);
const FRESH_99: Source = Source::Fresh(99);
const STALE: Source = Source::Stale;
const UNRESPONSIVE: Source = Source::Unresponsive;
const OUTLIER: Source = Source::Fresh(150_000);

fn register_tunable_trio(env: &mut World, price: i128, timestamp: u64) -> (Source, Source, Source) {
    let a = env.register_tunable();
    let b = env.register_tunable();
    let c = env.register_tunable();
    env.set_record(a, price, timestamp);
    env.set_record(b, price, timestamp);
    env.set_record(c, price, timestamp);
    (a, b, c)
}

#[test]
fn test_aggregate_three_fresh_sources() {
    let mut env = World::default();
    env.timestamp = 1_000;
    let mut client = Client::new();
    // All three fresh; median of sorted [99, 100, 101] = 100.
    assert_eq!(client.aggregate_price(&env, &[FRESH_100, FRESH_101, FRESH_99], 60), 100);
}

#[test]
fn test_aggregate_ignores_outlier_keeps_fresh_median() {
    let mut env = World::default();
    env.timestamp = 1_000;
    let mut client = Client::new();
    // Outlier (150_000) is filtered as an extreme outlier; median = 100.
    assert_eq!(client.aggregate_price(&env, &[FRESH_100, FRESH_101, FRESH_99, OUTLIER], 60), 100);
}

#[test]
fn test_aggregate_skips_unresponsive_source() {
    let mut env = World::default();
    env.timestamp = 1_000;
    let mut client = Client::new();
    // Unresponsive skipped; three fresh remain → median = 100.
    assert_eq!(client.aggregate_price(&env, &[FRESH_100, FRESH_101, FRESH_99, UNRESPONSIVE], 60), 100);
}

#[test]
fn test_stale_source_excluded_when_three_fresh_remain() {
    let mut env = World::default();
    // Ledger time = 1000; StaleSource timestamp = 1000 - 500 = 500.
    env.timestamp = 1_000;
    let mut client = Client::new();
    // max_age_seconds = 60 → stale source (age 500 s) is excluded.
    assert_eq!(client.aggregate_price(&env, &[FRESH_100, FRESH_101, FRESH_99, STALE], 60), 100);
}

#[test]
fn test_returns_oracle_staleness_when_too_few_fresh_sources() {
    let mut env = World::default();
    env.timestamp = 1_000;
    let mut client = Client::new();
    // Only 1 fresh source; 2 stale → OracleStaleness (need >= 3 fresh).
    assert_eq!(client.try_aggregate_price(&env, &[FRESH_100, STALE, STALE], 60), Err(Error::OracleStaleness));
}

#[test]
fn test_all_stale_returns_oracle_staleness() {
    let mut env = World::default();
    env.timestamp = 1_000;
    let mut client = Client::new();
    assert_eq!(client.try_aggregate_price(&env, &[STALE, STALE, STALE], 60), Err(Error::OracleStaleness));
}

#[test]
fn test_stale_source_accepted_when_max_age_is_generous() {
    let mut env = World::default();
    // Ledger time = 1000; StaleSource timestamp = 500 (age = 500 s).
    env.timestamp = 1_000;
    let mut client = Client::new();
    // Prices: [100, 101, 100] → sorted [100, 100, 101] → median = 100.
    assert_eq!(client.aggregate_price(&env, &[FRESH_100, FRESH_101, STALE], 600), 100);
}

#[test]
fn test_exact_boundary_age_is_fresh() {
    let mut env = World::default();
    // StaleSource age = 500 s; max_age_seconds = 500 → age == threshold → fresh.
    env.timestamp = 1_000;
    let mut client = Client::new();
    assert_eq!(client.aggregate_price(&env, &[FRESH_100, FRESH_101, STALE], 500), 100);
}

#[test]
fn test_one_second_over_threshold_is_stale() {
    let mut env = World::default();
    // StaleSource age = 500 s; max_age_seconds = 499 → excluded (age > threshold).
    env.timestamp = 1_000;
    let mut client = Client::new();
    // Only 2 fresh sources remain → OracleStaleness.
    assert_eq!(client.try_aggregate_price(&env, &[FRESH_100, FRESH_101, STALE, STALE], 499), Err(Error::OracleStaleness));
}

#[test]
fn test_reject_when_not_enough_sources() {
    let mut env = World::default();
    env.timestamp = 1_000;
    let mut client = Client::new();
    // Fewer than 3 source addresses → NotEnoughSources.
    assert_eq!(client.try_aggregate_price(&env, &[FRESH_100, FRESH_101], 60), Err(Error::NotEnoughSources));
}

#[test]
fn test_aggregate_median_even_number_sources() {
    let mut env = World::default();
    env.timestamp = 1_000;
    let mut client = Client::new();
    // 4 sources: 100, 101, 99, 101 → sorted: 99, 100, 101, 101
    // Median should be (100 + 101) / 2 = 100
    assert_eq!(client.aggregate_price(&env, &[FRESH_100, FRESH_101, FRESH_99, FRESH_101], 60), 100);
}

#[test]
fn test_stddev_filter_rejects_extreme_outlier() {
    let mut env = World::default();
    env.timestamp = 1_000;
    let mut client = Client::new();
    // 150_000 is many σ away from the median (~100) and is dropped.
    assert_eq!(client.aggregate_price(&env, &[FRESH_100, FRESH_101, FRESH_99, OUTLIER], 60), 100);
}

#[test]
fn test_twap_equals_snapshot_when_no_time_elapsed() {
    let mut env = World::default();
    env.timestamp = 1_000;
    let mut client = Client::new();
    assert_eq!(client.get_twap(&env), 0);
    assert_eq!(client.aggregate_price(&env, &[FRESH_100, FRESH_101, FRESH_99], 60), 100);
    // Single observation with dt = 0 falls back to the latest snapshot.
    assert_eq!(client.get_twap(&env), 100);
}

#[test]
fn test_rolling_twap_weights_prices_by_elapsed_time() {
    let mut env = World::default();
    env.timestamp = 1_000;
    let (a, b, c) = register_tunable_trio(&mut env, 100, 1_000);
    let mut client = Client::new();
    client.initialize(3_600);

    let sources = [a, b, c];
    assert_eq!(client.aggregate_price(&env, &sources, 60), 100);

    // 100 seconds later the sources print 200.
    env.timestamp = 1_100;
    env.set_record(a, 200, 1_100);
    env.set_record(b, 200, 1_100);
    env.set_record(c, 200, 1_100);
    assert_eq!(client.aggregate_price(&env, &sources, 60), 200);

    // Immediately after the 200 snapshot the 200 price has zero duration, so
    // TWAP is still 100 (100 * 100s / 100s).
    assert_eq!(client.get_twap(&env), 100);

    // Hold 200 for another 200 seconds: TWAP = (100*100 + 200*200) / 300 = 166.
    env.timestamp = 1_300;
    assert_eq!(client.get_twap(&env), 166);
}

#[test]
fn test_twap_window_drops_expired_samples() {
    let mut env = World::default();
    env.timestamp = 1_000;
    let (a, b, c) = register_tunable_trio(&mut env, 50, 1_000);
    let mut client = Client::new();
    // 200-second rolling window.
    client.initialize(200);

    let sources = [a, b, c];
    assert_eq!(client.aggregate_price(&env, &sources, 60), 50);

    env.timestamp = 1_250;
    env.set_record(a, 150, 1_250);
    env.set_record(b, 150, 1_250);
    env.set_record(c, 150, 1_250);
    assert_eq!(client.aggregate_price(&env, &sources, 60), 150);

    // Window start = 1250 - 200 = 1050: the 50-price sample is the boundary
    // price, weighted from 1050 to 1250 → TWAP = 50.
    assert_eq!(client.get_twap(&env), 50);

    env.timestamp = 1_500;
    // Window start = 1300: only 150 (1300→1500) is weighted → TWAP = 150.
    assert_eq!(client.get_twap(&env), 150);
}

#[test]
fn test_initialize_rejects_zero_window() {
    let mut client = Client::new();
    assert_eq!(client.try_initialize(0), Err(Error::InvalidWindow));
}

// ── Further checks of the verified helpers ───────────────────────────────────

#[test]
fn test_sort_and_median_helpers() {
    let sorted = sort_prices(vec![5, -3, 9, 0, 5]);
    assert_eq!(sorted, vec![-3, 0, 5, 5, 9]);
    assert_eq!(median(&vec![1, 2, 3]), Ok(2));
    // Even count: the truncated mean of the two middle prices.
    assert_eq!(median(&vec![99, 100, 101, 101]), Ok(100));
    assert_eq!(OracleAggregator::abs_diff(3, 10), 7);
    assert_eq!(OracleAggregator::abs_diff(10, 3), 7);
    assert_eq!(OracleAggregator::isqrt(0), 0);
    assert_eq!(OracleAggregator::isqrt(-5), 0);
    assert_eq!(OracleAggregator::isqrt(99), 9);
    assert_eq!(OracleAggregator::isqrt(100), 10);
}

#[test]
fn test_oracle_error_codes() {
    assert_eq!(Error::NotEnoughSources.code(), 1);
    assert_eq!(Error::NotEnoughValidPrices.code(), 2);
    assert_eq!(Error::NotEnoughReliableSources.code(), 3);
    assert_eq!(Error::InvalidPrice.code(), 4);
    assert_eq!(Error::OracleStaleness.code(), 5);
    assert_eq!(Error::InvalidWindow.code(), 6);
}

#[test]
fn test_invalid_prices_are_not_counted() {
    let mut env = World::default();
    env.timestamp = 1_000;
    let mut client = Client::new();
    // Three fresh answers but one non-positive price: fewer than three valid.
    let r = client.try_aggregate_price(&env, &[FRESH_100, FRESH_101, Source::Fresh(0)], 60);
    assert!(r.is_err());
}

#[test]
fn twap_stays_within_the_sampled_prices() {
    let samples = vec![
        TwapSample { price: 100, timestamp: 0 },
        TwapSample { price: 200, timestamp: 10 },
        TwapSample { price: 150, timestamp: 25 },
    ];
    // 100 for 10 s, 200 for 15 s, 150 for 5 s: 4_750 / 30.
    assert_eq!(compute_twap(&samples, 30, 3_600), 158);
    for now in [25u64, 26, 40, 1_000, 100_000] {
        let t = compute_twap(&samples, now, 3_600);
        assert!((100..=200).contains(&t));
    }
}

#[test]
fn twap_of_negative_prices_stays_in_range() {
    let samples = vec![TwapSample { price: -100, timestamp: 0 }, TwapSample { price: 50, timestamp: 10 }];
    // -100 for 10 s, 50 for 20 s: 0 / 30.
    assert_eq!(compute_twap(&samples, 30, 3_600), 0);
    let t = compute_twap(&samples, 12, 3_600);
    assert!((-100..=50).contains(&t));
    assert_eq!(compute_twap(&vec![TwapSample { price: -7, timestamp: 5 }], 9, 100), -7);
}
