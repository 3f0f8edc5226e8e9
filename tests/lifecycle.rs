use hello_rust_backend::aws::{
    join_partition_results, NotionDBPropertyOptions, SyncRecord, UserCredentialsCache, UserRecord,
};
use hello_rust_backend::settings::{clustered_default, Settings};
use hello_rust_backend::supervisor::{start, step, Action, Event, Phase, RESTART_BACKOFF_SECONDS};
use hello_rust_backend::{
    filter_data_by_hardcoded_user_id, GoogleToken, RetryConfig, RetryDecision, RetryState,
    HARDCODED_USER_ID,
};

fn user(id: &str) -> UserRecord {
    UserRecord {
        user_id: id.to_string(),
        record_type: "userDetails".to_string(),
        data: format!("data-{id}"),
        google_refresh_token: Some(format!("refresh-{id}")),
        notion_data: None,
    }
}

fn sync_record(id: &str) -> SyncRecord {
    SyncRecord {
        user_id: id.to_string(),
        record_type: "sync#2".to_string(),
        data: "SCHEDULED#2024".to_string(),
        last_sync: None,
        notion_db_props: NotionDBPropertyOptions {
            notion_title_id: "t".to_string(),
            notion_done_id: "d".to_string(),
        },
        google_calendar: "primary".to_string(),
        notion_database: "db".to_string(),
    }
}

#[test]
fn fake_test() {
    let result = 2 + 2;
    assert_eq!(result, 4);
}

#[test]
fn retry_config_default() {
    let c = RetryConfig::default();
    assert_eq!(c.maximum_backoff_ms, 30_000);
    assert_eq!(c.maximum_n_tries, None);
    assert_eq!(c.initial_duration_ms, 5);
}

#[test]
fn partition_query_gives_up_after_ten_attempts() {
    let config = RetryConfig {
        maximum_backoff_ms: 10_000,
        maximum_n_tries: Some(10),
        initial_duration_ms: 5,
    };
    let mut state = RetryState::new(&config);
    let mut waits = vec![];
    for _ in 0..9 {
        match state.record_failure(&config) {
            RetryDecision::RetryAfter(w) => waits.push(w),
            RetryDecision::GiveUp => panic!("gave up too early"),
        }
    }
    assert_eq!(waits, vec![5, 10, 20, 40, 80, 160, 320, 640, 1280]);
    assert_eq!(state.record_failure(&config), RetryDecision::GiveUp);
    assert_eq!(state.n_tries, 10);
}

#[test]
fn backoff_is_capped() {
    let config = RetryConfig {
        maximum_backoff_ms: 300_000,
        maximum_n_tries: None,
        initial_duration_ms: 1_000,
    };
    let mut state = RetryState::new(&config);
    let mut waits = vec![];
    for _ in 0..12 {
        match state.record_failure(&config) {
            RetryDecision::RetryAfter(w) => waits.push(w),
            RetryDecision::GiveUp => panic!("never gives up"),
        }
    }
    assert_eq!(
        waits,
        vec![
            1_000, 2_000, 4_000, 8_000, 16_000, 32_000, 64_000, 128_000, 256_000, 300_000,
            300_000, 300_000
        ]
    );
}

#[test]
fn start_wait_above_cap_is_held_to_cap() {
    let config = RetryConfig { maximum_backoff_ms: 5, maximum_n_tries: Some(4), initial_duration_ms: 10 };
    let mut state = RetryState::new(&config);
    assert_eq!(state.wait_ms, 5);
    assert_eq!(state.record_failure(&config), RetryDecision::RetryAfter(5));
    assert_eq!(state.record_failure(&config), RetryDecision::RetryAfter(5));
    assert_eq!(state.record_failure(&config), RetryDecision::RetryAfter(5));
    assert_eq!(state.record_failure(&config), RetryDecision::GiveUp);
    assert!(state.wait_ms <= 5);
    // A state whose wait was set past the cap by hand is held to the cap too.
    let mut state = RetryState { n_tries: 0, wait_ms: 1_000 };
    assert_eq!(state.record_failure(&config), RetryDecision::RetryAfter(5));
    assert_eq!(state.wait_ms, 5);
}

#[test]
fn backoff_doubles_to_exactly_the_cap() {
    let config = RetryConfig { maximum_backoff_ms: 30, maximum_n_tries: None, initial_duration_ms: 4 };
    let mut state = RetryState::new(&config);
    let mut waits = vec![];
    for _ in 0..5 {
        if let RetryDecision::RetryAfter(w) = state.record_failure(&config) {
            waits.push(w);
        }
    }
    assert_eq!(waits, vec![4, 8, 16, 30, 30]);
}

#[test]
fn zero_attempts_allowed_gives_up_at_once() {
    let config = RetryConfig { maximum_backoff_ms: 10, maximum_n_tries: Some(0), initial_duration_ms: 1 };
    let mut state = RetryState::new(&config);
    assert_eq!(state.record_failure(&config), RetryDecision::GiveUp);
}

#[test]
fn tick_skip_on_partition_query_failure() {
    let config = RetryConfig {
        maximum_backoff_ms: 10_000,
        maximum_n_tries: Some(10),
        initial_duration_ms: 5,
    };
    // Partition 2 fails eleven times in a row: its query gives up on the tenth.
    let mut state = RetryState::new(&config);
    let mut attempts = 0;
    let partition_2 = loop {
        attempts += 1;
        if let RetryDecision::GiveUp = state.record_failure(&config) {
            break Err::<Vec<SyncRecord>, String>("query failed".to_string());
        }
    };
    assert_eq!(attempts, 10);
    let tick = vec![Ok(vec![sync_record("u0")]), Ok(vec![sync_record("u1")]), partition_2];
    assert_eq!(join_partition_results(tick).err(), Some("query failed".to_string()));
    // The next tick proceeds normally.
    let tick: Vec<Result<Vec<SyncRecord>, String>> = vec![
        Ok(vec![sync_record("u0")]),
        Ok(vec![]),
        Ok(vec![sync_record("u2"), sync_record("u3")]),
    ];
    let jobs = join_partition_results(tick).unwrap();
    let ids: Vec<&str> = jobs.iter().map(|j| j.user_id.as_str()).collect();
    assert_eq!(ids, vec!["u0", "u2", "u3"]);
}

#[test]
fn join_reports_first_failure() {
    let results: Vec<Result<Vec<u8>, u8>> = vec![Ok(vec![1]), Err(7), Err(9)];
    assert_eq!(join_partition_results(results), Err(7));
    let empty: Vec<Result<Vec<u8>, u8>> = vec![];
    assert_eq!(join_partition_results(empty), Ok(vec![]));
}

#[test]
fn credentials_cache_fetches_each_user_once() {
    let mut cache = UserCredentialsCache::new();
    let jobs = ["u1", "u2", "u1", "u1", "u2", "u3"];
    let mut fetched = vec![];
    for id in jobs {
        let id = id.to_string();
        if cache.get(&id).is_none() {
            fetched.push(id.clone());
            cache.insert(user(&id));
        }
        assert_eq!(cache.get(&id).unwrap().user_id, id);
    }
    assert_eq!(fetched, vec!["u1", "u2", "u3"]);
    let mut replaced = user("u2");
    replaced.data = "new".to_string();
    cache.insert(replaced);
    assert_eq!(cache.get(&"u2".to_string()).unwrap().data, "new");
    assert_eq!(cache.get(&"u1".to_string()).unwrap().data, "data-u1");
    assert!(cache.get(&"u4".to_string()).is_none());
}

#[test]
fn google_token_lifecycle() {
    let mut token = GoogleToken::new("refresh-me");
    assert_eq!(token.refresh_token, "refresh-me");
    assert!(token.access_token.is_none());
    assert!(token.is_expired(0));
    assert_eq!(token.current_access_token(), None);
    token.set_access_token("access".to_string(), 3600, 1_000);
    assert_eq!(token.access_token.as_ref().unwrap().expiry_time, 4_600);
    assert!(!token.is_expired(4_599));
    assert!(token.is_expired(4_600));
    assert_eq!(token.current_access_token(), Some(&"access".to_string()));
    assert_eq!(token.refresh_token, "refresh-me");
}

#[test]
fn hardcoded_user_filter() {
    let users = vec![user("someone"), user(HARDCODED_USER_ID), user("other")];
    let found = filter_data_by_hardcoded_user_id(&users).unwrap();
    assert_eq!(found.user_id, "e2TPa0rcNbgDSmPXDA8CtHlOjUN2");
    assert!(filter_data_by_hardcoded_user_id(&users[..1]).is_none());
    assert!(filter_data_by_hardcoded_user_id(&[]).is_none());
}

#[test]
fn settings_endpoint() {
    assert!(clustered_default());
    let mut s = Settings {
        google_oauth_client_id: "id".to_string(),
        google_oauth_client_secret: "secret".to_string(),
        etcd_url: Some("http://etcd:2379".to_string()),
        clustered: true,
        node_name: "a".to_string(),
    };
    assert_eq!(s.cluster_endpoint(), Some(&"http://etcd:2379".to_string()));
    s.clustered = false;
    assert_eq!(s.cluster_endpoint(), None);
    s.clustered = true;
    s.etcd_url = None;
    assert_eq!(s.cluster_endpoint(), None);
}

#[test]
fn lifecycle_boot_and_recovery() {
    let (phase, action) = start();
    assert_eq!((phase, action), (Phase::AcquireLease, Action::GrantLease));
    let (phase, action) = step(phase, Event::LeaseGranted { lease_id: 7 });
    assert_eq!(action, Action::RecordMembership { lease_id: 7 });
    let (phase, action) = step(phase, Event::MembershipRecorded);
    assert_eq!(phase, Phase::Running { lease_id: 7 });
    assert_eq!(action, Action::StartWork { lease_id: 7 });
    let (phase, action) = step(phase, Event::LeaseLost);
    assert_eq!(phase, Phase::Backoff);
    assert_eq!(action, Action::TearDownAndWait { seconds: RESTART_BACKOFF_SECONDS });
    assert_eq!(RESTART_BACKOFF_SECONDS, 5);
    let (phase, action) = step(phase, Event::BackoffElapsed);
    assert_eq!((phase, action), (Phase::AcquireLease, Action::GrantLease));
    let (phase, action) = step(phase, Event::LeaseGrantFailed);
    assert_eq!((phase, action), (Phase::Backoff, Action::Wait { seconds: 5 }));
    let (phase, action) = step(phase, Event::MembershipRecorded);
    assert_eq!((phase, action), (Phase::Backoff, Action::Nothing));
    let (phase, _) = step(phase, Event::BackoffElapsed);
    let (phase, _) = step(phase, Event::LeaseGranted { lease_id: 8 });
    let (phase, action) = step(phase, Event::MembershipFailed);
    assert_eq!((phase, action), (Phase::Backoff, Action::Wait { seconds: 5 }));
}

#[test]
fn graceful_shutdown() {
    let (phase, _) = step(Phase::Running { lease_id: 3 }, Event::ShutdownSignal);
    assert_eq!(phase, Phase::Exited);
    let (_, action) = step(Phase::Running { lease_id: 3 }, Event::ShutdownSignal);
    assert_eq!(action, Action::Shutdown { lease_id: Some(3) });
    let (_, action) = step(Phase::RegisterMembership { lease_id: 4 }, Event::ShutdownSignal);
    assert_eq!(action, Action::Shutdown { lease_id: Some(4) });
    let (_, action) = step(Phase::AcquireLease, Event::ShutdownSignal);
    assert_eq!(action, Action::Shutdown { lease_id: None });
    let (phase, action) = step(Phase::Running { lease_id: 3 }, Event::PipelineFinished);
    assert_eq!((phase, action), (Phase::Exited, Action::Shutdown { lease_id: Some(3) }));
    for e in [Event::LeaseGranted { lease_id: 1 }, Event::BackoffElapsed, Event::ShutdownSignal] {
        assert_eq!(step(Phase::Exited, e), (Phase::Exited, Action::Nothing));
    }
}
