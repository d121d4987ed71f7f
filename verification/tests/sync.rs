use bulge::commands::sync::{source_file, sync_start, sync_step, SyncAction, SyncEvent, SyncPlan, SyncState};
use bulge::util::database::structs::Source;
use bulge::util::digest::{database_hash, verify_database};

const ABC_SHA512: &str = "ddaf35a193617abacc417349ae20413112e6fa4e89a97ea20a9eeee64b55d39a2192992a274fc1a836ba3c23a3feebbd454d4423643ce80e2a9ac94fa54ca49f";
const EMPTY_SHA512: &str = "cf83e1357eefb8bdf1542850d66d8007d620e4050b5715dc83f4a921d36ce9ce47d0d13c5d85f2b0ff8318d2877eec2f63b931bd47417a81a538327af927da3e";

fn plan() -> SyncPlan {
    SyncPlan {
        sources: vec![Source { name: "core".to_string(), url: None }],
        mirrors: vec!["https://m1/$repo/x86_64".to_string(), "https://m2/$repo".to_string()],
    }
}

#[test]
fn database_hash_is_lowercase_hex_sha512() {
    assert_eq!(database_hash(b"abc"), ABC_SHA512);
    assert_eq!(database_hash(b""), EMPTY_SHA512);
    assert_eq!(database_hash(b"abc").len(), 128);
}

#[test]
fn databases_verify_against_their_hash() {
    assert!(verify_database(b"abc", ABC_SHA512));
    assert!(!verify_database(b"abd", ABC_SHA512));
    assert!(!verify_database(b"abc", &ABC_SHA512.to_uppercase()));
    assert!(!verify_database(b"abc", ""));
    let content = b"some database".to_vec();
    assert!(verify_database(&content, &database_hash(&content)));
}

#[test]
fn source_files_on_mirrors() {
    let core = Source { name: "core".to_string(), url: None };
    assert_eq!(source_file(&core, "https://m/$repo/x86_64", "database.db"), "https://m/core/x86_64/database.db");
    let ext = Source { name: "external".to_string(), url: Some("https://www.example.com".to_string()) };
    assert_eq!(source_file(&ext, "https://m/$repo", "database.hash"), "https://www.example.com/database.hash");
}

#[test]
fn sync_walks_mirrors_until_a_database_verifies() {
    let p = plan();
    let st = sync_start();
    assert!(matches!(st, SyncState::Next { source: 0, mirror: 0 }));

    let (st, act) = sync_step(&p, st, SyncEvent::Ready);
    assert!(matches!(st, SyncState::AwaitDatabase { source: 0, mirror: 0 }));
    assert!(matches!(act, SyncAction::FetchDatabase(ref u) if u == "https://m1/core/x86_64/database.db"));

    let (st, act) = sync_step(&p, st, SyncEvent::Database(Some(b"abc".to_vec())));
    assert!(matches!(st, SyncState::AwaitHash { source: 0, mirror: 0, .. }));
    assert!(matches!(act, SyncAction::FetchHash(ref u) if u == "https://m1/core/x86_64/database.hash"));

    let (st, act) = sync_step(&p, st, SyncEvent::Hash(Some(EMPTY_SHA512.to_string())));
    assert!(matches!(st, SyncState::Next { source: 0, mirror: 1 }));
    assert!(matches!(act, SyncAction::Rejected(ref u) if u == "https://m1/core/x86_64/database.hash"));

    let (st, act) = sync_step(&p, st, SyncEvent::Ready);
    assert!(matches!(act, SyncAction::FetchDatabase(ref u) if u == "https://m2/core/database.db"));

    let (st, _) = sync_step(&p, st, SyncEvent::Database(Some(b"abc".to_vec())));
    let (st, act) = sync_step(&p, st, SyncEvent::Hash(Some(ABC_SHA512.to_string())));
    assert!(matches!(st, SyncState::Next { source: 1, mirror: 0 }));
    match act {
        SyncAction::Store { repo, database, hash } => {
            assert_eq!(repo, "core");
            assert_eq!(database, b"abc".to_vec());
            assert_eq!(hash, ABC_SHA512);
        }
        _ => panic!("expected the database to be stored"),
    }

    let (st, act) = sync_step(&p, st, SyncEvent::Ready);
    assert!(matches!(st, SyncState::Finished));
    assert!(matches!(act, SyncAction::Finish));
}

#[test]
fn failed_downloads_move_to_the_next_mirror() {
    let p = plan();
    let (st, _) = sync_step(&p, sync_start(), SyncEvent::Ready);
    let (st, act) = sync_step(&p, st, SyncEvent::Database(None));
    assert!(matches!(st, SyncState::Next { source: 0, mirror: 1 }));
    assert!(matches!(act, SyncAction::Continue));

    let (st, _) = sync_step(&p, st, SyncEvent::Ready);
    let (st, _) = sync_step(&p, st, SyncEvent::Database(Some(Vec::new())));
    let (st, act) = sync_step(&p, st, SyncEvent::Hash(None));
    assert!(matches!(st, SyncState::Next { source: 0, mirror: 2 }));
    assert!(matches!(act, SyncAction::Continue));

    // Every mirror failed: the source is given up and the next one begins.
    let (st, act) = sync_step(&p, st, SyncEvent::Ready);
    assert!(matches!(st, SyncState::Next { source: 1, mirror: 0 }));
    assert!(matches!(act, SyncAction::Continue));
    let (st, act) = sync_step(&p, st, SyncEvent::Ready);
    assert!(matches!(st, SyncState::Finished));
    assert!(matches!(act, SyncAction::Finish));
}

#[test]
fn a_source_with_its_own_address_ignores_the_mirrors() {
    let p = SyncPlan {
        sources: vec![Source { name: "external".to_string(), url: Some("https://www.example.com".to_string()) }],
        mirrors: vec!["https://m1/$repo".to_string()],
    };
    let (_, act) = sync_step(&p, sync_start(), SyncEvent::Ready);
    assert!(matches!(act, SyncAction::FetchDatabase(ref u) if u == "https://www.example.com/database.db"));
}

#[test]
fn no_mirrors_means_nothing_is_fetched() {
    let p = SyncPlan { sources: vec![Source { name: "core".to_string(), url: None }], mirrors: Vec::new() };
    let (st, act) = sync_step(&p, sync_start(), SyncEvent::Ready);
    assert!(matches!(st, SyncState::Next { source: 1, mirror: 0 }));
    assert!(matches!(act, SyncAction::Continue));
}
