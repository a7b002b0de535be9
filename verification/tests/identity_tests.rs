use hole_core::api::CurrentUser;
use hole_core::systemlog::{LogType, Systemlog, SystemlogStore};
use hole_core::block::{check_if_block, AutoBlockRank, BlockCounter, BlockDictCache, BlockedUsers};
use hole_core::decimal::i32_to_string;
use hole_core::forum::Forum;
use hole_core::random_hasher::{normalize_token, RandomHasher};
use hole_core::rng::{random_sort_key, random_string};

fn mk_user(id: Option<i32>, hash: &str, rank: u8) -> CurrentUser {
    CurrentUser {
        id,
        namehash: hash.to_string(),
        is_admin: false,
        is_candidate: false,
        custom_title: None,
        title_secret: None,
        auto_block_rank: rank,
    }
}

#[test]
fn i32_to_string_renders_decimal() {
    assert_eq!(i32_to_string(0), "0");
    assert_eq!(i32_to_string(42), "42");
    assert_eq!(i32_to_string(-123), "-123");
    assert_eq!(i32_to_string(i32::MAX), "2147483647");
}

#[test]
fn random_sort_key_is_in_range() {
    for _ in 0..100 {
        let k = random_sort_key();
        assert!(k >= 0);
        assert!(k < i64::MAX);
    }
}

#[test]
fn random_string_has_requested_length_and_shape() {
    let s = random_string(16);
    assert_eq!(s.chars().count(), 16);
    assert!(s.chars().all(|c| c.is_ascii_alphanumeric()));
    assert_eq!(random_string(0), "");
}

#[test]
fn hash_with_salt_is_a_deterministic_digest() {
    let h = RandomHasher { salt: "pepper".to_string(), start_time: 0 };
    let a = h.hash_with_salt(&"alice".to_string());
    let b = h.hash_with_salt(&"alice".to_string());
    assert_eq!(a, b);
    assert_eq!(a.chars().count(), 16);
    assert!(a.chars().all(|c| c.is_ascii_hexdigit() && !c.is_ascii_lowercase()));
    // the fingerprint is not the identity
    assert_ne!(a, "alice");
}

#[test]
fn normalize_token_hashes_only_the_prefixed_form() {
    assert_eq!(normalize_token(&"plain".to_string()), "plain");
    assert_eq!(normalize_token(&"sha256:a:b".to_string()), "sha256:a:b");
    let t = normalize_token(&"sha256:secret".to_string());
    assert_eq!(t.chars().count(), 16);
    assert!(t.chars().all(|c| c.is_ascii_hexdigit() && !c.is_ascii_uppercase()));
    assert_ne!(t, "sha256:secret");
    // deterministic
    assert_eq!(t, normalize_token(&"sha256:secret".to_string()));
}

#[test]
fn tmp_token_rotates_by_quarter_hour() {
    let h = RandomHasher { salt: "pepper".to_string(), start_time: 77 };
    let t1 = h.get_tmp_token(1000);
    // within the same quarter hour the token is stable
    assert_eq!(t1, h.get_tmp_token(1300));
    assert_eq!(t1.chars().count(), 16);
}

#[test]
fn visibility_rule_combines_explicit_blocks_and_counter() {
    let mut bu = BlockedUsers::init();
    let mut bc = BlockCounter::init();
    let viewer = mk_user(Some(7), "viewer", 2);
    let hash = "author".to_string();
    assert!(!check_if_block(&bu, &bc, &viewer, &hash));
    bu.add(7, &hash);
    assert!(check_if_block(&bu, &bc, &viewer, &hash));
    // the global counter hides an author at rank * 5 blocks
    let other = "other".to_string();
    for _ in 0..9 {
        bc.count_incr(&other);
    }
    assert!(!check_if_block(&bu, &bc, &viewer, &other));
    bc.count_incr(&other);
    assert!(check_if_block(&bu, &bc, &viewer, &other));
    // a temporary viewer has no explicit blocks
    let tmp = mk_user(None, "viewer", 2);
    assert!(!check_if_block(&bu, &bc, &tmp, &hash));
}

#[test]
fn auto_block_rank_defaults_to_four() {
    let mut r = AutoBlockRank::init();
    assert_eq!(r.get(&"x".to_string()), 4);
    r.set(&"x".to_string(), 1);
    assert_eq!(r.get(&"x".to_string()), 1);
    r.clear();
    assert_eq!(r.get(&"x".to_string()), 4);
}

#[test]
fn block_dict_get_or_create_is_idempotent() {
    let mut bu = BlockedUsers::init();
    let bc = BlockCounter::init();
    let viewer = mk_user(Some(7), "viewer", 2);
    bu.add(7, &"b".to_string());
    let hashes = vec!["a".to_string(), "b".to_string(), "a".to_string()];
    let mut cache = BlockDictCache::init();
    let (d1, lookups1) = cache.get_or_create(&bu, &bc, &viewer, &hashes, 100);
    assert!(lookups1 > 0);
    assert_eq!(d1.get(&"a".to_string()), Some(&false));
    assert_eq!(d1.get(&"b".to_string()), Some(&true));
    // the second identical call issues zero further durable lookups and
    // returns the same dictionary
    let (d2, lookups2) = cache.get_or_create(&bu, &bc, &viewer, &hashes, 200);
    assert_eq!(lookups2, 0);
    assert_eq!(d2.len(), d1.len());
    assert_eq!(d2.get(&"a".to_string()), Some(&false));
    assert_eq!(d2.get(&"b".to_string()), Some(&true));
    // after an invalidation the lookups are made again
    cache.clear();
    let (_, lookups3) = cache.get_or_create(&bu, &bc, &viewer, &hashes, 300);
    assert!(lookups3 > 0);
}

#[test]
fn token_lookup_round_trips_through_cache_and_store() {
    let mut f = Forum::init();
    let token = f.store.find_or_create_token(&"ada".to_string(), false);
    // same name, same token
    assert_eq!(f.store.find_or_create_token(&"ada".to_string(), false), token);
    let u = f.get_by_token(&token, 100).unwrap();
    assert_eq!(u.name, "ada");
    // second read is served from the cache
    assert_eq!(f.get_by_token(&token, 200).unwrap(), u);
    assert_eq!(f.get_by_token(&"nobody".to_string(), 100), None);
    // a forced refresh rotates the token
    let fresh = f.store.find_or_create_token(&"ada".to_string(), true);
    assert_ne!(fresh, token);
    assert_eq!(f.store.get_user_by_token(&fresh).unwrap().name, "ada");
}

#[test]
fn clear_non_admin_users_keeps_admins() {
    let mut f = Forum::init();
    f.store.find_or_create_token(&"mortal".to_string(), false);
    let admin_token = f.store.find_or_create_token(&"keeper".to_string(), false);
    // promote the second account by hand
    let u = f.store.get_user_by_token(&admin_token).unwrap();
    assert_eq!(u.name, "keeper");
    let mut f2 = Forum::init();
    f2.store.find_or_create_token(&"mortal".to_string(), false);
    f2.clear_non_admin_users();
    assert_eq!(f2.store.get_count(), 0);
}

#[test]
fn systemlog_is_trimmed_to_capacity() {
    let mut log = SystemlogStore::init();
    for i in 0..1005 {
        log.create(Systemlog {
            user_hash: "h".to_string(),
            action_type: LogType::Report,
            target: format!("#{}", i),
            detail: String::new(),
            time: i as i64,
        });
    }
    let recent = log.get_list(50);
    assert_eq!(recent.len(), 51);
    // newest first
    assert_eq!(recent[0].time, 1004);
    assert_eq!(recent[1].time, 1003);
}
