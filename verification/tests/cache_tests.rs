use hole_core::object_cache::{PostCache, PostCommentCache, UserCache};
use hole_core::post::{Comment, Post, User};

fn mk_post(id: i32) -> Post {
    Post {
        id,
        author_hash: format!("hash{}", id),
        content: format!("content {}", id),
        cw: "cw".to_string(),
        author_title: String::new(),
        is_tmp: false,
        n_attentions: 1,
        n_comments: 0,
        create_time: 500,
        last_comment_time: 500,
        is_deleted: false,
        is_reported: false,
        hot_score: 3,
        allow_search: true,
        room_id: 0,
        up_votes: 0,
        down_votes: 0,
    }
}

fn mk_comment(id: i32, pid: i32) -> Comment {
    Comment {
        id,
        author_hash: format!("hash{}", id),
        author_title: String::new(),
        is_tmp: false,
        content: format!("comment {}", id),
        create_time: 600,
        is_deleted: false,
        allow_search: true,
        post_id: pid,
    }
}

#[test]
fn set_multi_then_get_round_trips() {
    let mut c = PostCache::init();
    let p = mk_post(5);
    c.sets(&vec![p.clone()], 1000);
    assert_eq!(c.get(5, 1000), Some(p));
}

#[test]
fn get_miss_and_expiry() {
    let mut c = PostCache::init();
    assert_eq!(c.get(5, 1000), None);
    let p = mk_post(5);
    c.sets(&vec![p.clone()], 1000);
    // within the hour-long window the copy is served
    assert_eq!(c.get(5, 1000 + 3599), Some(p));
    // at the expiry instant the entry is dead
    assert_eq!(c.get(5, 1000 + 3600 + 3599), None);
}

#[test]
fn read_hit_refreshes_ttl() {
    let mut c = PostCache::init();
    let p = mk_post(5);
    c.sets(&vec![p.clone()], 1000);
    // read shortly before expiry; the hit pushes the window out
    assert_eq!(c.get(5, 4500), Some(p.clone()));
    assert_eq!(c.get(5, 4500 + 3599), Some(p));
}

#[test]
fn deleted_posts_are_cached_and_returned() {
    let mut c = PostCache::init();
    let mut p = mk_post(9);
    p.is_deleted = true;
    c.sets(&vec![p.clone()], 0);
    assert_eq!(c.get(9, 10), Some(p));
}

#[test]
fn sets_empty_batch_is_a_no_op() {
    let mut c = PostCache::init();
    c.sets(&Vec::new(), 0);
    assert_eq!(c.gets(&Vec::new(), 0), Vec::new());
}

#[test]
fn get_multi_single_element_equals_get() {
    let mut c1 = PostCache::init();
    let mut c2 = PostCache::init();
    let p = mk_post(5);
    c1.sets(&vec![p.clone()], 1000);
    c2.sets(&vec![p.clone()], 1000);
    let single = c1.gets(&vec![5], 2000);
    assert_eq!(single.len(), 1);
    assert_eq!(single[0], c2.get(5, 2000));
    // and for a miss
    let miss = c1.gets(&vec![77], 2000);
    assert_eq!(miss.len(), 1);
    assert_eq!(miss[0], c2.get(77, 2000));
}

#[test]
fn get_multi_preserves_input_order_with_positional_misses() {
    let mut c = PostCache::init();
    let p1 = mk_post(1);
    let p3 = mk_post(3);
    c.sets(&vec![p1.clone(), p3.clone()], 0);
    let r = c.gets(&vec![3, 2, 1], 1);
    assert_eq!(r, vec![Some(p3), None, Some(p1)]);
}

#[test]
fn clear_all_purges_the_namespace() {
    let mut c = PostCache::init();
    c.sets(&vec![mk_post(1), mk_post(2)], 0);
    c.clear_all();
    assert_eq!(c.gets(&vec![1, 2], 1), vec![None, None]);
}

#[test]
fn comment_cache_set_get_clear() {
    let mut cc = PostCommentCache::init();
    let cs = vec![mk_comment(1, 5), mk_comment(2, 5)];
    cc.set(5, &cs, 100);
    assert_eq!(cc.get(5, 200), Some(cs.clone()));
    cc.clear(5);
    assert_eq!(cc.get(5, 200), None);
}

#[test]
fn user_cache_round_trip_and_expiry() {
    let mut uc = UserCache::init();
    let u = User { id: 1, name: "ada".to_string(), token: "tok".to_string(), is_admin: false };
    uc.set(&"tok".to_string(), &u, 100);
    assert_eq!(uc.get(&"tok".to_string(), 200), Some(u));
    assert_eq!(uc.get(&"other".to_string(), 200), None);
    assert_eq!(uc.get(&"tok".to_string(), 100 + 7300), None);
}
