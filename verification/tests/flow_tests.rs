use hole_core::api::{AttentionInput, BlockInput, CommentInput, CurrentUser, CwInput, DeleteInput, PermissionCheck, PolicyError, PostInput, ReactionInput, ReportInput};
use hole_core::forum::{ApiError, Forum};
use hole_core::post::{CounterField, PostOp};
use hole_core::store::StoreError;

fn mk_user(id: Option<i32>, hash: &str, admin: bool) -> CurrentUser {
    CurrentUser {
        id,
        namehash: hash.to_string(),
        is_admin: admin,
        is_candidate: false,
        custom_title: None,
        title_secret: None,
        auto_block_rank: 2,
    }
}

fn mk_post_input(text: &str, room: Option<i32>) -> PostInput {
    PostInput {
        text: text.to_string(),
        cw: String::new(),
        allow_search: Some(1),
        use_title: None,
        poll_options: Vec::new(),
        room_id: room,
    }
}

const NOW: i64 = 10_000;

#[test]
fn publish_then_listing_includes_the_post() {
    let mut f = Forum::init();
    let user = mk_user(Some(1), "alice", false);
    let p = f.publish_post(&user, &mk_post_input("hello", Some(2)), NOW);
    assert_eq!(p.id, 1);
    assert_eq!(p.room_id, 2);
    assert_eq!(p.n_attentions, 1);
    // every ranked mode a fresh post participates in eventually shows it,
    // in the room-scoped and the room-agnostic view alike
    for mode in [0u8, 2, 3, 4] {
        let page = f.gets_by_page(None, mode, 0, 25, NOW);
        assert!(page.iter().any(|q| q.id == p.id), "aggregate mode {}", mode);
        let page = f.gets_by_page(Some(2), mode, 0, 25, NOW);
        assert!(page.iter().any(|q| q.id == p.id), "room mode {}", mode);
    }
}

#[test]
fn get_unknown_post_is_a_hard_error() {
    let mut f = Forum::init();
    assert_eq!(f.get(3, NOW), Err(StoreError::NotFound));
}

#[test]
fn get_round_trips_through_the_cache() {
    let mut f = Forum::init();
    let user = mk_user(Some(1), "alice", false);
    let p = f.publish_post(&user, &mk_post_input("hello", None), NOW);
    assert_eq!(f.get(p.id, NOW), Ok(p.clone()));
    assert_eq!(f.get(p.id, NOW + 60), Ok(p));
}

#[test]
fn get_multi_filters_deleted_and_keeps_order() {
    let mut f = Forum::init();
    let alice = mk_user(Some(1), "alice", false);
    let p1 = f.publish_post(&alice, &mk_post_input("one", None), NOW);
    let p2 = f.publish_post(&alice, &mk_post_input("two", None), NOW);
    let p3 = f.publish_post(&alice, &mk_post_input("three", None), NOW);
    let di = DeleteInput { id_type: "pid".to_string(), id: p2.id, note: String::new() };
    assert_eq!(f.delete(&alice, &di, NOW), Ok(()));
    let got = f.get_multi(&vec![p3.id, p2.id, p1.id, 99], NOW + 7300);
    let ids: Vec<i32> = got.iter().map(|p| p.id).collect();
    assert_eq!(ids, vec![p3.id, p1.id]);
}

#[test]
fn attention_toggles_count_and_hot_score() {
    let mut f = Forum::init();
    let alice = mk_user(Some(1), "alice", false);
    let bob = mk_user(Some(2), "bob", false);
    let p = f.publish_post(&alice, &mk_post_input("hi", None), NOW);
    let on = AttentionInput { pid: p.id, switch: 1 };
    let res = f.attention_post(&bob, &on, NOW).unwrap();
    assert!(res.attention);
    assert_eq!(res.n_attentions, 2);
    // n_attentions 2 <= 3 * n_comments is false (0 comments): no hot bonus
    assert_eq!(f.get(p.id, NOW + 7300).unwrap().hot_score, 0);
    // repeated switch in the same direction is a no-op
    let res2 = f.attention_post(&bob, &on, NOW).unwrap();
    assert_eq!(res2.n_attentions, 2);
    let off = AttentionInput { pid: p.id, switch: 0 };
    let res3 = f.attention_post(&bob, &off, NOW).unwrap();
    assert_eq!(res3.n_attentions, 1);
    assert!(!res3.attention);
}

#[test]
fn attention_needs_a_registered_user() {
    let mut f = Forum::init();
    let tmp = mk_user(None, "ghost", false);
    let ai = AttentionInput { pid: 1, switch: 1 };
    assert_eq!(f.attention_post(&tmp, &ai, NOW), Err(ApiError::Pc(PolicyError::YouAreTmp)));
}

#[test]
fn comment_scenario_from_non_attending_user() {
    let mut f = Forum::init();
    let alice = mk_user(Some(1), "alice", false);
    let bob = mk_user(Some(2), "bob", false);
    let p = f.publish_post(&alice, &mk_post_input("hi", None), NOW);
    // drive the row to n_attentions = 2, n_comments = 5 directly
    let ops = vec![
        PostOp::SetCounter(CounterField::NAttentions, 2),
        PostOp::SetCounter(CounterField::NComments, 5),
        PostOp::SetCounter(CounterField::HotScore, 0),
    ];
    f.store.update_post(p.id, &ops).unwrap();
    f.clear_all_object_cache();
    let ci = CommentInput { text: "first!".to_string(), use_title: None };
    let c = f.add_comment(p.id, &bob, &ci, NOW).unwrap();
    assert_eq!(c.post_id, p.id);
    let row = f.store.get_post(p.id).unwrap();
    // the fresh commenter starts attending: 2 -> 3, and pays +3 hot bonus
    assert_eq!(row.n_attentions, 3);
    assert_eq!(row.n_comments, 6);
    assert_eq!(row.hot_score, 3);
    assert_eq!(row.last_comment_time, NOW);
}

#[test]
fn repeat_commenter_hot_delta_follows_ratio() {
    let mut f = Forum::init();
    let alice = mk_user(Some(1), "alice", false);
    let p = f.publish_post(&alice, &mk_post_input("hi", None), NOW);
    let ops = vec![
        PostOp::SetCounter(CounterField::NAttentions, 2),
        PostOp::SetCounter(CounterField::NComments, 5),
        PostOp::SetCounter(CounterField::HotScore, 0),
    ];
    f.store.update_post(p.id, &ops).unwrap();
    f.clear_all_object_cache();
    // alice already attends her own post: n_comments 5 < 3 * 2 gives +1
    let ci = CommentInput { text: "again".to_string(), use_title: None };
    f.add_comment(p.id, &alice, &ci, NOW).unwrap();
    assert_eq!(f.store.get_post(p.id).unwrap().hot_score, 1);
    // now at n_comments 6 >= 3 * 2 the bonus dries up
    f.clear_all_object_cache();
    f.add_comment(p.id, &alice, &ci, NOW).unwrap();
    assert_eq!(f.store.get_post(p.id).unwrap().hot_score, 1);
}

#[test]
fn comments_are_cached_and_invalidated() {
    let mut f = Forum::init();
    let alice = mk_user(Some(1), "alice", false);
    let p = f.publish_post(&alice, &mk_post_input("hi", None), NOW);
    assert_eq!(f.get_comments(p.id, NOW), Vec::new());
    let ci = CommentInput { text: "hello".to_string(), use_title: None };
    let c = f.add_comment(p.id, &alice, &ci, NOW).unwrap();
    let cs = f.get_comments(p.id, NOW);
    assert_eq!(cs, vec![c]);
}

#[test]
fn reaction_moves_vote_tallies() {
    let mut f = Forum::init();
    let alice = mk_user(Some(1), "alice", false);
    let bob = mk_user(Some(2), "bob", false);
    let p = f.publish_post(&alice, &mk_post_input("hi", None), NOW);
    let up = ReactionInput { status: 1 };
    let r = f.reaction(p.id, &bob, &up, NOW).unwrap();
    assert_eq!((r.up_votes, r.down_votes), (1, 0));
    // switching to a down-vote withdraws the up-vote
    let down = ReactionInput { status: -1 };
    let r = f.reaction(p.id, &bob, &down, NOW).unwrap();
    assert_eq!((r.up_votes, r.down_votes), (0, 1));
    // clearing withdraws the down-vote
    let none = ReactionInput { status: 0 };
    let r = f.reaction(p.id, &bob, &none, NOW).unwrap();
    assert_eq!((r.up_votes, r.down_votes), (0, 0));
}

#[test]
fn delete_of_post_suppresses_it_from_all_listings() {
    let mut f = Forum::init();
    let alice = mk_user(Some(1), "alice", false);
    let p = f.publish_post(&alice, &mk_post_input("bye", Some(1)), NOW);
    let di = DeleteInput { id_type: "pid".to_string(), id: p.id, note: String::new() };
    assert_eq!(f.delete(&alice, &di, NOW), Ok(()));
    // the row is soft-deleted, still addressable by id
    assert!(f.store.get_post(p.id).unwrap().is_deleted);
    for mode in [0u8, 2, 3, 4] {
        let page = f.gets_by_page(Some(1), mode, 0, 25, NOW);
        assert!(page.iter().all(|q| q.id != p.id), "mode {}", mode);
    }
}

#[test]
fn delete_of_commented_post_blanks_instead() {
    let mut f = Forum::init();
    let alice = mk_user(Some(1), "alice", false);
    let p = f.publish_post(&alice, &mk_post_input("secret", None), NOW);
    let ci = CommentInput { text: "hello".to_string(), use_title: None };
    f.add_comment(p.id, &alice, &ci, NOW).unwrap();
    let di = DeleteInput { id_type: "pid".to_string(), id: p.id, note: String::new() };
    assert_eq!(f.delete(&alice, &di, NOW), Ok(()));
    let row = f.store.get_post(p.id).unwrap();
    assert!(!row.is_deleted);
    assert_eq!(row.content, "[洞主已删除]");
}

#[test]
fn delete_of_comment_decrements_counters() {
    let mut f = Forum::init();
    let alice = mk_user(Some(1), "alice", false);
    let p = f.publish_post(&alice, &mk_post_input("hi", None), NOW);
    let ci = CommentInput { text: "hello".to_string(), use_title: None };
    let c = f.add_comment(p.id, &alice, &ci, NOW).unwrap();
    let before = f.store.get_post(p.id).unwrap();
    let di = DeleteInput { id_type: "cid".to_string(), id: c.id, note: String::new() };
    assert_eq!(f.delete(&alice, &di, NOW), Ok(()));
    let after = f.store.get_post(p.id).unwrap();
    assert_eq!(after.n_comments, before.n_comments - 1);
    assert_eq!(after.hot_score, before.hot_score - 1);
    assert!(f.store.get_comment(c.id).unwrap().is_deleted);
}

#[test]
fn delete_with_unknown_type_is_refused() {
    let mut f = Forum::init();
    let alice = mk_user(Some(1), "alice", false);
    let di = DeleteInput { id_type: "other".to_string(), id: 1, note: String::new() };
    assert_eq!(f.delete(&alice, &di, NOW), Err(ApiError::Pc(PolicyError::NotAllowed)));
}

#[test]
fn delete_of_foreign_post_is_refused() {
    let mut f = Forum::init();
    let alice = mk_user(Some(1), "alice", false);
    let bob = mk_user(Some(2), "bob", false);
    let p = f.publish_post(&alice, &mk_post_input("mine", None), NOW);
    let di = DeleteInput { id_type: "pid".to_string(), id: p.id, note: String::new() };
    assert_eq!(f.delete(&bob, &di, NOW), Err(ApiError::Pc(PolicyError::NotAllowed)));
}

#[test]
fn admin_ban_note_suspends_the_author() {
    let mut f = Forum::init();
    let alice = mk_user(Some(1), "alice", false);
    let admin = mk_user(Some(9), "root", true);
    let p = f.publish_post(&alice, &mk_post_input("bad", None), NOW);
    let di = DeleteInput { id_type: "pid".to_string(), id: p.id, note: "!ban spam".to_string() };
    assert_eq!(f.delete(&admin, &di, NOW), Ok(()));
    assert!(f.banned.has(&"alice".to_string()));
    let logs = f.systemlog.get_list(10);
    assert!(logs.len() >= 2);
}

#[test]
fn report_needs_reason_and_registration() {
    let mut f = Forum::init();
    let tmp = mk_user(None, "ghost", false);
    let ri = ReportInput { pid: 1, reason: "r".to_string(), should_hide: None };
    assert!(matches!(f.report(&tmp, &ri, NOW), Err(ApiError::Pc(PolicyError::NotAllowed))));
    let alice = mk_user(Some(1), "alice", false);
    let empty = ReportInput { pid: 1, reason: String::new(), should_hide: None };
    assert!(matches!(f.report(&alice, &empty, NOW), Err(ApiError::Pc(PolicyError::NoReason))));
}

#[test]
fn report_hides_target_and_publishes_system_post() {
    let mut f = Forum::init();
    let alice = mk_user(Some(1), "alice", false);
    let bob = mk_user(Some(2), "bob", false);
    let p = f.publish_post(&alice, &mk_post_input("spam", Some(1)), NOW);
    let ri = ReportInput { pid: p.id, reason: "ads".to_string(), should_hide: Some(1) };
    let np = f.report(&bob, &ri, NOW).unwrap();
    assert!(f.store.get_post(p.id).unwrap().is_reported);
    assert_eq!(np.room_id, 42);
    assert_eq!(np.content, format!("[系统自动代发]\n我举报了 #{}\n理由: ads", p.id));
    assert_eq!(np.cw, "举报");
    // the reported post keeps its place in the moderation view only
    let page0 = f.gets_by_page(Some(1), 0, 0, 25, NOW);
    assert!(page0.iter().any(|q| q.id == p.id));
    let page2 = f.gets_by_page(Some(1), 2, 0, 25, NOW);
    assert!(page2.iter().all(|q| q.id != p.id));
}

#[test]
fn heavily_blocked_reporter_is_refused() {
    let mut f = Forum::init();
    let alice = mk_user(Some(1), "alice", false);
    for _ in 0..10 {
        f.counter.count_incr(&"alice".to_string());
    }
    let ri = ReportInput { pid: 1, reason: "r".to_string(), should_hide: None };
    assert_eq!(f.report(&alice, &ri, NOW), Err(ApiError::Pc(PolicyError::NotAllowed)));
}

#[test]
fn permission_rules_on_deleted_and_reported_content() {
    let mut f = Forum::init();
    let alice = mk_user(Some(1), "alice", false);
    let bob = mk_user(Some(2), "bob", false);
    let admin = mk_user(Some(9), "root", true);
    let p = f.publish_post(&alice, &mk_post_input("hi", None), NOW);
    let ri = ReportInput { pid: p.id, reason: "x".to_string(), should_hide: Some(1) };
    f.report(&bob, &ri, NOW).unwrap();
    let row = f.store.get_post(p.id).unwrap();
    // operating on reported content is refused for ordinary users
    let ro = PermissionCheck { read: true, report_guard: true, write: false, delete: false };
    assert_eq!(row.check_permission(&alice, ro), Err(PolicyError::IsReported));
    let ro2 = PermissionCheck { read: true, report_guard: true, write: false, delete: false };
    assert_eq!(row.check_permission(&admin, ro2), Ok(()));
    // reading deleted content is refused
    let di = DeleteInput { id_type: "pid".to_string(), id: p.id, note: String::new() };
    f.delete(&admin, &di, NOW).unwrap();
    let dead = f.store.get_post(p.id).unwrap();
    let r = PermissionCheck { read: true, report_guard: false, write: false, delete: false };
    assert_eq!(dead.check_permission(&alice, r), Err(PolicyError::IsDeleted));
    // and an attention toggle on it fails the same way
    let ai = AttentionInput { pid: p.id, switch: 1 };
    f.clear_all_object_cache();
    assert_eq!(f.attention_post(&bob, &ai, NOW), Err(ApiError::Pc(PolicyError::IsDeleted)));
}

#[test]
fn blocking_an_author_counts_once() {
    let mut f = Forum::init();
    let alice = mk_user(Some(1), "alice", false);
    let bob = mk_user(Some(2), "bob", false);
    let p = f.publish_post(&alice, &mk_post_input("hi", None), NOW);
    let bi = BlockInput { content_type: "post".to_string(), id: p.id };
    assert_eq!(f.block(&bob, &bi, NOW), Ok(1));
    // blocking the same author again answers with the sentinel
    assert_eq!(f.block(&bob, &bi, NOW), Ok(114514));
    // nobody blocks themselves
    assert_eq!(f.block(&alice, &bi, NOW), Err(ApiError::Pc(PolicyError::NotAllowed)));
    let bad = BlockInput { content_type: "user".to_string(), id: p.id };
    assert_eq!(f.block(&bob, &bad, NOW), Err(ApiError::Pc(PolicyError::NotAllowed)));
}

#[test]
fn edit_cw_is_for_the_author_or_admin() {
    let mut f = Forum::init();
    let alice = mk_user(Some(1), "alice", false);
    let bob = mk_user(Some(2), "bob", false);
    let p = f.publish_post(&alice, &mk_post_input("hi", None), NOW);
    let cwi = CwInput { pid: p.id, cw: "politics".to_string() };
    assert_eq!(f.edit_cw(&bob, &cwi, NOW), Err(ApiError::Pc(PolicyError::NotAllowed)));
    let u = f.edit_cw(&alice, &cwi, NOW).unwrap();
    assert_eq!(u.cw, "politics");
    assert_eq!(f.store.get_post(p.id).unwrap().cw, "politics");
}

#[test]
fn annealing_decays_scores_and_drops_hot_lists() {
    let mut f = Forum::init();
    let alice = mk_user(Some(1), "alice", false);
    // post id 5 in room 2 with hot score 12
    for _ in 0..4 {
        f.publish_post(&alice, &mk_post_input("x", Some(1)), NOW);
    }
    let p = f.publish_post(&alice, &mk_post_input("hot one", Some(2)), NOW);
    assert_eq!(p.id, 5);
    f.store.update_post(p.id, &vec![PostOp::SetCounter(CounterField::HotScore, 12)]).unwrap();
    f.annealing();
    assert_eq!(f.store.get_post(5).unwrap().hot_score, 10);
    // a second pass leaves the floor value alone
    f.annealing();
    assert_eq!(f.store.get_post(5).unwrap().hot_score, 10);
    // the object cache namespace was purged: the next read misses and
    // refetches the decayed row from the store
    assert_eq!(f.get(5, NOW).unwrap().hot_score, 10);
}

#[test]
fn get_one_guards_moderated_content() {
    let mut f = Forum::init();
    let alice = mk_user(Some(1), "alice", false);
    let bob = mk_user(Some(2), "bob", false);
    let admin = mk_user(Some(9), "root", true);
    let p = f.publish_post(&alice, &mk_post_input("hi", None), NOW);
    assert_eq!(f.get_one(&bob, p.id, NOW).unwrap().id, p.id);
    let ri = ReportInput { pid: p.id, reason: "x".to_string(), should_hide: Some(1) };
    f.report(&bob, &ri, NOW).unwrap();
    f.clear_all_object_cache();
    assert_eq!(f.get_one(&bob, p.id, NOW), Err(ApiError::Pc(PolicyError::IsReported)));
    assert!(f.get_one(&admin, p.id, NOW).is_ok());
}

#[test]
fn forum_owned_block_dict_is_cleared_on_block() {
    let mut f = Forum::init();
    let alice = mk_user(Some(1), "alice", false);
    let carol = mk_user(Some(3), "carol", false);
    let p = f.publish_post(&alice, &mk_post_input("hi", None), NOW);
    let hashes = vec!["alice".to_string()];
    let (d1, n1) = f.get_or_create_block_dict(&carol, p.id, &hashes, NOW);
    assert!(n1 > 0);
    assert_eq!(d1.get(&"alice".to_string()), Some(&false));
    // the memoized dictionary answers the repeat without lookups
    let (_, n2) = f.get_or_create_block_dict(&carol, p.id, &hashes, NOW + 10);
    assert_eq!(n2, 0);
    // blocking the post's author drops carol's dictionary for it, so the
    // next read recomputes and sees the block
    let bi = BlockInput { content_type: "post".to_string(), id: p.id };
    f.block(&carol, &bi, NOW).unwrap();
    let (d3, n3) = f.get_or_create_block_dict(&carol, p.id, &hashes, NOW + 20);
    assert!(n3 > 0);
    assert_eq!(d3.get(&"alice".to_string()), Some(&true));
}
