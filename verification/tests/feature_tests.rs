use hole_core::api::{CurrentUser, PolicyError, PostInput, VoteInput};
use hole_core::block::{BlockCounter, BlockDictCache, BlockedUsers};
use hole_core::forum::{cached_user_count, Forum, UserCountCache};
use hole_core::outputs::{c2output, p2output};
use hole_core::poll::{get_poll_dict, vote, PollOption, PollVote};
use hole_core::titles::{CustomTitle, Elections};

fn mk_user(id: Option<i32>, hash: &str, admin: bool) -> CurrentUser {
    CurrentUser {
        id,
        namehash: hash.to_string(),
        is_admin: admin,
        is_candidate: false,
        custom_title: None,
        title_secret: None,
        auto_block_rank: 2,
    }
}

fn mk_post_input(text: &str) -> PostInput {
    PostInput {
        text: text.to_string(),
        cw: String::new(),
        allow_search: None,
        use_title: None,
        poll_options: Vec::new(),
        room_id: None,
    }
}

const NOW: i64 = 50_000;

#[test]
fn title_claim_conflicts_and_secrets() {
    let mut titles = CustomTitle::init();
    let mut el = Elections::init();
    let none = String::new();
    let s1 = titles
        .set(&mut el, &"alice".to_string(), &"sage".to_string(), &none, NOW)
        .unwrap();
    assert_eq!(s1.chars().count(), 8);
    // the title is now someone's key: taken
    assert_eq!(
        titles.set(&mut el, &"bob".to_string(), &"sage".to_string(), &none, NOW),
        Err(PolicyError::TitleUsed)
    );
    // the owner's lookup returns title and live secret
    let (t, s) = titles.get(&"alice".to_string(), NOW + 10);
    assert_eq!(t.as_deref(), Some("sage"));
    assert_eq!(s, Some(s1));
}

#[test]
fn protected_title_needs_its_secret_across_a_reset() {
    let mut titles = CustomTitle::init();
    let mut el = Elections::init();
    let none = String::new();
    let secret = titles
        .set(&mut el, &"alice".to_string(), &"sage".to_string(), &none, NOW)
        .unwrap();
    // the periodic reset drops the ownership pairs but not the secrets
    titles.clear();
    // a stranger without the secret is refused for the protection window
    assert_eq!(
        titles.set(&mut el, &"bob".to_string(), &"sage".to_string(), &none, NOW + 10),
        Err(PolicyError::TitleProtected)
    );
    // the original owner, repeating the secret, reclaims the title
    let fresh = titles
        .set(&mut el, &"alice".to_string(), &"sage".to_string(), &secret, NOW + 10)
        .unwrap();
    assert_eq!(fresh.chars().count(), 8);
    // once the window lapses the title is free again
    let mut titles2 = CustomTitle::init();
    titles2
        .set(&mut el, &"alice".to_string(), &"sage".to_string(), &none, NOW)
        .unwrap();
    titles2.clear();
    let late = titles2.set(
        &mut el,
        &"bob".to_string(),
        &"sage".to_string(),
        &none,
        NOW + 604800,
    );
    assert!(late.is_ok());
}

#[test]
fn elections_follow_titles() {
    let mut el = Elections::init();
    el.add_candidate(&"sage".to_string());
    el.add_admin(&"sage".to_string());
    assert!(el.is_elected_candidate(&Some("sage".to_string())));
    assert!(el.is_elected_admin(&Some("sage".to_string())));
    assert!(!el.is_elected_admin(&None));
    assert_eq!(el.get_admin_list(), vec!["sage".to_string()]);
    el.clear_title_from_admins(&"sage".to_string());
    assert!(!el.is_elected_candidate(&Some("sage".to_string())));
    assert_eq!(el.get_candidate_list(), Vec::<String>::new());
}

#[test]
fn poll_vote_once_and_tally() {
    let mut po = PollOption::init();
    let mut pv = PollVote::init();
    po.set_list(7, &vec!["yes".to_string(), "no".to_string()]);
    assert_eq!(po.get_list(7), vec!["yes".to_string(), "no".to_string()]);
    let alice = mk_user(Some(1), "alice", false);
    let d = vote(&po, &mut pv, &alice, &VoteInput { pid: 7, vote: "no".to_string() }).unwrap();
    assert_eq!(d.vote.as_deref(), Some("no"));
    assert_eq!(d.answers.len(), 2);
    assert_eq!(d.answers[0].votes, 0);
    assert_eq!(d.answers[1].votes, 1);
    // only one vote per poll
    assert_eq!(
        vote(&po, &mut pv, &alice, &VoteInput { pid: 7, vote: "yes".to_string() }),
        Err(PolicyError::NotAllowed)
    );
    // unknown option and temporary users are refused
    let bob = mk_user(Some(2), "bob", false);
    assert_eq!(
        vote(&po, &mut pv, &bob, &VoteInput { pid: 7, vote: "maybe".to_string() }),
        Err(PolicyError::NotAllowed)
    );
    let tmp = mk_user(None, "ghost", false);
    assert_eq!(
        vote(&po, &mut pv, &tmp, &VoteInput { pid: 7, vote: "yes".to_string() }),
        Err(PolicyError::NotAllowed)
    );
    // a post without a poll renders nothing
    assert_eq!(get_poll_dict(&po, &pv, 8, &"alice".to_string()), None);
}

#[test]
fn comment_rendering_numbers_and_hides() {
    let mut f = Forum::init();
    let alice = mk_user(Some(1), "alice", false);
    let bob = mk_user(Some(2), "bob", false);
    let p = f.publish_post(&alice, &mk_post_input("thread"), NOW);
    let ci = |t: &str| hole_core::api::CommentInput { text: t.to_string(), use_title: None };
    f.add_comment(p.id, &bob, &ci("from bob"), NOW).unwrap();
    f.add_comment(p.id, &alice, &ci("from alice"), NOW).unwrap();
    f.add_comment(p.id, &bob, &ci("bob again"), NOW).unwrap();
    let cs = f.get_comments(p.id, NOW);
    let post = f.get(p.id, NOW).unwrap();
    // build the visibility dictionary the way the read path does
    let bu = BlockedUsers::init();
    let bc = BlockCounter::init();
    let mut cache = BlockDictCache::init();
    let hashes: Vec<String> = cs.iter().map(|c| c.author_hash.clone()).collect();
    let viewer = mk_user(Some(3), "carol", false);
    let (dict, _) = cache.get_or_create(&bu, &bc, &viewer, &hashes, NOW);
    let out = c2output(&post, &cs, &viewer, &dict);
    assert_eq!(out.len(), 3);
    // the post's author is number zero; bob, first commenter, is one
    assert_eq!(out[0].name_id, 1);
    assert_eq!(out[1].name_id, 0);
    assert_eq!(out[2].name_id, 1);
    assert_eq!(out[0].text, "from bob");
    assert!(!out[0].is_blocked);
    // carol may not delete bob's comment; bob may
    assert!(!out[0].can_del);
    let out_bob = c2output(&post, &cs, &bob, &dict);
    assert!(out_bob[0].can_del);
}

#[test]
fn blocked_author_text_is_hidden() {
    let mut f = Forum::init();
    let alice = mk_user(Some(1), "alice", false);
    let bob = mk_user(Some(2), "bob", false);
    let p = f.publish_post(&alice, &mk_post_input("thread"), NOW);
    let ci = hole_core::api::CommentInput { text: "rude".to_string(), use_title: None };
    f.add_comment(p.id, &bob, &ci, NOW).unwrap();
    let cs = f.get_comments(p.id, NOW);
    let post = f.get(p.id, NOW).unwrap();
    let mut bu = BlockedUsers::init();
    let bc = BlockCounter::init();
    // carol blocks bob
    bu.add(3, &"bob".to_string());
    let carol = mk_user(Some(3), "carol", false);
    let mut cache = BlockDictCache::init();
    let hashes: Vec<String> = cs.iter().map(|c| c.author_hash.clone()).collect();
    let (dict, _) = cache.get_or_create(&bu, &bc, &carol, &hashes, NOW);
    let out = c2output(&post, &cs, &carol, &dict);
    assert_eq!(out.len(), 1);
    assert!(out[0].is_blocked);
    assert_eq!(out[0].text, "");
    // the author still sees their own text
    let out_bob = c2output(&post, &cs, &bob, &dict);
    assert_eq!(out_bob[0].text, "rude");
}

#[test]
fn deleted_comments_keep_the_numbering_stable() {
    let mut f = Forum::init();
    let alice = mk_user(Some(1), "alice", false);
    let bob = mk_user(Some(2), "bob", false);
    let carol = mk_user(Some(3), "carol", false);
    let p = f.publish_post(&alice, &mk_post_input("thread"), NOW);
    let ci = |t: &str| hole_core::api::CommentInput { text: t.to_string(), use_title: None };
    let c1 = f.add_comment(p.id, &bob, &ci("one"), NOW).unwrap();
    f.add_comment(p.id, &carol, &ci("two"), NOW).unwrap();
    let di = hole_core::api::DeleteInput { id_type: "cid".to_string(), id: c1.id, note: String::new() };
    f.delete(&bob, &di, NOW).unwrap();
    let cs = f.get_comments(p.id, NOW + 7300);
    let post = f.get(p.id, NOW).unwrap();
    let bu = BlockedUsers::init();
    let bc = BlockCounter::init();
    let mut cache = BlockDictCache::init();
    let hashes: Vec<String> = cs.iter().map(|c| c.author_hash.clone()).collect();
    let (dict, _) = cache.get_or_create(&bu, &bc, &alice, &hashes, NOW);
    let out = c2output(&post, &cs, &alice, &dict);
    // bob's deleted comment is gone, but carol keeps number two
    assert_eq!(out.len(), 1);
    assert_eq!(out[0].name_id, 2);
}

#[test]
fn user_count_is_cached_for_five_minutes() {
    let mut f = Forum::init();
    f.store.find_or_create_token(&"ada".to_string(), false);
    let mut cache = UserCountCache::init();
    assert_eq!(cached_user_count(&mut cache, &f.store, 100), 1);
    f.store.find_or_create_token(&"grace".to_string(), false);
    // within the window the stale count is served
    assert_eq!(cached_user_count(&mut cache, &f.store, 200), 1);
    // after expiry the fresh count appears
    assert_eq!(cached_user_count(&mut cache, &f.store, 100 + 300), 2);
}

#[test]
fn get_attention_lists_attended_posts_newest_first() {
    let mut f = Forum::init();
    let alice = mk_user(Some(1), "alice", false);
    let bob = mk_user(Some(2), "bob", false);
    let p1 = f.publish_post(&alice, &mk_post_input("one"), NOW);
    let p2 = f.publish_post(&alice, &mk_post_input("two"), NOW);
    let p3 = f.publish_post(&alice, &mk_post_input("three"), NOW);
    for pid in [p1.id, p3.id] {
        f.attention_post(&bob, &hole_core::api::AttentionInput { pid, switch: 1 }, NOW).unwrap();
    }
    let ps = f.get_attention(&bob, NOW);
    let ids: Vec<i32> = ps.iter().map(|p| p.id).collect();
    assert_eq!(ids, vec![p3.id, p1.id]);
    let _ = p2;
}

#[test]
fn post_rendering_respects_roles() {
    let mut f = Forum::init();
    let alice = mk_user(Some(1), "alice", false);
    let p = f.publish_post(&alice, &mk_post_input("body"), NOW);
    let post = f.get(p.id, NOW).unwrap();
    let bu = BlockedUsers::init();
    let bc = BlockCounter::init();
    let mut cache = BlockDictCache::init();
    let carol = mk_user(Some(3), "carol", false);
    let hashes = vec![post.author_hash.clone()];
    let (dict, _) = cache.get_or_create(&bu, &bc, &carol, &hashes, NOW);
    let out = p2output(&post, &None, false, None, &carol, &dict);
    assert_eq!(out.pid, post.id);
    assert_eq!(out.text, "body");
    assert_eq!(out.cw, None);
    assert_eq!(out.hot_score, None);
    assert_eq!(out.is_reported, None);
    assert!(out.comments.is_none());
    assert!(!out.can_del);
    // an administrator additionally sees the moderation fields
    let admin = mk_user(Some(9), "root", true);
    let (dict2, _) = BlockDictCache::init().get_or_create(&bu, &bc, &admin, &hashes, NOW);
    let out2 = p2output(&post, &Some(Vec::new()), false, None, &admin, &dict2);
    assert_eq!(out2.hot_score, Some(post.hot_score));
    assert_eq!(out2.is_reported, Some(false));
    assert_eq!(out2.comments, Some(Vec::new()));
    assert!(out2.can_del);
}
