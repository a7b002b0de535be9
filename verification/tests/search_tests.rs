use hole_core::api::{CommentInput, CurrentUser, PostInput, ReportInput};
use hole_core::forum::Forum;
use hole_core::text_match::{contains_sub, parts_match, split_spaces};

fn mk_user(id: Option<i32>, hash: &str) -> CurrentUser {
    CurrentUser {
        id,
        namehash: hash.to_string(),
        is_admin: false,
        is_candidate: false,
        custom_title: None,
        title_secret: None,
        auto_block_rank: 2,
    }
}

fn mk_post_input(text: &str, cw: &str) -> PostInput {
    PostInput {
        text: text.to_string(),
        cw: cw.to_string(),
        allow_search: Some(1),
        use_title: None,
        poll_options: Vec::new(),
        room_id: None,
    }
}

const NOW: i64 = 70_000;

#[test]
fn substring_matching_is_literal() {
    assert!(contains_sub("hello world", "lo wo"));
    assert!(contains_sub("hello", ""));
    assert!(!contains_sub("hello", "world"));
    assert!(!contains_sub("ab", "abc"));
    assert!(contains_sub("abc", "abc"));
}

#[test]
fn keyword_parts_match_in_order() {
    let parts = split_spaces("foo bar");
    assert_eq!(parts, vec!["foo".to_string(), "bar".to_string()]);
    assert!(parts_match("say foo then bar", &parts));
    assert!(!parts_match("bar before foo", &parts));
    // greedy scanning does not lose later matches
    assert!(parts_match("foo foo bar", &parts));
    assert!(parts_match("xfoofoobar", &parts));
    // empty keywords match anywhere
    assert_eq!(split_spaces(""), vec![String::new()]);
    assert!(parts_match("anything", &split_spaces("")));
}

#[test]
fn tag_search_finds_label_and_body_tags() {
    let mut f = Forum::init();
    let alice = mk_user(Some(1), "alice");
    let p1 = f.publish_post(&alice, &mk_post_input("about #cats and more", ""), NOW);
    let p2 = f.publish_post(&alice, &mk_post_input("nothing here", "cats"), NOW);
    let p3 = f.publish_post(&alice, &mk_post_input("dogs only", ""), NOW);
    let hits = f.search(None, 0, &"cats".to_string(), 0, 25, NOW);
    let ids: Vec<i32> = hits.iter().map(|p| p.id).collect();
    // newest first: the label match and the body-tag match
    assert_eq!(ids, vec![p2.id, p1.id]);
    let _ = p3;
}

#[test]
fn tag_search_sees_live_comments_only() {
    let mut f = Forum::init();
    let alice = mk_user(Some(1), "alice");
    let p = f.publish_post(&alice, &mk_post_input("plain body", ""), NOW);
    let ci = CommentInput { text: "look: #cats".to_string(), use_title: None };
    let c = f.add_comment(p.id, &alice, &ci, NOW).unwrap();
    assert_eq!(f.search(None, 0, &"cats".to_string(), 0, 25, NOW).len(), 1);
    let di = hole_core::api::DeleteInput {
        id_type: "cid".to_string(),
        id: c.id,
        note: String::new(),
    };
    f.delete(&alice, &di, NOW).unwrap();
    assert_eq!(f.search(None, 0, &"cats".to_string(), 0, 25, NOW + 7300).len(), 0);
}

#[test]
fn keyword_search_respects_opt_out_and_order() {
    let mut f = Forum::init();
    let alice = mk_user(Some(1), "alice");
    f.publish_post(&alice, &mk_post_input("green tea with ice", ""), NOW);
    let mut hidden = mk_post_input("green tea again", "");
    hidden.allow_search = None;
    f.publish_post(&alice, &hidden, NOW);
    let hits = f.search(None, 1, &"green ice".to_string(), 0, 25, NOW);
    assert_eq!(hits.len(), 1);
    assert_eq!(hits[0].content, "green tea with ice");
    assert_eq!(f.search(None, 1, &"ice green".to_string(), 0, 25, NOW).len(), 0);
}

#[test]
fn search_skips_reported_posts() {
    let mut f = Forum::init();
    let alice = mk_user(Some(1), "alice");
    let bob = mk_user(Some(2), "bob");
    let p = f.publish_post(&alice, &mk_post_input("find #me", ""), NOW);
    assert_eq!(f.search(None, 0, &"me".to_string(), 0, 25, NOW).len(), 1);
    let ri = ReportInput { pid: p.id, reason: "x".to_string(), should_hide: Some(1) };
    f.report(&bob, &ri, NOW).unwrap();
    assert_eq!(f.search(None, 0, &"me".to_string(), 0, 25, NOW + 7300).len(), 0);
}

#[test]
fn title_search_matches_post_and_comment_titles() {
    let mut f = Forum::init();
    let mut titled = mk_user(Some(1), "alice");
    titled.custom_title = Some("sage".to_string());
    let p = f.publish_post(
        &titled,
        &PostInput {
            text: "body".to_string(),
            cw: String::new(),
            allow_search: Some(1),
            use_title: Some(1),
            poll_options: Vec::new(),
            room_id: None,
        },
        NOW,
    );
    assert_eq!(p.author_title, "sage");
    let hits = f.search(None, 2, &"sage".to_string(), 0, 25, NOW);
    assert_eq!(hits.len(), 1);
    assert_eq!(f.search(None, 2, &"other".to_string(), 0, 25, NOW).len(), 0);
}
