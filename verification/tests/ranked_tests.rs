use hole_core::post::Post;
use hole_core::ranked::PostListCache;

fn mk_post(id: i32, room: i32) -> Post {
    Post {
        id,
        author_hash: format!("hash{}", id),
        content: format!("content {}", id),
        cw: String::new(),
        author_title: String::new(),
        is_tmp: false,
        n_attentions: 1,
        n_comments: 0,
        create_time: 1000 + id as i64,
        last_comment_time: 1000 + id as i64,
        is_deleted: false,
        is_reported: false,
        hot_score: 0,
        allow_search: true,
        room_id: room,
        up_votes: 0,
        down_votes: 0,
    }
}

#[test]
fn put_then_range_read_returns_newest_first() {
    let mut l = PostListCache::init(None, 0);
    for id in 1..=5 {
        l.put(&mk_post(id, 0));
    }
    // mode 0 orders by descending id
    assert_eq!(l.get_pids(0, 10), vec![5, 4, 3, 2, 1]);
    assert_eq!(l.get_pids(1, 2), vec![4, 3]);
    assert_eq!(l.get_pids(7, 2), Vec::<i32>::new());
}

#[test]
fn put_is_an_upsert() {
    let mut l = PostListCache::init(None, 2);
    let mut p = mk_post(7, 0);
    p.hot_score = 5;
    l.put(&p);
    p.hot_score = 50;
    l.put(&p);
    assert_eq!(l.get_pids(0, 10), vec![7]);
}

#[test]
fn hot_mode_orders_by_descending_score() {
    let mut l = PostListCache::init(None, 2);
    for (id, hot) in [(1, 5), (2, 50), (3, 20)] {
        let mut p = mk_post(id, 0);
        p.hot_score = hot;
        l.put(&p);
    }
    assert_eq!(l.get_pids(0, 10), vec![2, 3, 1]);
}

#[test]
fn deleted_post_is_removed_from_every_mode() {
    for mode in 0..=4 {
        let mut l = PostListCache::init(None, mode);
        let mut p = mk_post(3, 0);
        l.put(&p);
        assert_eq!(l.get_pids(0, 10), vec![3]);
        p.is_deleted = true;
        l.put(&p);
        assert_eq!(l.get_pids(0, 10), Vec::<i32>::new(), "mode {}", mode);
    }
}

#[test]
fn reported_post_stays_only_in_newest_first_mode() {
    for mode in 0..=4 {
        let mut l = PostListCache::init(None, mode);
        let mut p = mk_post(3, 0);
        l.put(&p);
        p.is_reported = true;
        l.put(&p);
        let pids = l.get_pids(0, 10);
        if mode == 0 {
            assert_eq!(pids, vec![3], "moderation view keeps reported posts");
        } else {
            assert_eq!(pids, Vec::<i32>::new(), "mode {}", mode);
        }
    }
}

#[test]
fn shuffle_mode_still_ranks_the_post() {
    let mut l = PostListCache::init(None, 3);
    l.put(&mk_post(11, 0));
    l.put(&mk_post(12, 0));
    let mut pids = l.get_pids(0, 10);
    pids.sort();
    assert_eq!(pids, vec![11, 12]);
}

#[test]
fn need_fill_trims_overfull_list_to_max_minus_cut() {
    let mut l = PostListCache::init(None, 0);
    let batch: Vec<Post> = (1..=950).map(|id| mk_post(id, 0)).collect();
    l.fill(&batch);
    // the bulk fill itself re-checks the watermarks: 950 > 900, so the
    // lowest-ranked entries were cut down to 800
    assert_eq!(l.get_pids(0, 2000).len(), 800);
    assert!(!l.need_fill());
    assert!(l.get_pids(0, 2000).len() <= 900);
    // the reported length is deliberately conservative after a trim
    assert!(l.i64_len() <= 900);
    // the best-ranked entries survive: descending ids from 950
    assert_eq!(l.get_pids(0, 3), vec![950, 949, 948]);
}

#[test]
fn need_fill_true_only_below_min_watermark() {
    let mut l = PostListCache::init(None, 0);
    let batch: Vec<Post> = (1..=150).map(|id| mk_post(id, 0)).collect();
    l.fill(&batch);
    assert!(l.need_fill());
    let more: Vec<Post> = (151..=250).map(|id| mk_post(id, 0)).collect();
    l.fill(&more);
    assert!(!l.need_fill());
    assert_eq!(l.i64_len(), 250);
    assert_eq!(l.i64_minlen(), 200);
}

#[test]
fn clear_empties_the_list() {
    let mut l = PostListCache::init(Some(2), 4);
    l.put(&mk_post(1, 2));
    l.clear();
    assert_eq!(l.get_pids(0, 10), Vec::<i32>::new());
    assert_eq!(l.i64_len(), 0);
}
