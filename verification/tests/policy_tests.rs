use hole_core::policy::{attention_deltas, comment_deltas, decay_hot_score};

#[test]
fn decay_drops_twelve_to_ten() {
    assert_eq!(decay_hot_score(12), 10);
}

#[test]
fn decay_leaves_floor_and_below_alone() {
    for h in 0..=10 {
        assert_eq!(decay_hot_score(h), h);
    }
}

#[test]
fn decay_converges_and_never_goes_negative() {
    let mut h = 1_000_000;
    let mut steps = 0;
    while h > 10 {
        let next = decay_hot_score(h);
        assert!(next >= 0);
        assert!(next < h);
        h = next;
        steps += 1;
        assert!(steps < 1000);
    }
    // once in the floor region, every further pass is the identity
    for _ in 0..5 {
        assert_eq!(decay_hot_score(h), h);
    }
}

#[test]
fn comment_from_fresh_attender_pays_attend_bonus() {
    // n_attentions = 2, n_comments = 5, commenter not yet attending
    let (dc, da, dh) = comment_deltas(false, 2, 5);
    assert_eq!(dc, 1);
    assert_eq!(da, 1);
    assert_eq!(dh, 3);
}

#[test]
fn repeat_commenter_bonus_depends_on_ratio() {
    // already attending, comment count still below three times attentions
    assert_eq!(comment_deltas(true, 3, 5), (1, 0, 1));
    // already attending, comment count at three times attentions
    assert_eq!(comment_deltas(true, 3, 9), (1, 0, 0));
    assert_eq!(comment_deltas(true, 2, 5), (1, 0, 1));
    assert_eq!(comment_deltas(true, 2, 6), (1, 0, 0));
}

#[test]
fn attention_bonus_is_symmetric_and_ratio_bound() {
    assert_eq!(attention_deltas(true, 3, 1), (1, 2));
    assert_eq!(attention_deltas(false, 3, 1), (-1, -2));
    assert_eq!(attention_deltas(true, 7, 2), (1, 0));
    assert_eq!(attention_deltas(false, 7, 2), (-1, 0));
}
