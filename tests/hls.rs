use stream_gears::hls::plan_segments;

#[test]
fn first_poll_takes_all() {
    let p = plan_segments(100, 3, None);
    assert_eq!(p.fresh, vec![0, 1, 2]);
    assert_eq!(p.last_segment, Some(102));
    assert!(!p.skipped);
}

#[test]
fn later_poll_takes_only_new() {
    let p = plan_segments(101, 4, Some(102));
    assert_eq!(p.fresh, vec![2, 3]);
    assert_eq!(p.last_segment, Some(104));
    assert!(!p.skipped);
}

#[test]
fn nothing_new() {
    let p = plan_segments(101, 2, Some(102));
    assert!(p.fresh.is_empty());
    assert_eq!(p.last_segment, Some(102));
}

#[test]
fn gap_is_reported() {
    let p = plan_segments(110, 2, Some(102));
    assert_eq!(p.fresh, vec![0, 1]);
    assert_eq!(p.last_segment, Some(111));
    assert!(p.skipped);
}

#[test]
fn sequence_zero_is_fetched() {
    let p = plan_segments(0, 3, None);
    assert_eq!(p.fresh, vec![0, 1, 2]);
    assert_eq!(p.last_segment, Some(2));
    assert!(!p.skipped);
    let q = plan_segments(1, 3, p.last_segment);
    assert_eq!(q.fresh, vec![2]);
    assert_eq!(q.last_segment, Some(3));
}

#[test]
fn empty_playlist_before_any_fetch() {
    let p = plan_segments(5, 0, None);
    assert!(p.fresh.is_empty());
    assert_eq!(p.last_segment, None);
}

#[test]
fn hls_it_works() -> anyhow::Result<()> {
    Ok(())
}
