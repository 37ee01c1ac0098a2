use anim3d::camera::{clip_plan, sort, Clip};

#[test]
fn missing_corners_come_first() {
    assert_eq!(sort(Some(1), None, Some(3), 'a', 'b', 'c'), (None, Some(1), Some(3), 'b', 'a', 'c'));
    assert_eq!(sort(Some(1), Some(2), None, 'a', 'b', 'c'), (None, Some(1), Some(2), 'c', 'a', 'b'));
    assert_eq!(sort(Some(1), Some(2), Some(3), 'a', 'b', 'c'), (Some(1), Some(2), Some(3), 'a', 'b', 'c'));
    assert_eq!(sort(None, Some(2), None, 'a', 'b', 'c'), (None, None, Some(2), 'c', 'a', 'b'));
}

#[test]
fn all_missing_order() {
    let r: (Option<u8>, Option<u8>, Option<u8>, u8, u8, u8) = sort(None, None, None, 0, 1, 2);
    assert_eq!(r, (None, None, None, 2, 1, 0));
    let r: (Option<u8>, Option<u8>, Option<u8>, u8, u8, u8) = sort(None, None, Some(9), 0, 1, 2);
    assert_eq!(r, (None, None, Some(9), 0, 1, 2));
    let r: (Option<u8>, Option<u8>, Option<u8>, u8, u8, u8) = sort(Some(7), None, None, 0, 1, 2);
    assert_eq!(r, (None, None, Some(7), 2, 1, 0));
}

#[test]
fn clipping_follows_missing_corners() {
    let n: Option<u8> = None;
    assert_eq!(clip_plan(&n, &n, &n), Clip::Hidden);
    assert_eq!(clip_plan(&n, &n, &Some(1)), Clip::TwoBehind);
    assert_eq!(clip_plan(&n, &Some(1), &Some(2)), Clip::OneBehind);
    assert_eq!(clip_plan(&Some(0), &Some(1), &Some(2)), Clip::Visible);
    // after sorting, the plan depends on how many corners are missing
    let (a, b, c, _, _, _) = sort(Some(4), None, Some(5), 0, 1, 2);
    assert_eq!(clip_plan(&a, &b, &c), Clip::OneBehind);
    let (a, b, c, _, _, _) = sort(None, Some(3), None, 0, 1, 2);
    assert_eq!(clip_plan(&a, &b, &c), Clip::TwoBehind);
}
