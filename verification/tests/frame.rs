use anim3d::frame::{handle_event, outline, Action, Controls, Input, Key};

#[test]
fn walking_keys_set_and_clear() {
    let still = Controls { w: 0, n: 0 };
    let (c, a) = handle_event(still, Input::KeyDown(Some(Key::W)));
    assert_eq!((c, a), (Controls { w: 0, n: 1 }, Action::Nothing));
    let (c, _) = handle_event(c, Input::KeyDown(Some(Key::D)));
    assert_eq!(c, Controls { w: -1, n: 1 });
    let (c, _) = handle_event(c, Input::KeyUp(Some(Key::S)));
    assert_eq!(c, Controls { w: -1, n: 0 });
    let (c, _) = handle_event(c, Input::KeyUp(Some(Key::A)));
    assert_eq!(c, still);
    let (c, _) = handle_event(c, Input::KeyDown(Some(Key::A)));
    assert_eq!(c, Controls { w: 1, n: 0 });
    let (c, _) = handle_event(c, Input::KeyDown(Some(Key::S)));
    assert_eq!(c, Controls { w: 1, n: -1 });
}

#[test]
fn camera_actions() {
    let c = Controls { w: 1, n: -1 };
    assert_eq!(handle_event(c, Input::Quit), (c, Action::Stop));
    assert_eq!(handle_event(c, Input::KeyDown(Some(Key::Escape))), (c, Action::Stop));
    assert_eq!(handle_event(c, Input::KeyUp(Some(Key::Escape))), (c, Action::Nothing));
    assert_eq!(handle_event(c, Input::KeyDown(Some(Key::Space))), (c, Action::Climb(1)));
    assert_eq!(handle_event(c, Input::KeyDown(Some(Key::C))), (c, Action::Climb(-1)));
    assert_eq!(handle_event(c, Input::KeyDown(None)), (c, Action::Nothing));
    assert_eq!(handle_event(c, Input::Other), (c, Action::Nothing));
    assert_eq!(
        handle_event(c, Input::MouseMotion { xrel: -7, yrel: 0 }),
        (c, Action::Look { yaw: -1, pitch: 0 })
    );
    assert_eq!(
        handle_event(c, Input::MouseMotion { xrel: 3, yrel: 12 }),
        (c, Action::Look { yaw: 1, pitch: 1 })
    );
}

#[test]
fn outline_of_quad_and_triangle() {
    let (a, b, c, d) = ((0, 0), (10, 0), (0, 10), (10, 10));
    assert_eq!(outline(Some(a), Some(b), Some(c), Some(d)), vec![(a, b), (b, d), (d, c), (c, a)]);
    assert_eq!(outline(Some(a), Some(b), Some(c), None), vec![(a, b), (b, c), (c, a)]);
    assert!(outline(None, Some(b), Some(c), Some(d)).is_empty());
    assert!(outline(Some(a), None, Some(c), None).is_empty());
    assert!(outline(Some(a), Some(b), None, Some(d)).is_empty());
}
