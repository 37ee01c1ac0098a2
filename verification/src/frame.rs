//! The decisions of the viewer's frame loop: what an input event asks for,
//! and which edges of a projected polygon to draw.

use vstd::prelude::*;

verus! {

/// The keys that the viewer reacts to.
#[derive(Debug, Clone, Copy, PartialEq, Eq, Structural)]
pub enum Key {
    W,
    S,
    A,
    D,
    Space,
    C,
    Escape,
    Other,
}

/// An input event, as far as the viewer reads it.
#[derive(Debug, Clone, Copy, PartialEq, Eq, Structural)]
pub enum Input {
    /// The window was closed.
    Quit,
    /// The mouse moved by `xrel`, `yrel`.
    MouseMotion { xrel: i32, yrel: i32 },
    /// A key went down; `None` for a key without a code.
    KeyDown(Option<Key>),
    /// A key went up; `None` for a key without a code.
    KeyUp(Option<Key>),
    /// Anything else.
    Other,
}

/// The walking state: `n` forward (1), backward (-1) or still (0); `w` to
/// the left (1), to the right (-1) or still (0).
#[derive(Debug, Clone, Copy, PartialEq, Eq, Structural)]
pub struct Controls {
    pub w: i8,
    pub n: i8,
}

/// What an event asks of the camera.
#[derive(Debug, Clone, Copy, PartialEq, Eq, Structural)]
pub enum Action {
    /// Leave the loop.
    Stop,
    /// Turn by one degree about the vertical axis, in the direction of
    /// `yaw` (the sign of the horizontal mouse motion, 0 for none), and
    /// about the wing axis in the direction of `pitch` (likewise).
    Look { yaw: i8, pitch: i8 },
    /// Raise (1) or lower (-1) the camera by one tenth.
    Climb(i8),
    /// Nothing for the camera.
    Nothing,
}

/// The sign of `x`: 1, -1 or 0.
pub open spec fn sign(x: i32) -> i8 {
    if x > 0 {
        1i8
    } else if x < 0 {
        -1i8
    } else {
        0i8
    }
}

/// The walking state after an event.
pub open spec fn controls_after(c: Controls, e: Input) -> Controls {
    match e {
        Input::KeyDown(Some(Key::W)) => Controls { n: 1, ..c },
        Input::KeyDown(Some(Key::S)) => Controls { n: -1i8, ..c },
        Input::KeyDown(Some(Key::A)) => Controls { w: 1, ..c },
        Input::KeyDown(Some(Key::D)) => Controls { w: -1i8, ..c },
        Input::KeyUp(Some(Key::W)) | Input::KeyUp(Some(Key::S)) => Controls { n: 0, ..c },
        Input::KeyUp(Some(Key::A)) | Input::KeyUp(Some(Key::D)) => Controls { w: 0, ..c },
        _ => c,
    }
}

/// What an event asks of the camera.
pub open spec fn action_of(e: Input) -> Action {
    match e {
        Input::Quit | Input::KeyDown(Some(Key::Escape)) => Action::Stop,
        Input::MouseMotion { xrel, yrel } => Action::Look { yaw: sign(xrel), pitch: sign(yrel) },
        Input::KeyDown(Some(Key::Space)) => Action::Climb(1),
        Input::KeyDown(Some(Key::C)) => Action::Climb(-1i8),
        _ => Action::Nothing,
    }
}

fn sign_of(x: i32) -> (r: i8)
    ensures
        r == sign(x),
{
    if x > 0 {
        1
    } else if x < 0 {
        -1
    } else {
        0
    }
}

/// Reads one event: the walking keys set or clear the walking state, the
/// mouse turns the camera, Space and C raise and lower it, closing the
/// window or pressing Escape stops. A mouse motion of `i32::MIN` has no
/// sign that the frame loop can take.
pub fn handle_event(c: Controls, e: Input) -> (r: (Controls, Action))
    requires
        e matches Input::MouseMotion { xrel, yrel } ==> xrel != i32::MIN && yrel != i32::MIN,
    ensures
        r.0 == controls_after(c, e),
        r.1 == action_of(e),
{
    match e {
        Input::Quit => (c, Action::Stop),
        Input::MouseMotion { xrel, yrel } => (c, Action::Look { yaw: sign_of(xrel), pitch: sign_of(yrel) }),
        Input::KeyDown(k) => match k {
            Some(Key::Escape) => (c, Action::Stop),
            Some(Key::W) => (Controls { n: 1, ..c }, Action::Nothing),
            Some(Key::S) => (Controls { n: -1, ..c }, Action::Nothing),
            Some(Key::A) => (Controls { w: 1, ..c }, Action::Nothing),
            Some(Key::D) => (Controls { w: -1, ..c }, Action::Nothing),
            Some(Key::Space) => (c, Action::Climb(1)),
            Some(Key::C) => (c, Action::Climb(-1)),
            _ => (c, Action::Nothing),
        },
        Input::KeyUp(k) => match k {
            Some(Key::W) | Some(Key::S) => (Controls { n: 0, ..c }, Action::Nothing),
            Some(Key::A) | Some(Key::D) => (Controls { w: 0, ..c }, Action::Nothing),
            _ => (c, Action::Nothing),
        },
        Input::Other => (c, Action::Nothing),
    }
}

/// The edges to draw for a polygon whose corners project to `a`, `b`, `c`
/// and (for a clipped triangle) `d`, screen points or `None` when off
/// screen: the quadrilateral a-b-d-c when all four exist, the triangle
/// a-b-c when `d` does not, nothing when one of `a`, `b`, `c` is missing.
pub open spec fn outline_edges(
    a: Option<(i32, i32)>,
    b: Option<(i32, i32)>,
    c: Option<(i32, i32)>,
    d: Option<(i32, i32)>,
) -> Seq<((i32, i32), (i32, i32))> {
    match (a, b, c, d) {
        (Some(p1), Some(p2), Some(p3), Some(p4)) => seq![(p1, p2), (p2, p4), (p4, p3), (p3, p1)],
        (Some(p1), Some(p2), Some(p3), None) => seq![(p1, p2), (p2, p3), (p3, p1)],
        _ => Seq::empty(),
    }
}

/// The line segments that outline a projected polygon.
pub fn outline(
    a: Option<(i32, i32)>,
    b: Option<(i32, i32)>,
    c: Option<(i32, i32)>,
    d: Option<(i32, i32)>,
) -> (r: Vec<((i32, i32), (i32, i32))>)
    ensures
        r@ == outline_edges(a, b, c, d),
{
    let mut r: Vec<((i32, i32), (i32, i32))> = Vec::new();
    if let Some(p1) = a {
        if let Some(p2) = b {
            if let Some(p3) = c {
                if let Some(p4) = d {
                    r.push((p1, p2));
                    r.push((p2, p4));
                    r.push((p4, p3));
                    r.push((p3, p1));
                } else {
                    r.push((p1, p2));
                    r.push((p2, p3));
                    r.push((p3, p1));
                }
            }
        }
    }
    assert(r@ =~= outline_edges(a, b, c, d));
    r
}


/// Releasing a walking key after pressing it leaves that direction still,
/// whatever the walking state was.
pub proof fn lemma_release_stops(c: Controls, k: Key)
    ensures
        (k == Key::W || k == Key::S) ==> controls_after(
            controls_after(c, Input::KeyDown(Some(k))),
            Input::KeyUp(Some(k)),
        ) == (Controls { n: 0, ..c }),
        (k == Key::A || k == Key::D) ==> controls_after(
            controls_after(c, Input::KeyDown(Some(k))),
            Input::KeyUp(Some(k)),
        ) == (Controls { w: 0, ..c }),
{
}


/// A mouse motion turns the camera in the direction of each of its
/// components: yaw and pitch are 1 for a positive component, -1 for a
/// negative one and 0 for none; the walking state stays as it is.
pub proof fn lemma_mouse_look(c: Controls, xrel: i32, yrel: i32)
    ensures
        ({
            let e = Input::MouseMotion { xrel, yrel };
            &&& controls_after(c, e) == c
            &&& action_of(e) matches Action::Look { yaw, pitch } && (yaw == 1 <==> xrel > 0) && (yaw
                == -1 <==> xrel < 0) && (yaw == 0 <==> xrel == 0) && (pitch == 1 <==> yrel > 0) && (
            pitch == -1 <==> yrel < 0) && (pitch == 0 <==> yrel == 0)
        }),
{
}

/// Releasing a key never asks anything of the camera, and only the walking
/// keys change the walking state when released.
pub proof fn lemma_key_up(c: Controls, k: Option<Key>)
    ensures
        action_of(Input::KeyUp(k)) == Action::Nothing,
        !(k == Some(Key::W) || k == Some(Key::S) || k == Some(Key::A) || k == Some(Key::D))
            ==> controls_after(c, Input::KeyUp(k)) == c,
        (k == Some(Key::W) || k == Some(Key::S)) ==> controls_after(c, Input::KeyUp(k)) == (Controls {
            n: 0,
            ..c
        }),
        (k == Some(Key::A) || k == Some(Key::D)) ==> controls_after(c, Input::KeyUp(k)) == (Controls {
            w: 0,
            ..c
        }),
{
}

/// Pressing W walks forward, S backward, A to the left and D to the right,
/// each leaving the other direction as it was; pressing any other key
/// leaves the walking state alone. Space raises and C lowers the camera,
/// Escape stops; other keys ask nothing.
pub proof fn lemma_key_down(c: Controls, k: Option<Key>)
    ensures
        controls_after(c, Input::KeyDown(Some(Key::W))) == (Controls { n: 1, ..c }),
        controls_after(c, Input::KeyDown(Some(Key::S))) == (Controls { n: -1i8, ..c }),
        controls_after(c, Input::KeyDown(Some(Key::A))) == (Controls { w: 1, ..c }),
        controls_after(c, Input::KeyDown(Some(Key::D))) == (Controls { w: -1i8, ..c }),
        !(k == Some(Key::W) || k == Some(Key::S) || k == Some(Key::A) || k == Some(Key::D))
            ==> controls_after(c, Input::KeyDown(k)) == c,
        action_of(Input::KeyDown(Some(Key::Space))) == Action::Climb(1),
        action_of(Input::KeyDown(Some(Key::C))) == Action::Climb(-1i8),
        action_of(Input::KeyDown(Some(Key::Escape))) == Action::Stop,
        !(k == Some(Key::Space) || k == Some(Key::C) || k == Some(Key::Escape)) ==> action_of(
            Input::KeyDown(k),
        ) == Action::Nothing,
{
}

/// Only closing the window or pressing Escape stops, and closing the window
/// or any other event leaves the walking state alone.
pub proof fn lemma_stop(c: Controls, e: Input)
    ensures
        action_of(e) == Action::Stop <==> (e == Input::Quit || e == Input::KeyDown(Some(Key::Escape))),
        (e == Input::Quit || e == Input::Other) ==> controls_after(c, e) == c && (e == Input::Other
            ==> action_of(e) == Action::Nothing),
{
}


/// The outline is empty when `a`, `b` or `c` is off screen; otherwise it is
/// a closed path, each edge starting where the one before ends, that goes
/// from `a` to `b` and visits every corner on screen once: three edges for
/// a triangle, four when `d` is on screen too, reached straight after `b`.
pub proof fn lemma_outline_closed(
    a: Option<(i32, i32)>,
    b: Option<(i32, i32)>,
    c: Option<(i32, i32)>,
    d: Option<(i32, i32)>,
)
    ensures
        ({
            let r = outline_edges(a, b, c, d);
            &&& (a is None || b is None || c is None) <==> r.len() == 0
            &&& r.len() > 0 ==> {
                &&& r.len() == if d is Some { 4int } else { 3int }
                &&& forall|k: int| 0 <= k < r.len() ==> (#[trigger] r[k]).1 == r[(k + 1) % (r.len() as int)].0
                &&& r[0].0 == a.unwrap() && r[0].1 == b.unwrap()
                &&& d is Some ==> r[1].1 == d.unwrap() && r[2].1 == c.unwrap()
                &&& d is None ==> r[1].1 == c.unwrap()
            }
        }),
{
}

} // verus!
