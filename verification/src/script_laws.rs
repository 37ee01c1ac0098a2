//! What each command of an animation script does, stated over the bytes of
//! its arguments and the cells it names.

use vstd::prelude::*;
use crate::animation::{next, write_outcome, EffectView, Fault, ScriptState};
use crate::filer::{be_at, marks_of};

verus! {

/// The script is about to run the command `(code, a)`.
pub open spec fn running(s: ScriptState, code: u8, a: Seq<u8>) -> bool {
    &&& s.step < s.cmds.len()
    &&& s.cmds[s.step as int] == (code, a)
    &&& s.buffer.len() == 256
    &&& s.marks.len() == 256
}

/// The state with the given cells, at the following command.
pub open spec fn moved_on(s: ScriptState, buffer: Seq<u32>) -> ScriptState {
    ScriptState { buffer, step: (s.step + 1) as u8, ..s }
}

/// The state after jumping to mark `m`: its step, or the end for mark 0.
pub open spec fn jumped(s: ScriptState, m: u8) -> ScriptState {
    ScriptState {
        step: if m != 0 {
            s.marks[m as int]
        } else {
            (s.cmds.len() % 256) as u8
        },
        ..s
    }
}

/// The value of the four argument bytes from `k`, big-endian.
pub open spec fn word(a: Seq<u8>, k: int) -> u32 {
    be_at(a, k) as u32
}

/// A (65) adds the value of argument bytes 1..5 to the cell named by byte 0,
/// wrapping at 2^32; B (66) stores that value there. Both need 5 bytes.
pub proof fn lemma_store_direct(s: ScriptState, a: Seq<u8>)
    requires
        s.step < 255,
    ensures
        running(s, 65, a) ==> (a.len() < 5 <==> next(s) == Err::<(ScriptState, EffectView), Fault>(
            Fault::MissingArgument,
        )),
        running(s, 65, a) && a.len() >= 5 ==> next(s) == Ok::<(ScriptState, EffectView), Fault>(
            (
                moved_on(
                    s,
                    s.buffer.update(
                        a[0] as int,
                        ((s.buffer[a[0] as int] + word(a, 1)) % 0x1_0000_0000) as u32,
                    ),
                ),
                EffectView::Nothing,
            ),
        ),
        running(s, 66, a) ==> (a.len() < 5 <==> next(s) == Err::<(ScriptState, EffectView), Fault>(
            Fault::MissingArgument,
        )),
        running(s, 66, a) && a.len() >= 5 ==> next(s) == Ok::<(ScriptState, EffectView), Fault>(
            (moved_on(s, s.buffer.update(a[0] as int, word(a, 1))), EffectView::Nothing),
        ),
{
}

/// a (97) adds the cell named by byte 1 to the cell whose index is the low
/// byte of the cell named by byte 0, wrapping at 2^32; b (98) stores it
/// there. Both need 2 bytes.
pub proof fn lemma_store_indirect(s: ScriptState, a: Seq<u8>)
    requires
        s.step < 255,
    ensures
        running(s, 97, a) ==> (a.len() < 2 <==> next(s) == Err::<(ScriptState, EffectView), Fault>(
            Fault::MissingArgument,
        )),
        running(s, 97, a) && a.len() >= 2 ==> ({
            let i = (s.buffer[a[0] as int] % 256) as int;
            next(s) == Ok::<(ScriptState, EffectView), Fault>(
                (
                    moved_on(
                        s,
                        s.buffer.update(i, ((s.buffer[i] + s.buffer[a[1] as int]) % 0x1_0000_0000) as u32),
                    ),
                    EffectView::Nothing,
                ),
            )
        }),
        running(s, 98, a) ==> (a.len() < 2 <==> next(s) == Err::<(ScriptState, EffectView), Fault>(
            Fault::MissingArgument,
        )),
        running(s, 98, a) && a.len() >= 2 ==> ({
            let i = (s.buffer[a[0] as int] % 256) as int;
            next(s) == Ok::<(ScriptState, EffectView), Fault>(
                (moved_on(s, s.buffer.update(i, s.buffer[a[1] as int])), EffectView::Nothing),
            )
        }),
{
}

/// J (74) jumps to the mark in byte 0; C (67) jumps to the mark in byte 5
/// when the cell named by byte 0 holds the value of bytes 1..5, else to the
/// mark in byte 6. Neither changes a cell.
pub proof fn lemma_jump_direct(s: ScriptState, a: Seq<u8>)
    ensures
        running(s, 74, a) ==> (a.len() < 1 <==> next(s) == Err::<(ScriptState, EffectView), Fault>(
            Fault::MissingArgument,
        )),
        running(s, 74, a) && a.len() >= 1 ==> next(s) == Ok::<(ScriptState, EffectView), Fault>(
            (jumped(s, a[0]), EffectView::Nothing),
        ),
        running(s, 67, a) ==> (a.len() < 7 <==> next(s) == Err::<(ScriptState, EffectView), Fault>(
            Fault::MissingArgument,
        )),
        running(s, 67, a) && a.len() >= 7 ==> next(s) == Ok::<(ScriptState, EffectView), Fault>(
            (
                jumped(s, if s.buffer[a[0] as int] == word(a, 1) { a[5] } else { a[6] }),
                EffectView::Nothing,
            ),
        ),
{
}

/// j (106) jumps to the mark held (as its low byte) in the cell named by
/// byte 0; c (99) compares the cell indexed by the cell named by byte 0 with
/// the cell named by byte 1 and jumps to the mark held in the cell named by
/// byte 2 when they are equal, else to that held in the cell named by byte 3.
pub proof fn lemma_jump_indirect(s: ScriptState, a: Seq<u8>)
    ensures
        running(s, 106, a) ==> (a.len() < 1 <==> next(s) == Err::<(ScriptState, EffectView), Fault>(
            Fault::MissingArgument,
        )),
        running(s, 106, a) && a.len() >= 1 ==> next(s) == Ok::<(ScriptState, EffectView), Fault>(
            (jumped(s, (s.buffer[a[0] as int] % 256) as u8), EffectView::Nothing),
        ),
        running(s, 99, a) ==> (a.len() < 4 <==> next(s) == Err::<(ScriptState, EffectView), Fault>(
            Fault::MissingArgument,
        )),
        running(s, 99, a) && a.len() >= 4 ==> ({
            let b = s.buffer;
            next(s) == Ok::<(ScriptState, EffectView), Fault>(
                (
                    jumped(
                        s,
                        if b[(b[a[0] as int] % 256) as int] == b[a[1] as int] {
                            (b[a[2] as int] % 256) as u8
                        } else {
                            (b[a[3] as int] % 256) as u8
                        },
                    ),
                    EffectView::Nothing,
                ),
            )
        }),
{
}

/// M (77), R (82) and S (83) name `l` (byte 1) cells from cell `i` (byte 0)
/// as targets, faulting when `i + l` passes 255, and read their vectors from
/// the argument bytes: M shifts by bytes 2..14, R rotates by the angle in
/// bytes 2..6 about the axis in bytes 6..18, S places at bytes 2..14.
pub proof fn lemma_motion_direct(s: ScriptState, a: Seq<u8>)
    requires
        s.step < 255,
    ensures
        running(s, 77, a) ==> (a.len() < 14 <==> next(s) == Err::<(ScriptState, EffectView), Fault>(
            Fault::MissingArgument,
        )),
        running(s, 77, a) && a.len() >= 14 ==> next(s) == if a[0] + a[1] > 255 {
            Err::<(ScriptState, EffectView), Fault>(Fault::RangeOverflow)
        } else {
            Ok(
                (
                    moved_on(s, s.buffer),
                    EffectView::Move {
                        targets: s.buffer.subrange(a[0] as int, a[0] + a[1]),
                        shift: (word(a, 2), word(a, 6), word(a, 10)),
                    },
                ),
            )
        },
        running(s, 82, a) ==> (a.len() < 18 <==> next(s) == Err::<(ScriptState, EffectView), Fault>(
            Fault::MissingArgument,
        )),
        running(s, 82, a) && a.len() >= 18 ==> next(s) == if a[0] + a[1] > 255 {
            Err::<(ScriptState, EffectView), Fault>(Fault::RangeOverflow)
        } else {
            Ok(
                (
                    moved_on(s, s.buffer),
                    EffectView::Rotate {
                        targets: s.buffer.subrange(a[0] as int, a[0] + a[1]),
                        angle: word(a, 2),
                        axis: (word(a, 6), word(a, 10), word(a, 14)),
                    },
                ),
            )
        },
        running(s, 83, a) ==> (a.len() < 14 <==> next(s) == Err::<(ScriptState, EffectView), Fault>(
            Fault::MissingArgument,
        )),
        running(s, 83, a) && a.len() >= 14 ==> next(s) == if a[0] + a[1] > 255 {
            Err::<(ScriptState, EffectView), Fault>(Fault::RangeOverflow)
        } else {
            Ok(
                (
                    moved_on(s, s.buffer),
                    EffectView::Place {
                        targets: s.buffer.subrange(a[0] as int, a[0] + a[1]),
                        to: (word(a, 2), word(a, 6), word(a, 10)),
                    },
                ),
            )
        },
{
}

/// m (109), r (114) and s (115) take every operand from the cells named by
/// their argument bytes: the first target cell and the count are the low
/// bytes of the cells named by bytes 0 and 1; m shifts by the cells named
/// by bytes 2, 3, 4; r rotates by the cell named by byte 2 about the cells
/// named by bytes 3, 4, 5; s places at the cells named by bytes 2, 3, 4.
pub proof fn lemma_motion_indirect(s: ScriptState, a: Seq<u8>)
    requires
        s.step < 255,
    ensures
        running(s, 109, a) ==> (a.len() < 5 <==> next(s) == Err::<(ScriptState, EffectView), Fault>(
            Fault::MissingArgument,
        )),
        running(s, 109, a) && a.len() >= 5 ==> ({
            let b = s.buffer;
            let i = b[a[0] as int] % 256;
            let l = b[a[1] as int] % 256;
            next(s) == if i + l > 255 {
                Err::<(ScriptState, EffectView), Fault>(Fault::RangeOverflow)
            } else {
                Ok(
                    (
                        moved_on(s, b),
                        EffectView::Move {
                            targets: b.subrange(i as int, i + l),
                            shift: (b[a[2] as int], b[a[3] as int], b[a[4] as int]),
                        },
                    ),
                )
            }
        }),
        running(s, 114, a) ==> (a.len() < 6 <==> next(s) == Err::<(ScriptState, EffectView), Fault>(
            Fault::MissingArgument,
        )),
        running(s, 114, a) && a.len() >= 6 ==> ({
            let b = s.buffer;
            let i = b[a[0] as int] % 256;
            let l = b[a[1] as int] % 256;
            next(s) == if i + l > 255 {
                Err::<(ScriptState, EffectView), Fault>(Fault::RangeOverflow)
            } else {
                Ok(
                    (
                        moved_on(s, b),
                        EffectView::Rotate {
                            targets: b.subrange(i as int, i + l),
                            angle: b[a[2] as int],
                            axis: (b[a[3] as int], b[a[4] as int], b[a[5] as int]),
                        },
                    ),
                )
            }
        }),
        running(s, 115, a) ==> (a.len() < 5 <==> next(s) == Err::<(ScriptState, EffectView), Fault>(
            Fault::MissingArgument,
        )),
        running(s, 115, a) && a.len() >= 5 ==> ({
            let b = s.buffer;
            let i = b[a[0] as int] % 256;
            let l = b[a[1] as int] % 256;
            next(s) == if i + l > 255 {
                Err::<(ScriptState, EffectView), Fault>(Fault::RangeOverflow)
            } else {
                Ok(
                    (
                        moved_on(s, b),
                        EffectView::Place {
                            targets: b.subrange(i as int, i + l),
                            to: (b[a[2] as int], b[a[3] as int], b[a[4] as int]),
                        },
                    ),
                )
            }
        }),
{
}

/// T (84) names targets as M does, takes the angle from bytes 2..6, and the
/// two points of its axis line from the three cells from the cell named by
/// byte 6 and from the cell named by byte 7; it faults on a target range
/// past 255 first, then on a point whose cells pass 255.
pub proof fn lemma_twist(s: ScriptState, a: Seq<u8>)
    requires
        s.step < 255,
    ensures
        running(s, 84, a) ==> (a.len() < 8 <==> next(s) == Err::<(ScriptState, EffectView), Fault>(
            Fault::MissingArgument,
        )),
        running(s, 84, a) && a.len() >= 8 ==> ({
            let b = s.buffer;
            let (p, q) = (a[6] as int, a[7] as int);
            next(s) == if a[0] + a[1] > 255 {
                Err::<(ScriptState, EffectView), Fault>(Fault::RangeOverflow)
            } else if p > 253 || q > 253 {
                Err::<(ScriptState, EffectView), Fault>(Fault::BufferIndex)
            } else {
                Ok(
                    (
                        moved_on(s, b),
                        EffectView::Twist {
                            targets: b.subrange(a[0] as int, a[0] + a[1]),
                            angle: word(a, 2),
                            first: (b[p], b[p + 1], b[p + 2]),
                            second: (b[q], b[q + 1], b[q + 2]),
                        },
                    ),
                )
            }
        }),
{
}

/// W (87) asks to write the coordinates of the target in byte 0 into the
/// cells from byte 1; P (81) changes nothing but faults when its three
/// cells from byte 0 pass 255; every code without a meaning just moves on.
pub proof fn lemma_other_commands(s: ScriptState, code: u8, a: Seq<u8>)
    requires
        s.step < 255,
    ensures
        running(s, 87, a) ==> (a.len() < 2 <==> next(s) == Err::<(ScriptState, EffectView), Fault>(
            Fault::MissingArgument,
        )),
        running(s, 87, a) && a.len() >= 2 ==> next(s) == Ok::<(ScriptState, EffectView), Fault>(
            (moved_on(s, s.buffer), EffectView::Write { point: a[0], slot: a[1] }),
        ),
        running(s, 81, a) ==> (a.len() < 5 <==> next(s) == Err::<(ScriptState, EffectView), Fault>(
            Fault::MissingArgument,
        )),
        running(s, 81, a) && a.len() >= 5 ==> next(s) == if a[0] > 253 {
            Err::<(ScriptState, EffectView), Fault>(Fault::BufferIndex)
        } else {
            Ok((moved_on(s, s.buffer), EffectView::Nothing))
        },
        running(s, code, a) && !(code == 65 || code == 66 || code == 67 || code == 74 || code == 77
            || code == 81 || code == 82 || code == 83 || code == 84 || code == 87 || code == 97
            || code == 98 || code == 99 || code == 106 || code == 109 || code == 114 || code
            == 115) ==> next(s) == Ok::<(ScriptState, EffectView), Fault>(
            (moved_on(s, s.buffer), EffectView::Nothing),
        ),
{
}

/// A step past the last command faults.
pub proof fn lemma_step_past_end(s: ScriptState)
    requires
        s.step > s.cmds.len(),
    ensures
        next(s) == Err::<(ScriptState, EffectView), Fault>(Fault::StepOutOfRange),
{
}

/// A command that does not jump moves on to the following command, and
/// faults when the step is already 255.
pub proof fn lemma_last_step_overflows(s: ScriptState, a: Seq<u8>)
    requires
        s.step == 255,
        running(s, 66, a),
        a.len() >= 5,
    ensures
        next(s) == Err::<(ScriptState, EffectView), Fault>(Fault::StepOverflow),
{
}


/// Writing a point adds each of its three coordinates to one of the three
/// cells from `slot` and leaves every other cell as it was; it fails when
/// a sum passes `u32::MAX` or a cell lies past 255.
pub proof fn lemma_write_adds(buf: Seq<u32>, slot: u8, bits: (u32, u32, u32))
    requires
        buf.len() == 256,
    ensures
        (slot <= 253 && buf[slot as int] + bits.0 <= u32::MAX && buf[slot + 1] + bits.1 <= u32::MAX
            && buf[slot + 2] + bits.2 <= u32::MAX) <==> write_outcome(buf, slot as int, bits) is Ok,
        write_outcome(buf, slot as int, bits) matches Ok(after) ==> {
            &&& after.len() == 256
            &&& after[slot as int] == buf[slot as int] + bits.0
            &&& after[slot + 1] == buf[slot + 1] + bits.1
            &&& after[slot + 2] == buf[slot + 2] + bits.2
            &&& forall|k: int| 0 <= k < 256 && (k < slot || k > slot + 2) ==> after[k] == buf[k]
        },
{
}

/// Mark `m` leads to the index (modulo 256) of the last record that carries
/// it, and to 0 when no record does.
pub proof fn lemma_marks_last(recs: Seq<(u8, u8, Seq<u8>)>, m: u8)
    ensures
        (forall|k: int| 0 <= k < recs.len() ==> (#[trigger] recs[k]).0 != m) ==> marks_of(recs)[m as int]
            == 0,
        forall|k: int|
            0 <= k < recs.len() && (#[trigger] recs[k]).0 == m && (forall|j: int|
                k < j < recs.len() ==> recs[j].0 != m) ==> marks_of(recs)[m as int] == (k % 256) as u8,
    decreases recs.len(),
{
    if recs.len() > 0 {
        let init = recs.drop_last();
        lemma_marks_last(init, m);
        crate::filer::lemma_marks_len(init);
        assert forall|k: int|
            0 <= k < recs.len() && (#[trigger] recs[k]).0 == m && (forall|j: int|
                k < j < recs.len() ==> recs[j].0 != m) implies marks_of(recs)[m as int] == (k
            % 256) as u8 by {
            if k < recs.len() - 1 {
                assert(recs.last().0 != m);
                assert(init[k] == recs[k]);
                assert forall|j: int| k < j < init.len() implies init[j].0 != m by {
                    assert(init[j] == recs[j]);
                }
            }
        }
        if forall|k: int| 0 <= k < recs.len() ==> (#[trigger] recs[k]).0 != m {
            assert(recs.last() == recs[recs.len() - 1]);
            assert forall|k: int| 0 <= k < init.len() implies (#[trigger] init[k]).0 != m by {
                assert(init[k] == recs[k]);
            }
        }
    }
}

} // verus!
