//! Animation scripts: commands and the machine that runs them.

use vstd::prelude::*;
use crate::filer::{arg_len, be_at, marks_of, script_records, size_sum, u8_to_u32};
use crate::vars::arg_sizes;

verus! {

/// One command of an animation script: its code and its argument bytes.
pub struct Command {
    cmd: u8,
    args: Vec<u8>,
}

impl View for Command {
    type V = (u8, Seq<u8>);

    closed spec fn view(&self) -> (u8, Seq<u8>) {
        (self.cmd, self.args@)
    }
}

impl Command {
    /// A command with the given code and a copy of the given arguments.
    pub fn make(cmd: u8, args: &Vec<u8>) -> (r: Self)
        ensures
            r@ == (cmd, args@),
    {
        let copy = args.clone();
        assert(copy@ =~= args@);
        Self { cmd, args: copy }
    }

    /// The code and the arguments.
    pub fn get_debug(&self) -> (r: (u8, &Vec<u8>))
        ensures
            r.0 == self@.0,
            r.1@ == self@.1,
    {
        (self.cmd, &self.args)
    }
}


/// Why a step of a script cannot run.
#[derive(Debug, Clone, Copy, PartialEq, Eq, Structural)]
pub enum Fault {
    /// The step lies past the last command.
    StepOutOfRange,
    /// The command has fewer argument bytes than it reads.
    MissingArgument,
    /// A range of buffer cells would end past the last cell.
    RangeOverflow,
    /// A group of three buffer cells would end past the last cell.
    BufferIndex,
    /// The step after the last one, 255, does not fit a step.
    StepOverflow,
    /// Adding a coordinate to a buffer cell exceeds `u32::MAX`.
    ValueOverflow,
}

/// What a step asks of the animated object. Targets are buffer values: 0
/// stands for the object's position, `k > 0` for its point `k - 1`.
/// Coordinates, angles and axes are the bit patterns of `f32` values.
#[derive(Debug, PartialEq, Eq)]
pub enum Effect {
    /// Nothing to do on the object.
    Nothing,
    /// Shift the targets by a vector.
    Move { targets: Vec<u32>, shift: (u32, u32, u32) },
    /// Rotate the targets by an angle (in degrees) about an axis.
    Rotate { targets: Vec<u32>, angle: u32, axis: (u32, u32, u32) },
    /// Put the targets at a point.
    Place { targets: Vec<u32>, to: (u32, u32, u32) },
    /// Rotate the targets by an angle about the line through two points.
    Twist { targets: Vec<u32>, angle: u32, first: (u32, u32, u32), second: (u32, u32, u32) },
    /// Add the coordinates of a target to three buffer cells (see `write`).
    Write { point: u8, slot: u8 },
}

/// An `Effect` as a value.
pub enum EffectView {
    Nothing,
    Move { targets: Seq<u32>, shift: (u32, u32, u32) },
    Rotate { targets: Seq<u32>, angle: u32, axis: (u32, u32, u32) },
    Place { targets: Seq<u32>, to: (u32, u32, u32) },
    Twist { targets: Seq<u32>, angle: u32, first: (u32, u32, u32), second: (u32, u32, u32) },
    Write { point: u8, slot: u8 },
}

impl View for Effect {
    type V = EffectView;

    open spec fn view(&self) -> EffectView {
        match self {
            Effect::Nothing => EffectView::Nothing,
            Effect::Move { targets, shift } => EffectView::Move { targets: targets@, shift: *shift },
            Effect::Rotate { targets, angle, axis } => EffectView::Rotate {
                targets: targets@,
                angle: *angle,
                axis: *axis,
            },
            Effect::Place { targets, to } => EffectView::Place { targets: targets@, to: *to },
            Effect::Twist { targets, angle, first, second } => EffectView::Twist {
                targets: targets@,
                angle: *angle,
                first: *first,
                second: *second,
            },
            Effect::Write { point, slot } => EffectView::Write { point: *point, slot: *slot },
        }
    }
}

/// The state of a running script.
pub struct ScriptState {
    /// Jump table: the step that mark `m` leads to.
    pub marks: Seq<u8>,
    /// The commands, each its code and arguments.
    pub cmds: Seq<(u8, Seq<u8>)>,
    /// The 256 cells of working memory.
    pub buffer: Seq<u32>,
    /// The index of the next command.
    pub step: u8,
}

/// The big-endian value of the argument bytes `a[k..k + 4]`.
pub open spec fn arg_value(a: Seq<u8>, k: int) -> u32 {
    be_at(a, k) as u32
}

/// The low byte of a buffer value.
pub open spec fn low_byte(x: u32) -> u8 {
    (x % 256) as u8
}

/// The number of argument bytes that a command reads.
pub open spec fn required_args(code: u8) -> nat {
    match code {
        65 | 66 | 81 | 109 | 115 => 5,
        67 => 7,
        74 | 106 => 1,
        77 | 83 => 14,
        82 => 18,
        84 => 8,
        87 | 97 | 98 => 2,
        99 => 4,
        114 => 6,
        _ => 0,
    }
}

/// The `l` buffer values from cell `i`, when they end within the buffer.
pub open spec fn targets_at(buf: Seq<u32>, i: int, l: int) -> Result<Seq<u32>, Fault> {
    if i + l > 255 {
        Err(Fault::RangeOverflow)
    } else {
        Ok(buf.subrange(i, i + l))
    }
}

/// The three buffer values from cell `p`, when they end within the buffer.
pub open spec fn triple_from(buf: Seq<u32>, p: int) -> Result<(u32, u32, u32), Fault> {
    if p > 253 {
        Err(Fault::BufferIndex)
    } else {
        Ok((buf[p], buf[p + 1], buf[p + 2]))
    }
}

/// `buf[i] + v`, wrapping at 2^32.
pub open spec fn added(buf: Seq<u32>, i: int, v: u32) -> Seq<u32> {
    buf.update(i, ((buf[i] + v) % 0x1_0000_0000) as u32)
}

/// What one command does: the new buffer, the mark to jump to (if any) and
/// the effect on the object; or the fault that stops it.
pub open spec fn outcome(buf: Seq<u32>, code: u8, a: Seq<u8>) -> Result<
    (Seq<u32>, Option<u8>, EffectView),
    Fault,
> {
    match code {
        // A: add a value to a cell
        65 => Ok((added(buf, a[0] as int, arg_value(a, 1)), None, EffectView::Nothing)),
        // B: store a value in a cell
        66 => Ok((buf.update(a[0] as int, arg_value(a, 1)), None, EffectView::Nothing)),
        // C: jump to one of two marks by comparing a cell with a value
        67 => Ok(
            (
                buf,
                Some(if buf[a[0] as int] == arg_value(a, 1) { a[5] } else { a[6] }),
                EffectView::Nothing,
            ),
        ),
        // J: jump to a mark
        74 => Ok((buf, Some(a[0]), EffectView::Nothing)),
        // M: move targets
        77 => match targets_at(buf, a[0] as int, a[1] as int) {
            Ok(t) => Ok(
                (
                    buf,
                    None,
                    EffectView::Move {
                        targets: t,
                        shift: (arg_value(a, 2), arg_value(a, 6), arg_value(a, 10)),
                    },
                ),
            ),
            Err(f) => Err(f),
        },
        // P: reads three cells and changes nothing
        81 => if a[0] > 253 {
            Err(Fault::BufferIndex)
        } else {
            Ok((buf, None, EffectView::Nothing))
        },
        // R: rotate targets
        82 => match targets_at(buf, a[0] as int, a[1] as int) {
            Ok(t) => Ok(
                (
                    buf,
                    None,
                    EffectView::Rotate {
                        targets: t,
                        angle: arg_value(a, 2),
                        axis: (arg_value(a, 6), arg_value(a, 10), arg_value(a, 14)),
                    },
                ),
            ),
            Err(f) => Err(f),
        },
        // S: set targets
        83 => match targets_at(buf, a[0] as int, a[1] as int) {
            Ok(t) => Ok(
                (
                    buf,
                    None,
                    EffectView::Place {
                        targets: t,
                        to: (arg_value(a, 2), arg_value(a, 6), arg_value(a, 10)),
                    },
                ),
            ),
            Err(f) => Err(f),
        },
        // T: twist targets about the line through two points held in cells
        84 => match targets_at(buf, a[0] as int, a[1] as int) {
            Ok(t) => match triple_from(buf, a[6] as int) {
                Ok(first) => match triple_from(buf, a[7] as int) {
                    Ok(second) => Ok(
                        (
                            buf,
                            None,
                            EffectView::Twist { targets: t, angle: arg_value(a, 2), first, second },
                        ),
                    ),
                    Err(f) => Err(f),
                },
                Err(f) => Err(f),
            },
            Err(f) => Err(f),
        },
        // W: write the coordinates of a target into cells
        87 => Ok((buf, None, EffectView::Write { point: a[0], slot: a[1] })),
        // a: add, addressing through cells
        97 => Ok(
            (added(buf, low_byte(buf[a[0] as int]) as int, buf[a[1] as int]), None, EffectView::Nothing),
        ),
        // b: store, addressing through cells
        98 => Ok(
            (
                buf.update(low_byte(buf[a[0] as int]) as int, buf[a[1] as int]),
                None,
                EffectView::Nothing,
            ),
        ),
        // c: compare, addressing through cells
        99 => Ok(
            (
                buf,
                Some(
                    if buf[low_byte(buf[a[0] as int]) as int] == buf[a[1] as int] {
                        low_byte(buf[a[2] as int])
                    } else {
                        low_byte(buf[a[3] as int])
                    },
                ),
                EffectView::Nothing,
            ),
        ),
        // j: jump to the mark held in a cell
        106 => Ok((buf, Some(low_byte(buf[a[0] as int])), EffectView::Nothing)),
        // m: move, all operands in cells
        109 => match targets_at(
            buf,
            low_byte(buf[a[0] as int]) as int,
            low_byte(buf[a[1] as int]) as int,
        ) {
            Ok(t) => Ok(
                (
                    buf,
                    None,
                    EffectView::Move {
                        targets: t,
                        shift: (buf[a[2] as int], buf[a[3] as int], buf[a[4] as int]),
                    },
                ),
            ),
            Err(f) => Err(f),
        },
        // r: rotate, all operands in cells
        114 => match targets_at(
            buf,
            low_byte(buf[a[0] as int]) as int,
            low_byte(buf[a[1] as int]) as int,
        ) {
            Ok(t) => Ok(
                (
                    buf,
                    None,
                    EffectView::Rotate {
                        targets: t,
                        angle: buf[a[2] as int],
                        axis: (buf[a[3] as int], buf[a[4] as int], buf[a[5] as int]),
                    },
                ),
            ),
            Err(f) => Err(f),
        },
        // s: set, all operands in cells
        115 => match targets_at(
            buf,
            low_byte(buf[a[0] as int]) as int,
            low_byte(buf[a[1] as int]) as int,
        ) {
            Ok(t) => Ok(
                (
                    buf,
                    None,
                    EffectView::Place {
                        targets: t,
                        to: (buf[a[2] as int], buf[a[3] as int], buf[a[4] as int]),
                    },
                ),
            ),
            Err(f) => Err(f),
        },
        // any other code does nothing
        _ => Ok((buf, None, EffectView::Nothing)),
    }
}

/// The step after a command: the mark's step for a nonzero mark, the end
/// (the number of commands modulo 256) for mark 0, the next command when
/// there is no mark.
pub open spec fn next_step(s: ScriptState, mark: Option<u8>) -> Result<u8, Fault> {
    match mark {
        Some(m) => if m != 0 {
            Ok(s.marks[m as int])
        } else {
            Ok((s.cmds.len() % 256) as u8)
        },
        None => if s.step == 255 {
            Err(Fault::StepOverflow)
        } else {
            Ok((s.step + 1) as u8)
        },
    }
}

/// One step of a script: a finished script stays as it is; otherwise the
/// command at `step` runs and the step moves on.
pub open spec fn next(s: ScriptState) -> Result<(ScriptState, EffectView), Fault> {
    if s.step == s.cmds.len() {
        Ok((s, EffectView::Nothing))
    } else if s.step > s.cmds.len() {
        Err(Fault::StepOutOfRange)
    } else {
        let (code, a) = s.cmds[s.step as int];
        if a.len() < required_args(code) {
            Err(Fault::MissingArgument)
        } else {
            match outcome(s.buffer, code, a) {
                Ok((buf, mark, eff)) => match next_step(s, mark) {
                    Ok(step) => Ok((ScriptState { buffer: buf, step, ..s }, eff)),
                    Err(f) => Err(f),
                },
                Err(f) => Err(f),
            }
        }
    }
}

/// The buffer after adding the three coordinates `bits` to the cells from
/// `slot` on, or the fault that stops it.
pub open spec fn write_outcome(buf: Seq<u32>, slot: int, bits: (u32, u32, u32)) -> Result<
    Seq<u32>,
    Fault,
> {
    if buf[slot] + bits.0 > u32::MAX {
        Err(Fault::ValueOverflow)
    } else if slot + 1 > 255 {
        Err(Fault::BufferIndex)
    } else if buf[slot + 1] + bits.1 > u32::MAX {
        Err(Fault::ValueOverflow)
    } else if slot + 2 > 255 {
        Err(Fault::BufferIndex)
    } else if buf[slot + 2] + bits.2 > u32::MAX {
        Err(Fault::ValueOverflow)
    } else {
        Ok(
            buf.update(slot, (buf[slot] + bits.0) as u32).update(
                slot + 1,
                (buf[slot + 1] + bits.1) as u32,
            ).update(slot + 2, (buf[slot + 2] + bits.2) as u32),
        )
    }
}


/// The buffer with an optional single cell replaced.
pub open spec fn with_cell(buf: Seq<u32>, w: Option<(usize, u32)>) -> Seq<u32> {
    match w {
        Some((i, v)) => buf.update(i as int, v),
        None => buf,
    }
}

fn required_arg_count(code: u8) -> (n: usize)
    ensures
        n == required_args(code),
{
    match code {
        65 | 66 | 81 | 109 | 115 => 5,
        67 => 7,
        74 | 106 => 1,
        77 | 83 => 14,
        82 => 18,
        84 => 8,
        87 | 97 | 98 => 2,
        99 => 4,
        114 => 6,
        _ => 0,
    }
}

fn arg_u32(a: &Vec<u8>, k: usize) -> (r: u32)
    requires
        k + 4 <= a.len(),
    ensures
        r == arg_value(a@, k as int),
{
    let sub = &a.as_slice()[k..k + 4];
    u8_to_u32(sub)
}

/// A running animation script: the jump table of its marks, its commands,
/// 256 cells of working memory and the index of the next command.
pub struct Animation {
    marks: [u8; 256],
    cmds: Vec<Command>,
    buffer: [u32; 256],
    step: u8,
}

impl View for Animation {
    type V = ScriptState;

    closed spec fn view(&self) -> ScriptState {
        ScriptState {
            marks: self.marks@,
            cmds: self.cmds@.map_values(|c: Command| c@),
            buffer: self.buffer@,
            step: self.step,
        }
    }
}

impl Animation {
    /// A script at its first command, with every cell zero.
    pub fn make(marks: [u8; 256], cmds: Vec<Command>) -> (r: Self)
        ensures
            r@.marks == marks@,
            r@.cmds == cmds@.map_values(|c: Command| c@),
            r@.buffer == Seq::new(256, |i: int| 0u32),
            r@.step == 0,
    {
        let r = Animation { marks, cmds, buffer: [0; 256], step: 0 };
        assert(r@.buffer =~= Seq::new(256, |i: int| 0u32));
        r
    }

    /// The jump table and the commands.
    pub fn get_debug(&self) -> (r: (&[u8], &Vec<Command>))
        ensures
            r.0@ == self@.marks,
            r.1@.map_values(|c: Command| c@) == self@.cmds,
    {
        (self.marks.as_slice(), &self.cmds)
    }

    /// A script always has 256 cells and 256 marks.
    pub proof fn lemma_sizes(&self)
        ensures
            self@.buffer.len() == 256,
            self@.marks.len() == 256,
    {
    }

    /// Whether the script has run its last command.
    pub fn is_end(&self) -> (r: bool)
        ensures
            r == (self@.step == self@.cmds.len()),
    {
        self.step as usize == self.cmds.len()
    }

    /// Adds `v` to cell `i`, wrapping at 2^32.
    pub fn add(&mut self, i: u8, v: u32)
        ensures
            final(self)@ == (ScriptState { buffer: added(old(self)@.buffer, i as int, v), ..old(self)@ }),
    {
        self.buffer[i as usize] = ((self.buffer[i as usize] as u64 + v as u64) % 0x1_0000_0000) as u32;
        assert(self@.buffer =~= added(old(self)@.buffer, i as int, v));
    }

    /// Stores `v` in cell `i`.
    pub fn buffer(&mut self, i: u8, v: u32)
        ensures
            final(self)@ == (ScriptState { buffer: old(self)@.buffer.update(i as int, v), ..old(self)@ }),
    {
        self.buffer[i as usize] = v;
        assert(self@.buffer =~= old(self)@.buffer.update(i as int, v));
    }

    /// `m1` when cell `i` holds `v`, else `m2`.
    pub fn check(&self, i: u8, v: u32, m1: u8, m2: u8) -> (r: u8)
        ensures
            r == if self@.buffer[i as int] == v { m1 } else { m2 },
    {
        if self.buffer[i as usize] == v {
            m1
        } else {
            m2
        }
    }

    fn targets(&self, i: u8, l: u8) -> (r: Result<Vec<u32>, Fault>)
        ensures
            match targets_at(self@.buffer, i as int, l as int) {
                Ok(t) => r matches Ok(v) && v@ == t,
                Err(f) => r matches Err(g) && g == f,
            },
    {
        if i as u16 + l as u16 > 255 {
            return Err(Fault::RangeOverflow);
        }
        let end: usize = i as usize + l as usize;
        let mut v: Vec<u32> = Vec::new();
        let mut k: usize = i as usize;
        while k < end
            invariant
                i <= k <= end,
                end == i + l,
                end <= 255,
                v@ == self@.buffer.subrange(i as int, k as int),
            decreases end - k,
        {
            v.push(self.buffer[k]);
            k = k + 1;
            assert(v@ =~= self@.buffer.subrange(i as int, k as int));
        }
        Ok(v)
    }

    fn triple(&self, p: u8) -> (r: Result<(u32, u32, u32), Fault>)
        ensures
            match triple_from(self@.buffer, p as int) {
                Ok(t) => r == Ok::<(u32, u32, u32), Fault>(t),
                Err(f) => r == Err::<(u32, u32, u32), Fault>(f),
            },
    {
        if p > 253 {
            return Err(Fault::BufferIndex);
        }
        let p = p as usize;
        Ok((self.buffer[p], self.buffer[p + 1], self.buffer[p + 2]))
    }

    /// Runs one command on the current buffer without changing anything:
    /// gives the cell to store, the mark to jump to and the effect.
    fn run(&self, code: u8, a: &Vec<u8>) -> (r: Result<(Option<(usize, u32)>, Option<u8>, Effect), Fault>)
        requires
            a@.len() >= required_args(code),
        ensures
            match outcome(self@.buffer, code, a@) {
                Ok((buf, mark, eff)) => r matches Ok((w, m, e)) && with_cell(self@.buffer, w) == buf
                    && m == mark && e@ == eff && (w matches Some((i, v)) ==> i < 256),
                Err(f) => r matches Err(g) && g == f,
            },
    {
        let buf = &self.buffer;
        match code {
            65 => {
                let i = a[0] as usize;
                let v = ((buf[i] as u64 + arg_u32(a, 1) as u64) % 0x1_0000_0000) as u32;
                Ok((Some((i, v)), None, Effect::Nothing))
            },
            66 => Ok((Some((a[0] as usize, arg_u32(a, 1))), None, Effect::Nothing)),
            67 => {
                let m = self.check(a[0], arg_u32(a, 1), a[5], a[6]);
                Ok((None, Some(m), Effect::Nothing))
            },
            74 => Ok((None, Some(a[0]), Effect::Nothing)),
            77 => {
                let t = self.targets(a[0], a[1])?;
                let shift = (arg_u32(a, 2), arg_u32(a, 6), arg_u32(a, 10));
                Ok((None, None, Effect::Move { targets: t, shift }))
            },
            81 => {
                if a[0] > 253 {
                    Err(Fault::BufferIndex)
                } else {
                    Ok((None, None, Effect::Nothing))
                }
            },
            82 => {
                let t = self.targets(a[0], a[1])?;
                let axis = (arg_u32(a, 6), arg_u32(a, 10), arg_u32(a, 14));
                Ok((None, None, Effect::Rotate { targets: t, angle: arg_u32(a, 2), axis }))
            },
            83 => {
                let t = self.targets(a[0], a[1])?;
                let to = (arg_u32(a, 2), arg_u32(a, 6), arg_u32(a, 10));
                Ok((None, None, Effect::Place { targets: t, to }))
            },
            84 => {
                let t = self.targets(a[0], a[1])?;
                let first = self.triple(a[6])?;
                let second = self.triple(a[7])?;
                Ok((None, None, Effect::Twist { targets: t, angle: arg_u32(a, 2), first, second }))
            },
            87 => Ok((None, None, Effect::Write { point: a[0], slot: a[1] })),
            97 => {
                let i = (buf[a[0] as usize] % 256) as usize;
                let v = ((buf[i] as u64 + buf[a[1] as usize] as u64) % 0x1_0000_0000) as u32;
                Ok((Some((i, v)), None, Effect::Nothing))
            },
            98 => {
                let i = (buf[a[0] as usize] % 256) as usize;
                Ok((Some((i, buf[a[1] as usize])), None, Effect::Nothing))
            },
            99 => {
                let m = self.check(
                    (buf[a[0] as usize] % 256) as u8,
                    buf[a[1] as usize],
                    (buf[a[2] as usize] % 256) as u8,
                    (buf[a[3] as usize] % 256) as u8,
                );
                Ok((None, Some(m), Effect::Nothing))
            },
            106 => Ok((None, Some((buf[a[0] as usize] % 256) as u8), Effect::Nothing)),
            109 => {
                let i = (buf[a[0] as usize] % 256) as u8;
                let l = (buf[a[1] as usize] % 256) as u8;
                let t = self.targets(i, l)?;
                let shift = (buf[a[2] as usize], buf[a[3] as usize], buf[a[4] as usize]);
                Ok((None, None, Effect::Move { targets: t, shift }))
            },
            114 => {
                let i = (buf[a[0] as usize] % 256) as u8;
                let l = (buf[a[1] as usize] % 256) as u8;
                let t = self.targets(i, l)?;
                let axis = (buf[a[3] as usize], buf[a[4] as usize], buf[a[5] as usize]);
                Ok((None, None, Effect::Rotate { targets: t, angle: buf[a[2] as usize], axis }))
            },
            115 => {
                let i = (buf[a[0] as usize] % 256) as u8;
                let l = (buf[a[1] as usize] % 256) as u8;
                let t = self.targets(i, l)?;
                let to = (buf[a[2] as usize], buf[a[3] as usize], buf[a[4] as usize]);
                Ok((None, None, Effect::Place { targets: t, to }))
            },
            _ => Ok((None, None, Effect::Nothing)),
        }
    }

    /// Runs the command at the current step. A finished script is left as
    /// it is. Otherwise the command may change one cell and moves the step
    /// on: to the mark's step for a nonzero mark, to the end for mark 0, to
    /// the next command otherwise. What the command asks of the object comes
    /// back as an `Effect`. On a fault nothing changes.
    pub fn iterate(&mut self) -> (r: Result<Effect, Fault>)
        ensures
            match next(old(self)@) {
                Ok((st, eff)) => r matches Ok(e) && e@ == eff && final(self)@ == st,
                Err(f) => r matches Err(g) && g == f && final(self)@ == old(self)@,
            },
    {
        if self.is_end() {
            return Ok(Effect::Nothing);
        }
        if self.step as usize > self.cmds.len() {
            return Err(Fault::StepOutOfRange);
        }
        let k = self.step as usize;
        let code = self.cmds[k].cmd;
        let a = &self.cmds[k].args;
        assert(self@.cmds[k as int] == (code, a@));
        if a.len() < required_arg_count(code) {
            return Err(Fault::MissingArgument);
        }
        let (cell, mark, eff) = self.run(code, a)?;
        let step: u8 = match mark {
            Some(m) => {
                if m != 0 {
                    self.marks[m as usize]
                } else {
                    (self.cmds.len() % 256) as u8
                }
            },
            None => {
                if self.step == 255 {
                    return Err(Fault::StepOverflow);
                }
                self.step + 1
            },
        };
        if let Some((i, v)) = cell {
            self.buffer[i] = v;
        }
        self.step = step;
        assert(self@.buffer =~= with_cell(old(self)@.buffer, cell));
        assert(self@.cmds =~= old(self)@.cmds);
        Ok(eff)
    }

    /// Adds the coordinates `bits` (the bit patterns of an `f32` triple)
    /// to the cells `slot`, `slot + 1` and `slot + 2`, as a `Write` effect
    /// asks. On a fault nothing changes.
    pub fn write(&mut self, slot: u8, bits: (u32, u32, u32)) -> (r: Result<(), Fault>)
        ensures
            match write_outcome(old(self)@.buffer, slot as int, bits) {
                Ok(buf) => r is Ok && final(self)@ == (ScriptState { buffer: buf, ..old(self)@ }),
                Err(f) => r == Err::<(), Fault>(f) && final(self)@ == old(self)@,
            },
    {
        let i = slot as usize;
        if self.buffer[i] as u64 + bits.0 as u64 > u32::MAX as u64 {
            return Err(Fault::ValueOverflow);
        }
        if i + 1 > 255 {
            return Err(Fault::BufferIndex);
        }
        if self.buffer[i + 1] as u64 + bits.1 as u64 > u32::MAX as u64 {
            return Err(Fault::ValueOverflow);
        }
        if i + 2 > 255 {
            return Err(Fault::BufferIndex);
        }
        if self.buffer[i + 2] as u64 + bits.2 as u64 > u32::MAX as u64 {
            return Err(Fault::ValueOverflow);
        }
        self.buffer[i] += bits.0;
        self.buffer[i + 1] += bits.1;
        self.buffer[i + 2] += bits.2;
        assert(self@.buffer =~= write_outcome(old(self)@.buffer, slot as int, bits)->Ok_0);
        Ok(())
    }
}


/// The steps a script can reach stay within its commands: the step and
/// every mark's step are at most the number of commands.
pub open spec fn steps_in_range(s: ScriptState) -> bool {
    &&& s.step <= s.cmds.len()
    &&& forall|m: int| 0 <= m < s.marks.len() ==> #[trigger] s.marks[m] <= s.cmds.len()
}

/// Every command has the argument bytes it reads.
pub open spec fn args_suffice(cmds: Seq<(u8, Seq<u8>)>) -> bool {
    forall|k: int| 0 <= k < cmds.len() ==> (#[trigger] cmds[k]).1.len() >= required_args(cmds[k].0)
}

/// A script that only a bad buffer range can stop: fewer than 256
/// commands, steps in range, every command with its arguments, 256 cells
/// and 256 marks.
pub open spec fn sound_script(s: ScriptState) -> bool {
    &&& s.cmds.len() < 256
    &&& s.marks.len() == 256
    &&& s.buffer.len() == 256
    &&& steps_in_range(s)
    &&& args_suffice(s.cmds)
}

/// A finished script stays finished and unchanged, and asks nothing of the object.
pub proof fn lemma_finished_script_stays(s: ScriptState)
    requires
        s.step == s.cmds.len(),
    ensures
        next(s) == Ok::<(ScriptState, EffectView), Fault>((s, EffectView::Nothing)),
{
}

/// A step never changes the jump table or the commands, and keeps 256 cells.
pub proof fn lemma_step_keeps_script(s: ScriptState)
    requires
        s.buffer.len() == 256,
    ensures
        next(s) matches Ok((t, e)) ==> t.marks == s.marks && t.cmds == s.cmds && t.buffer.len()
            == 256,
{
}

/// Only the store commands (A, B, a, b) change the buffer.
pub proof fn lemma_only_stores_change_buffer(s: ScriptState)
    requires
        s.step < s.cmds.len(),
        !(s.cmds[s.step as int].0 == 65 || s.cmds[s.step as int].0 == 66 || s.cmds[s.step as int].0
            == 97 || s.cmds[s.step as int].0 == 98),
    ensures
        next(s) matches Ok((t, e)) ==> t.buffer == s.buffer,
{
}

/// A sound script steps to a sound script, and the only faults it can meet
/// are a buffer range or group of cells that runs past the last cell.
pub proof fn lemma_sound_script_step(s: ScriptState)
    requires
        sound_script(s),
    ensures
        next(s) matches Ok((t, e)) ==> sound_script(t),
        next(s) matches Err(f) ==> f == Fault::RangeOverflow || f == Fault::BufferIndex,
{
    if s.step < s.cmds.len() {
        let c = s.cmds[s.step as int];
        assert(c.1.len() >= required_args(c.0));
        match outcome(s.buffer, c.0, c.1) {
            Ok((buf, mark, eff)) => {
                match mark {
                    Some(m) => {
                        if m != 0 {
                            assert(s.marks[m as int] <= s.cmds.len());
                        }
                    },
                    None => {},
                }
            },
            Err(f) => {},
        }
    }
}

proof fn lemma_arg_len_covers(code: u8)
    requires
        arg_sizes(code) is Some,
    ensures
        arg_len(code) >= required_args(code),
{
    reveal_with_fuel(size_sum, 7);
}

/// Every record read from an animation file carries at least the argument
/// bytes its command reads.
pub proof fn lemma_read_args_suffice(s: Seq<u8>)
    ensures
        script_records(s) matches Ok(recs) ==> forall|k: int|
            0 <= k < recs.len() ==> (#[trigger] recs[k]).2.len() >= required_args(recs[k].1),
    decreases s.len(),
{
    if s.len() >= 2 && arg_sizes(s[1]) is Some && s.len() >= 2 + arg_len(s[1]) {
        let n = arg_len(s[1]) as int;
        lemma_read_args_suffice(s.skip(2 + n));
        lemma_arg_len_covers(s[1]);
        if let Ok(recs) = script_records(s) {
            let rest = script_records(s.skip(2 + n))->Ok_0;
            assert(recs == seq![(s[0], s[1], s.subrange(2, 2 + n))] + rest);
            assert forall|k: int| 0 <= k < recs.len() implies (#[trigger] recs[k]).2.len()
                >= required_args(recs[k].1) by {
                if k > 0 {
                    assert(recs[k] == rest[k - 1]);
                }
            }
        }
    }
}

/// Every mark of a file with at most 256 records leads to one of its records.
pub proof fn lemma_marks_in_range(recs: Seq<(u8, u8, Seq<u8>)>)
    requires
        recs.len() <= 256,
    ensures
        marks_of(recs).len() == 256,
        forall|m: int| 0 <= m < 256 ==> #[trigger] marks_of(recs)[m] <= recs.len(),
    decreases recs.len(),
{
    if recs.len() > 0 {
        lemma_marks_in_range(recs.drop_last());
    }
}


/// The script state that a file's records give when it starts.
pub open spec fn start_state(recs: Seq<(u8, u8, Seq<u8>)>) -> ScriptState {
    ScriptState {
        marks: marks_of(recs),
        cmds: recs.map_values(|r: (u8, u8, Seq<u8>)| (r.1, r.2)),
        buffer: Seq::new(256, |i: int| 0u32),
        step: 0,
    }
}

/// A script read from an animation file with fewer than 256 commands starts
/// sound, so it can only ever stop on a buffer range that runs past the
/// last cell.
pub proof fn lemma_read_script_sound(bytes: Seq<u8>)
    ensures
        script_records(bytes) matches Ok(recs) ==> recs.len() < 256 ==> sound_script(
            start_state(recs),
        ),
{
    if let Ok(recs) = script_records(bytes) {
        if recs.len() < 256 {
            lemma_read_args_suffice(bytes);
            lemma_marks_in_range(recs);
            let s = start_state(recs);
            assert forall|k: int| 0 <= k < s.cmds.len() implies (#[trigger] s.cmds[k]).1.len()
                >= required_args(s.cmds[k].0) by {
                assert(s.cmds[k] == (recs[k].1, recs[k].2));
            }
        }
    }
}

} // verus!
