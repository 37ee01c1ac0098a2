use anim3d::animation::{Animation, Command, Effect, Fault};
use anim3d::filer::{read_animation, ScriptError};
use anim3d::vars::Commands;

#[test]
fn command_table() {
    let c = Commands::init();
    let m = c.get_commands();
    assert_eq!(m.len(), 20);
    assert_eq!(m.get(&77), Some(&vec![1, 1, 4, 4, 4]));
    assert_eq!(m.get(&82), Some(&vec![1, 1, 4, 4, 4, 4]));
    assert_eq!(m.get(&113), Some(&vec![1, 1]));
    assert_eq!(m.get(&0), None);
    assert_eq!(m.get(&120), None);
}

#[test]
fn command_keeps_code_and_args() {
    let args = vec![3, 0, 0, 0, 9];
    let c = Command::make(65, &args);
    let (code, a) = c.get_debug();
    assert_eq!(code, 65);
    assert_eq!(a, &args);
}

#[test]
fn reads_animation_records() {
    // mark 1: B cell 0 := 7; mark 2: J 1; mark 0: j cell 3
    let bytes = [1, 66, 0, 0, 0, 0, 7, 2, 74, 1, 0, 106, 3];
    let (marks, cmds) = read_animation(&bytes).unwrap();
    assert_eq!(cmds.len(), 3);
    assert_eq!(cmds[0].get_debug(), (66, &vec![0, 0, 0, 0, 7]));
    assert_eq!(cmds[1].get_debug(), (74, &vec![1]));
    assert_eq!(cmds[2].get_debug(), (106, &vec![3]));
    assert_eq!(marks[1], 0);
    assert_eq!(marks[2], 1);
    assert_eq!(marks[0], 2);
    assert_eq!(marks[5], 0);
}

#[test]
fn later_mark_wins() {
    let bytes = [4, 74, 0, 4, 74, 0];
    let (marks, _) = read_animation(&bytes).unwrap();
    assert_eq!(marks[4], 1);
}

#[test]
fn empty_animation() {
    let (marks, cmds) = read_animation(&[]).unwrap();
    assert!(cmds.is_empty());
    assert!(marks.iter().all(|m| *m == 0));
}

#[test]
fn animation_errors() {
    assert_eq!(read_animation(&[1]).err(), Some(ScriptError::Truncated));
    assert_eq!(read_animation(&[1, 66, 0, 0]).err(), Some(ScriptError::Truncated));
    assert_eq!(read_animation(&[1, 74, 0, 2, 200, 0]).err(), Some(ScriptError::UnknownCommand(200)));
    assert_eq!(read_animation(&[1, 74]).err(), Some(ScriptError::Truncated));
}

fn script(cmds: Vec<(u8, Vec<u8>)>) -> Animation {
    let mut marks = [0u8; 256];
    marks[1] = 0;
    let cs = cmds.iter().map(|(c, a)| Command::make(*c, a)).collect();
    Animation::make(marks, cs)
}

#[test]
fn store_add_and_compare() {
    let mut a = script(vec![
        (66, vec![5, 0, 0, 0, 10]),
        (65, vec![5, 0, 0, 0, 3]),
        (65, vec![5, 0xff, 0xff, 0xff, 0xff]),
    ]);
    assert_eq!(a.iterate(), Ok(Effect::Nothing));
    assert_eq!(a.check(5, 10, 1, 2), 1);
    assert_eq!(a.iterate(), Ok(Effect::Nothing));
    assert_eq!(a.check(5, 13, 1, 2), 1);
    // adding u32::MAX wraps: 13 - 1
    assert_eq!(a.iterate(), Ok(Effect::Nothing));
    assert_eq!(a.check(5, 12, 1, 2), 1);
    assert!(a.is_end());
    assert_eq!(a.iterate(), Ok(Effect::Nothing));
    assert!(a.is_end());
}

#[test]
fn jumps_follow_marks() {
    // record 0 (mark 3): B cell 0 := 1; record 1: C cell 0 == 1 ? mark 3 : mark 0
    let bytes = [3, 66, 0, 0, 0, 0, 1, 9, 67, 0, 0, 0, 0, 1, 3, 0];
    let (marks, cmds) = read_animation(&bytes).unwrap();
    let mut a = Animation::make(marks, cmds);
    a.iterate().unwrap();
    a.iterate().unwrap();
    // jumped back to record 0
    assert!(!a.is_end());
    a.buffer(0, 2);
    a.iterate().unwrap();
    a.buffer(0, 2);
    a.iterate().unwrap();
    // mark 0 ends the script
    assert!(a.is_end());
}

#[test]
fn move_effect_reads_targets() {
    let mut a = script(vec![
        (66, vec![10, 0, 0, 0, 0]),
        (66, vec![11, 0, 0, 0, 2]),
        (77, vec![10, 2, 0x3f, 0x80, 0, 0, 0, 0, 0, 0, 0x40, 0, 0, 0]),
    ]);
    a.iterate().unwrap();
    a.iterate().unwrap();
    assert_eq!(
        a.iterate(),
        Ok(Effect::Move { targets: vec![0, 2], shift: (1.0f32.to_bits(), 0, 2.0f32.to_bits()) })
    );
}

#[test]
fn indirect_rotate_and_set() {
    let mut a = script(vec![
        (66, vec![0, 0, 0, 0, 20]),   // cell 0 = 20 (start)
        (66, vec![1, 0, 0, 0, 1]),    // cell 1 = 1 (length)
        (66, vec![20, 0, 0, 0, 3]),   // cell 20 = 3 (target)
        (114, vec![0, 1, 0, 1, 20, 1]),
        (115, vec![0, 1, 20, 0, 1]),
    ]);
    for _ in 0..3 {
        a.iterate().unwrap();
    }
    assert_eq!(a.iterate(), Ok(Effect::Rotate { targets: vec![3], angle: 20, axis: (1, 3, 1) }));
    assert_eq!(a.iterate(), Ok(Effect::Place { targets: vec![3], to: (3, 20, 1) }));
}

#[test]
fn twist_reads_two_points() {
    let mut a = script(vec![
        (66, vec![30, 0, 0, 0, 1]),
        (66, vec![33, 0, 0, 0, 4]),
        (84, vec![0, 1, 0, 0, 0, 90, 30, 33]),
    ]);
    a.iterate().unwrap();
    a.iterate().unwrap();
    assert_eq!(
        a.iterate(),
        Ok(Effect::Twist { targets: vec![0], angle: 90, first: (1, 0, 0), second: (4, 0, 0) })
    );
}

#[test]
fn write_adds_coordinates() {
    let mut a = script(vec![(87, vec![0, 7])]);
    assert_eq!(a.iterate(), Ok(Effect::Write { point: 0, slot: 7 }));
    assert_eq!(a.write(7, (1, 2, 3)), Ok(()));
    assert_eq!(a.write(7, (1, 2, 3)), Ok(()));
    assert_eq!(a.check(7, 2, 1, 0), 1);
    assert_eq!(a.check(8, 4, 1, 0), 1);
    assert_eq!(a.check(9, 6, 1, 0), 1);
}

#[test]
fn write_faults() {
    let mut a = script(vec![]);
    assert_eq!(a.write(254, (1, 1, 1)), Err(Fault::BufferIndex));
    assert_eq!(a.write(255, (1, 1, 1)), Err(Fault::BufferIndex));
    a.buffer(3, u32::MAX);
    assert_eq!(a.write(2, (0, 1, 0)), Err(Fault::ValueOverflow));
    assert_eq!(a.check(2, 0, 1, 0), 1);
}

#[test]
fn range_faults() {
    let mut a = script(vec![(77, vec![200, 56, 0, 0, 0, 0, 0, 0, 0, 0, 0, 0, 0, 0])]);
    assert_eq!(a.iterate(), Err(Fault::RangeOverflow));
    assert!(!a.is_end());
    let mut b = script(vec![(81, vec![254, 0, 0, 0, 0])]);
    assert_eq!(b.iterate(), Err(Fault::BufferIndex));
    let mut c = script(vec![(84, vec![0, 0, 0, 0, 0, 0, 254, 0])]);
    assert_eq!(c.iterate(), Err(Fault::BufferIndex));
    let mut d = script(vec![(77, vec![200, 55, 0, 0, 0, 0, 0, 0, 0, 0, 0, 0, 0, 0])]);
    assert!(d.iterate().is_ok());
}

#[test]
fn argument_and_step_faults() {
    let mut a = script(vec![(77, vec![0, 1])]);
    assert_eq!(a.iterate(), Err(Fault::MissingArgument));
    let mut marks = [0u8; 256];
    marks[9] = 5;
    let mut b = Animation::make(marks, vec![Command::make(74, &vec![9])]);
    assert_eq!(b.iterate(), Ok(Effect::Nothing));
    assert_eq!(b.iterate(), Err(Fault::StepOutOfRange));
    let (m, _) = b.get_debug();
    assert_eq!(m[9], 5);
}

#[test]
fn unknown_codes_do_nothing() {
    let mut a = script(vec![(113, vec![1, 1]), (0, vec![])]);
    assert_eq!(a.iterate(), Ok(Effect::Nothing));
    assert_eq!(a.iterate(), Ok(Effect::Nothing));
    assert!(a.is_end());
}

#[test]
fn step_overflow_on_long_script() {
    let cmds: Vec<(u8, Vec<u8>)> = (0..300).map(|_| (113u8, vec![0, 0])).collect();
    let mut a = script(cmds);
    for _ in 0..255 {
        a.iterate().unwrap();
    }
    assert_eq!(a.iterate(), Err(Fault::StepOverflow));
}

#[test]
fn parsed_script_runs_to_its_end() {
    // 0: B cell 9 := 3; 1 (mark 4): A cell 9 += 0xffffffff; 2: C cell 9 == 0 ? mark 0 : mark 4
    let bytes = [
        0, 66, 9, 0, 0, 0, 3,
        4, 65, 9, 0xff, 0xff, 0xff, 0xff,
        5, 67, 9, 0, 0, 0, 0, 0, 4,
    ];
    let (marks, cmds) = read_animation(&bytes).unwrap();
    let mut a = Animation::make(marks, cmds);
    let mut steps = 0;
    while !a.is_end() {
        assert_eq!(a.iterate(), Ok(Effect::Nothing));
        steps += 1;
        assert!(steps < 100);
    }
    // one store, then three rounds of add and compare
    assert_eq!(steps, 7);
    assert_eq!(a.check(9, 0, 1, 0), 1);
}

#[test]
fn only_stores_change_cells() {
    let mut a = script(vec![
        (66, vec![1, 0, 0, 0, 5]),
        (74, vec![2]),
    ]);
    a.iterate().unwrap();
    for i in 0..=255u8 {
        assert_eq!(a.check(i, if i == 1 { 5 } else { 0 }, 1, 0), 1);
    }
}
