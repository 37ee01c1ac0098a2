//! The table of animation commands and the sizes of their arguments.

use vstd::prelude::*;
use std::collections::HashMap;

verus! {

/// The argument sizes, in bytes, of each command code that animation files
/// may hold; `None` for a code that is not a command.
pub open spec fn arg_sizes(code: u8) -> Option<Seq<u8>> {
    match code {
        65 => Some(seq![1u8, 4]),
        66 => Some(seq![1u8, 4]),
        67 => Some(seq![1u8, 4, 1, 1]),
        74 => Some(seq![1u8]),
        77 => Some(seq![1u8, 1, 4, 4, 4]),
        81 => Some(seq![1u8, 4]),
        82 => Some(seq![1u8, 1, 4, 4, 4, 4]),
        83 => Some(seq![1u8, 1, 4, 4, 4]),
        84 => Some(seq![1u8, 1, 4, 1, 1]),
        87 => Some(seq![1u8, 1]),
        97 => Some(seq![1u8, 1]),
        98 => Some(seq![1u8, 1]),
        99 => Some(seq![1u8, 1, 1, 1]),
        106 => Some(seq![1u8]),
        109 => Some(seq![1u8, 1, 1, 1, 1]),
        113 => Some(seq![1u8, 1]),
        114 => Some(seq![1u8, 1, 1, 1, 1, 1]),
        115 => Some(seq![1u8, 1, 1, 1, 1, 1]),
        116 => Some(seq![1u8, 1, 1, 1, 1]),
        119 => Some(seq![1u8, 1]),
        _ => None,
    }
}

/// The command table as a map from command code to argument sizes.
pub open spec fn command_table() -> Map<u8, Seq<u8>> {
    Map::new(|code: u8| arg_sizes(code) is Some, |code: u8| arg_sizes(code).unwrap())
}

/// The command codes known to the animation format, with the sizes of
/// their arguments.
pub struct Commands {
    commands: HashMap<u8, Vec<u8>>,
}

impl View for Commands {
    type V = Map<u8, Seq<u8>>;

    closed spec fn view(&self) -> Map<u8, Seq<u8>> {
        self.commands@.map_values(|v: Vec<u8>| v@)
    }
}

impl Commands {
    /// Builds the table of command codes and argument sizes.
    pub fn init() -> (r: Self)
        ensures
            r@ == command_table(),
    {
        broadcast use vstd::std_specs::hash::group_hash_axioms;

        let mut commands: HashMap<u8, Vec<u8>> = HashMap::new();
        commands.insert(65, vec![1, 4]);
        commands.insert(66, vec![1, 4]);
        commands.insert(67, vec![1, 4, 1, 1]);
        commands.insert(74, vec![1]);
        commands.insert(77, vec![1, 1, 4, 4, 4]);
        commands.insert(81, vec![1, 4]);
        commands.insert(82, vec![1, 1, 4, 4, 4, 4]);
        commands.insert(83, vec![1, 1, 4, 4, 4]);
        commands.insert(84, vec![1, 1, 4, 1, 1]);
        commands.insert(87, vec![1, 1]);
        commands.insert(97, vec![1, 1]);
        commands.insert(98, vec![1, 1]);
        commands.insert(99, vec![1, 1, 1, 1]);
        commands.insert(106, vec![1]);
        commands.insert(109, vec![1, 1, 1, 1, 1]);
        commands.insert(113, vec![1, 1]);
        commands.insert(114, vec![1, 1, 1, 1, 1, 1]);
        commands.insert(115, vec![1, 1, 1, 1, 1, 1]);
        commands.insert(116, vec![1, 1, 1, 1, 1]);
        commands.insert(119, vec![1, 1]);
        let r = Commands { commands };
        assert(r@.dom() =~= command_table().dom());
        assert forall|k: u8| #[trigger] r@.contains_key(k) implies r@[k] =~= command_table()[k] by {
            assert(r@[k] == commands@[k]@);
        }
        assert(r@ =~= command_table());
        r
    }

    /// The map from command code to argument sizes.
    pub fn get_commands(&self) -> (r: &HashMap<u8, Vec<u8>>)
        ensures
            r@.dom() == self@.dom(),
            forall|code: u8| #[trigger] r@.contains_key(code) ==> r@[code]@ == self@[code],
    {
        &self.commands
    }
}


/// The animation format knows exactly twenty command codes, with these
/// argument sizes in bytes: A, B and P one cell and a word; C a cell, a
/// word and two marks; J and j one byte; M and S two bytes and three words;
/// R two bytes and four words; T two bytes, a word and two bytes; the rest
/// one byte per operand.
pub proof fn lemma_command_sizes()
    ensures
        command_table().dom() == set![65u8, 66, 67, 74, 77, 81, 82, 83, 84, 87, 97, 98, 99, 106, 109, 113, 114, 115, 116, 119],
        command_table()[65] == seq![1u8, 4],
        command_table()[66] == seq![1u8, 4],
        command_table()[67] == seq![1u8, 4, 1, 1],
        command_table()[74] == seq![1u8],
        command_table()[77] == seq![1u8, 1, 4, 4, 4],
        command_table()[81] == seq![1u8, 4],
        command_table()[82] == seq![1u8, 1, 4, 4, 4, 4],
        command_table()[83] == seq![1u8, 1, 4, 4, 4],
        command_table()[84] == seq![1u8, 1, 4, 1, 1],
        command_table()[87] == seq![1u8, 1],
        command_table()[97] == seq![1u8, 1],
        command_table()[98] == seq![1u8, 1],
        command_table()[99] == seq![1u8, 1, 1, 1],
        command_table()[106] == seq![1u8],
        command_table()[109] == seq![1u8, 1, 1, 1, 1],
        command_table()[113] == seq![1u8, 1],
        command_table()[114] == seq![1u8, 1, 1, 1, 1, 1],
        command_table()[115] == seq![1u8, 1, 1, 1, 1, 1],
        command_table()[116] == seq![1u8, 1, 1, 1, 1],
        command_table()[119] == seq![1u8, 1],
{
    assert(command_table().dom() =~= set![65u8, 66, 67, 74, 77, 81, 82, 83, 84, 87, 97, 98, 99, 106, 109, 113, 114, 115, 116, 119]);
}

} // verus!
