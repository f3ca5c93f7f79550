//! What a key command does to a position: the rule that the server and the
//! predicting client both apply.

use vstd::prelude::*;
use crate::protocol::{KeyCommand, Position};

verus! {

/// How far one command moves a position along an axis.
pub const SQUARE_SPEED: i16 = 8;

/// `value + delta`, wrapped into the 16-bit range.
pub open spec fn spec_wrapping_offset(value: i16, delta: int) -> i16 {
    let sum = value as int + delta;
    if sum > 32767 {
        (sum - 65536) as i16
    } else if sum < -32768 {
        (sum + 65536) as i16
    } else {
        sum as i16
    }
}

/// The coordinate after a command: moved by the speed towards `forward` if
/// that key is held, else towards `backward` if that one is, else unmoved.
pub open spec fn spec_moved(value: i16, backward: bool, forward: bool) -> i16 {
    if forward {
        spec_wrapping_offset(value, SQUARE_SPEED as int)
    } else if backward {
        spec_wrapping_offset(value, -(SQUARE_SPEED as int))
    } else {
        value
    }
}

/// Moves `position` as `key_command` asks: `w` up and `s` down along `y`,
/// `a` left and `d` right along `x`, each by the speed and wrapping at the
/// ends of the range. Of two opposite keys held together the second wins.
pub fn process_command(key_command: &KeyCommand, position: &mut Position)
    ensures
        final(position).x@ == spec_moved(old(position).x@, key_command.a@, key_command.d@),
        final(position).y@ == spec_moved(old(position).y@, key_command.w@, key_command.s@),
{
    let old_x = *(position.x.get());
    let old_y = *(position.y.get());
    if *key_command.w.get() {
        position.y.set(old_y.wrapping_sub(SQUARE_SPEED))
    }
    if *key_command.s.get() {
        position.y.set(old_y.wrapping_add(SQUARE_SPEED))
    }
    if *key_command.a.get() {
        position.x.set(old_x.wrapping_sub(SQUARE_SPEED))
    }
    if *key_command.d.get() {
        position.x.set(old_x.wrapping_add(SQUARE_SPEED))
    }
}

} // verus!
