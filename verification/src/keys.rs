//! The fixed key bindings of a playback session: quit, pause, seeking at
//! three step sizes, volume, track cycling in both directions, and
//! fullscreen. Each entry is the single argument that the player's
//! `keybind` command takes.
use vstd::prelude::*;

verus! {

/// The binding table, in the order it is applied: one `keybind` argument
/// per entry.
pub open spec fn spec_keybindings() -> Seq<Seq<char>> {
    seq![
        "\"ESC\" \"quit\""@,
        "\"SPACE\" \"cycle pause\""@,
        "\"LEFT\" \"seek -5\""@,
        "\"RIGHT\" \"seek 5\""@,
        "\"UP\" \"add volume 5\""@,
        "\"DOWN\" \"add volume -5\""@,
        "\"a\" \"cycle audio\""@,
        "\"s\" \"cycle sub\""@,
        "\"SHIFT+s\" \"cycle sub down\""@,
        "\"SHIFT+a\" \"cycle audio down\""@,
        "\"SHIFT+LEFT\" \"seek -1\""@,
        "\"SHIFT+RIGHT\" \"seek 1\""@,
        "\"CTRL+LEFT\" \"seek -10\""@,
        "\"CTRL+RIGHT\" \"seek 10\""@,
        "\"CTRL+a\" \"cycle aid\""@,
        "\"CTRL+s\" \"cycle sid\""@,
        "\"f\" \"cycle fullscreen\""@,
    ]
}

/// The binding table as owned strings, ready to hand to the player's
/// command interface one by one.
pub fn keybindings() -> (r: Vec<String>)
    ensures
        r@.len() == spec_keybindings().len(),
        forall|i: int| 0 <= i < r@.len() ==> #[trigger] r@[i]@ == spec_keybindings()[i],
{
    let mut v: Vec<String> = Vec::new();
    v.push(String::from_str("\"ESC\" \"quit\""));
    v.push(String::from_str("\"SPACE\" \"cycle pause\""));
    v.push(String::from_str("\"LEFT\" \"seek -5\""));
    v.push(String::from_str("\"RIGHT\" \"seek 5\""));
    v.push(String::from_str("\"UP\" \"add volume 5\""));
    v.push(String::from_str("\"DOWN\" \"add volume -5\""));
    v.push(String::from_str("\"a\" \"cycle audio\""));
    v.push(String::from_str("\"s\" \"cycle sub\""));
    v.push(String::from_str("\"SHIFT+s\" \"cycle sub down\""));
    v.push(String::from_str("\"SHIFT+a\" \"cycle audio down\""));
    v.push(String::from_str("\"SHIFT+LEFT\" \"seek -1\""));
    v.push(String::from_str("\"SHIFT+RIGHT\" \"seek 1\""));
    v.push(String::from_str("\"CTRL+LEFT\" \"seek -10\""));
    v.push(String::from_str("\"CTRL+RIGHT\" \"seek 10\""));
    v.push(String::from_str("\"CTRL+a\" \"cycle aid\""));
    v.push(String::from_str("\"CTRL+s\" \"cycle sid\""));
    v.push(String::from_str("\"f\" \"cycle fullscreen\""));
    proof {
        assert forall|i: int| 0 <= i < v@.len() implies #[trigger] v@[i]@
            == spec_keybindings()[i] by {
            assert(v@[0]@ == spec_keybindings()[0]);
            assert(v@[1]@ == spec_keybindings()[1]);
            assert(v@[2]@ == spec_keybindings()[2]);
            assert(v@[3]@ == spec_keybindings()[3]);
            assert(v@[4]@ == spec_keybindings()[4]);
            assert(v@[5]@ == spec_keybindings()[5]);
            assert(v@[6]@ == spec_keybindings()[6]);
            assert(v@[7]@ == spec_keybindings()[7]);
            assert(v@[8]@ == spec_keybindings()[8]);
            assert(v@[9]@ == spec_keybindings()[9]);
            assert(v@[10]@ == spec_keybindings()[10]);
            assert(v@[11]@ == spec_keybindings()[11]);
            assert(v@[12]@ == spec_keybindings()[12]);
            assert(v@[13]@ == spec_keybindings()[13]);
            assert(v@[14]@ == spec_keybindings()[14]);
            assert(v@[15]@ == spec_keybindings()[15]);
            assert(v@[16]@ == spec_keybindings()[16]);
        }
    }
    v
}

} // verus!
