//! The global hotkey's numbers.

use crate::order::views;
use crate::text;
use vstd::prelude::*;

verus! {

/// The virtual keycode of the space bar.
pub const KEY_CODE: u32 = 49;

/// The Carbon mask of the Option key. The default chord is Option+Space.
pub const MODIFIERS: u32 = 0x0800;

/// The Carbon masks of the modifier keys.
pub const CMD_KEY: u32 = 0x0100;
pub const SHIFT_KEY: u32 = 0x0200;
pub const OPTION_KEY: u32 = 0x0800;
pub const CONTROL_KEY: u32 = 0x1000;

/// The bit of a modifier where its name is among `names`, and nothing where it
/// is not.
pub open spec fn bit_if(names: Seq<Seq<char>>, name: Seq<char>, bit: u32) -> int {
    if names.contains(name) {
        bit as int
    } else {
        0
    }
}

/// The Carbon mask of the named modifiers. A name that is none adds nothing,
/// and one that is named twice counts once.
pub open spec fn modifier_mask(names: Seq<Seq<char>>) -> int {
    bit_if(names, "cmd"@, CMD_KEY) + bit_if(names, "shift"@, SHIFT_KEY) + bit_if(
        names,
        "opt"@,
        OPTION_KEY,
    ) + bit_if(names, "ctrl"@, CONTROL_KEY)
}

/// The bit of a modifier where it is named.
fn bit_of(names: &Vec<String>, name: &str, bit: u32) -> (r: u32)
    ensures
        r == bit_if(views(names@), name@, bit),
{
    let mut i: usize = 0;
    while i < names.len()
        invariant
            i <= names@.len(),
            forall|k: int| 0 <= k < i ==> (#[trigger] views(names@)[k]) != name@,
        decreases names@.len() - i,
    {
        assert(views(names@)[i as int] == names@[i as int]@);
        if text::same(&names[i], name) {
            return bit;
        }
        i = i + 1;
    }
    0
}

/// The Carbon mask of the named modifiers.
pub fn carbon_modifiers(names: &Vec<String>) -> (r: u32)
    ensures
        r == modifier_mask(views(names@)),
{
    bit_of(names, "cmd", CMD_KEY) + bit_of(names, "shift", SHIFT_KEY) + bit_of(
        names,
        "opt",
        OPTION_KEY,
    ) + bit_of(names, "ctrl", CONTROL_KEY)
}

/// The event kind of a pressed hotkey.
pub const EVENT_HOT_KEY_PRESSED: u32 = 5;

/// A four-character code: the bytes in order, the first one highest.
pub fn four_char(b: &[u8; 4]) -> (r: u32)
    ensures
        r == b[0] * 0x100_0000 + b[1] * 0x1_0000 + b[2] * 0x100 + b[3],
{
    let (w, x, y, z): (u32, u32, u32, u32) = (b[0] as u32, b[1] as u32, b[2] as u32, b[3] as u32);
    assert((w << 24) | (x << 16) | (y << 8) | z == w * 0x100_0000 + x * 0x1_0000 + y * 0x100 + z)
        by (bit_vector)
        requires
            w < 256,
            x < 256,
            y < 256,
            z < 256,
    ;
    (w << 24) | (x << 16) | (y << 8) | z
}

/// The event class of keyboard events, `keyb`.
pub fn event_class_keyboard() -> (r: u32)
    ensures
        r == 0x6b65_7962,
{
    four_char(&[0x6b, 0x65, 0x79, 0x62])
}

/// The signature under which the hotkey is registered, `bckn`.
pub fn signature() -> (r: u32)
    ensures
        r == 0x6263_6b6e,
{
    four_char(&[0x62, 0x63, 0x6b, 0x6e])
}

/// Each modifier sets its own bit of the mask, once however often it is named,
/// and no other name sets any.
pub proof fn law_modifiers_set_their_own_bit(names: Seq<Seq<char>>, name: Seq<char>)
    ensures
        modifier_mask(Seq::empty()) == 0,
        ({
            let bit: int = if name == "cmd"@ {
                256
            } else if name == "shift"@ {
                512
            } else if name == "opt"@ {
                2048
            } else if name == "ctrl"@ {
                4096
            } else {
                0
            };
            modifier_mask(names.push(name)) == (if names.contains(name) {
                modifier_mask(names)
            } else {
                modifier_mask(names) + bit
            })
        }),
{
    reveal_strlit("cmd");
    reveal_strlit("shift");
    reveal_strlit("opt");
    reveal_strlit("ctrl");
    assert("cmd"@.len() == 3 && "opt"@.len() == 3 && "shift"@.len() == 5 && "ctrl"@.len() == 4);
    assert("cmd"@[0] == 'c' && "opt"@[0] == 'o');
    let more = names.push(name);
    assert forall|x: Seq<char>| #[trigger] more.contains(x) <==> names.contains(x) || x == name by {
        if names.contains(x) {
            let k = choose|k: int| 0 <= k < names.len() && names[k] == x;
            assert(more[k] == x);
        }
        assert(more[names.len() as int] == name);
        if more.contains(x) && x != name {
            let k = choose|k: int| 0 <= k < more.len() && more[k] == x;
            assert(names[k] == x);
        }
    }
    assert(more.contains("cmd"@) <==> names.contains("cmd"@) || name == "cmd"@);
    assert(more.contains("shift"@) <==> names.contains("shift"@) || name == "shift"@);
    assert(more.contains("opt"@) <==> names.contains("opt"@) || name == "opt"@);
    assert(more.contains("ctrl"@) <==> names.contains("ctrl"@) || name == "ctrl"@);
}

} // verus!
