//! The keyboard: key codes of input events turned into ASCII bytes, with
//! the state of the shift keys.
use vstd::prelude::*;
use crate::virtio::{VirtQueueBlock, VirtqDesc, offered, VIRTQ_DESC_F_WRITE};

verus! {

/// One input event as the device reports it.
#[derive(Clone, Copy, PartialEq, Eq, Structural, Debug)]
pub struct VirtioInputEvent {
    pub type_: u16,
    pub code: u16,
    pub value: u32,
}

/// Event type of key presses and releases.
pub const EV_KEY: u16 = 1;

/// Key codes of the left and right shift keys.
pub const KEY_LEFTSHIFT: u16 = 42;
pub const KEY_RIGHTSHIFT: u16 = 54;

/// The byte of a key on a US layout without shift.
pub open spec fn unshifted_spec(code: u16) -> Option<u8> {
    if 2 <= code <= 10 {
        Some((code + 47) as u8)
    } else {
        match code {
            11 => Some(48u8),
            12 => Some(45u8),
            13 => Some(61u8),
            14 => Some(8u8),
            15 => Some(9u8),
            16 => Some(113u8),
            17 => Some(119u8),
            18 => Some(101u8),
            19 => Some(114u8),
            20 => Some(116u8),
            21 => Some(121u8),
            22 => Some(117u8),
            23 => Some(105u8),
            24 => Some(111u8),
            25 => Some(112u8),
            26 => Some(91u8),
            27 => Some(93u8),
            28 => Some(10u8),
            30 => Some(97u8),
            31 => Some(115u8),
            32 => Some(100u8),
            33 => Some(102u8),
            34 => Some(103u8),
            35 => Some(104u8),
            36 => Some(106u8),
            37 => Some(107u8),
            38 => Some(108u8),
            39 => Some(59u8),
            40 => Some(39u8),
            41 => Some(96u8),
            43 => Some(92u8),
            44 => Some(122u8),
            45 => Some(120u8),
            46 => Some(99u8),
            47 => Some(118u8),
            48 => Some(98u8),
            49 => Some(110u8),
            50 => Some(109u8),
            51 => Some(44u8),
            52 => Some(46u8),
            53 => Some(47u8),
            57 => Some(32u8),
            _ => None,
        }
    }
}

/// The byte a key gives with shift held, from its byte without shift:
/// letters go to upper case, and the digits and punctuation of a US layout
/// to their shifted signs; other bytes are kept.
pub open spec fn shifted_spec(c: u8) -> u8 {
    if 97 <= c <= 122 {
        (c - 32) as u8
    } else {
        match c {
            49u8 => 33u8,
            50u8 => 64u8,
            51u8 => 35u8,
            52u8 => 36u8,
            53u8 => 37u8,
            54u8 => 94u8,
            55u8 => 38u8,
            56u8 => 42u8,
            57u8 => 40u8,
            48u8 => 41u8,
            45u8 => 95u8,
            61u8 => 43u8,
            91u8 => 123u8,
            93u8 => 125u8,
            92u8 => 124u8,
            59u8 => 58u8,
            39u8 => 34u8,
            44u8 => 60u8,
            46u8 => 62u8,
            47u8 => 63u8,
            96u8 => 126u8,
            _ => c,
        }
    }
}

/// The byte of key `code`, with or without shift; `None` for keys that give
/// no byte.
pub open spec fn keycode_spec(code: u16, shift: bool) -> Option<u8> {
    match unshifted_spec(code) {
        None => None,
        Some(c) => Some(if shift { shifted_spec(c) } else { c }),
    }
}

fn unshifted(code: u16) -> (r: Option<u8>)
    ensures
        r == unshifted_spec(code),
{
    if 2 <= code && code <= 10 {
        return Some((code + 47) as u8);
    }
    match code {
        11 => Some(48u8),
        12 => Some(45u8),
        13 => Some(61u8),
        14 => Some(8u8),
        15 => Some(9u8),
        16 => Some(113u8),
        17 => Some(119u8),
        18 => Some(101u8),
        19 => Some(114u8),
        20 => Some(116u8),
        21 => Some(121u8),
        22 => Some(117u8),
        23 => Some(105u8),
        24 => Some(111u8),
        25 => Some(112u8),
        26 => Some(91u8),
        27 => Some(93u8),
        28 => Some(10u8),
        30 => Some(97u8),
        31 => Some(115u8),
        32 => Some(100u8),
        33 => Some(102u8),
        34 => Some(103u8),
        35 => Some(104u8),
        36 => Some(106u8),
        37 => Some(107u8),
        38 => Some(108u8),
        39 => Some(59u8),
        40 => Some(39u8),
        41 => Some(96u8),
        43 => Some(92u8),
        44 => Some(122u8),
        45 => Some(120u8),
        46 => Some(99u8),
        47 => Some(118u8),
        48 => Some(98u8),
        49 => Some(110u8),
        50 => Some(109u8),
        51 => Some(44u8),
        52 => Some(46u8),
        53 => Some(47u8),
        57 => Some(32u8),
        _ => None,
    }
}

fn shifted(c: u8) -> (r: u8)
    ensures
        r == shifted_spec(c),
{
    if 97 <= c && c <= 122 {
        return c - 32;
    }
    match c {
        49u8 => 33u8,
        50u8 => 64u8,
        51u8 => 35u8,
        52u8 => 36u8,
        53u8 => 37u8,
        54u8 => 94u8,
        55u8 => 38u8,
        56u8 => 42u8,
        57u8 => 40u8,
        48u8 => 41u8,
        45u8 => 95u8,
        61u8 => 43u8,
        91u8 => 123u8,
        93u8 => 125u8,
        92u8 => 124u8,
        59u8 => 58u8,
        39u8 => 34u8,
        44u8 => 60u8,
        46u8 => 62u8,
        47u8 => 63u8,
        96u8 => 126u8,
        _ => c,
    }
}

/// The byte of key `code`, with or without shift.
pub fn keycode_to_char(code: u16, shift: bool) -> (r: Option<u8>)
    ensures
        r == keycode_spec(code, shift),
{
    match unshifted(code) {
        None => None,
        Some(c) => {
            if shift {
                Some(shifted(c))
            } else {
                Some(c)
            }
        },
    }
}

/// The keyboard's state: whether a shift key is held.
pub struct Keyboard {
    pub shift_pressed: bool,
}

/// What an event does: a shift key's event records whether shift is held
/// (a value other than 0 means pressed); a press or repeat (value 1 or 2)
/// of another key gives its byte; everything else gives nothing.
pub open spec fn event_spec(shift: bool, ev: VirtioInputEvent) -> (bool, Option<u8>) {
    if ev.type_ == EV_KEY {
        if ev.code == KEY_LEFTSHIFT || ev.code == KEY_RIGHTSHIFT {
            (ev.value != 0, None)
        } else if ev.value == 1 || ev.value == 2 {
            (shift, keycode_spec(ev.code, shift))
        } else {
            (shift, None)
        }
    } else {
        (shift, None)
    }
}

impl Keyboard {
    /// No shift key held.
    pub fn new() -> (k: Self)
        ensures
            !k.shift_pressed,
    {
        Keyboard { shift_pressed: false }
    }

    /// Take one input event; returns the byte it types, if any.
    pub fn handle_event(&mut self, ev: VirtioInputEvent) -> (r: Option<u8>)
        ensures
            (final(self).shift_pressed, r) == event_spec(old(self).shift_pressed, ev),
    {
        if ev.type_ == EV_KEY {
            if ev.code == KEY_LEFTSHIFT || ev.code == KEY_RIGHTSHIFT {
                self.shift_pressed = ev.value != 0;
                return None;
            }
            if ev.value == 1 || ev.value == 2 {
                return keycode_to_char(ev.code, self.shift_pressed);
            }
        }
        None
    }
}

/// While shift is held, a key gives its shifted byte, and after shift is
/// released, its plain byte again.
pub proof fn law_shift(shift: bool, code: u16, side: u16, held: u32)
    requires
        side == KEY_LEFTSHIFT || side == KEY_RIGHTSHIFT,
        code != KEY_LEFTSHIFT && code != KEY_RIGHTSHIFT,
        held != 0,
    ensures
        ({
            let (s1, _) = event_spec(shift, VirtioInputEvent { type_: EV_KEY, code: side, value: held });
            let (_, c1) = event_spec(s1, VirtioInputEvent { type_: EV_KEY, code: code, value: 1 });
            let (s2, _) = event_spec(s1, VirtioInputEvent { type_: EV_KEY, code: side, value: 0 });
            let (_, c2) = event_spec(s2, VirtioInputEvent { type_: EV_KEY, code: code, value: 1 });
            &&& c1 == keycode_spec(code, true)
            &&& c2 == keycode_spec(code, false)
        }),
{
}

/// The keys give the characters printed on them on a US QWERTY keyboard:
/// codes 2 to 11 the digit row "1234567890" (with shift "!@#$%^&*()"),
/// codes 16 to 25 "qwertyuiop", 30 to 38 "asdfghjkl" and 44 to 50
/// "zxcvbnm", each letter in upper case with shift.
pub proof fn law_us_layout(code: u16)
    ensures
        2 <= code <= 11 ==> keycode_spec(code, false) == Some(seq!['1', '2', '3', '4', '5', '6', '7', '8', '9', '0'][code - 2] as u8)
            && keycode_spec(code, true) == Some(seq!['!', '@', '#', '$', '%', '^', '&', '*', '(', ')'][code - 2] as u8),
        16 <= code <= 25 ==> keycode_spec(code, false) == Some(seq!['q', 'w', 'e', 'r', 't', 'y', 'u', 'i', 'o', 'p'][code - 16] as u8)
            && keycode_spec(code, true) == Some(seq!['Q', 'W', 'E', 'R', 'T', 'Y', 'U', 'I', 'O', 'P'][code - 16] as u8),
        30 <= code <= 38 ==> keycode_spec(code, false) == Some(seq!['a', 's', 'd', 'f', 'g', 'h', 'j', 'k', 'l'][code - 30] as u8)
            && keycode_spec(code, true) == Some(seq!['A', 'S', 'D', 'F', 'G', 'H', 'J', 'K', 'L'][code - 30] as u8),
        44 <= code <= 50 ==> keycode_spec(code, false) == Some(seq!['z', 'x', 'c', 'v', 'b', 'n', 'm'][code - 44] as u8)
            && keycode_spec(code, true) == Some(seq!['Z', 'X', 'C', 'V', 'B', 'N', 'M'][code - 44] as u8),
{
}

/// The other keys of a US keyboard: the signs beside the letters, each with
/// its shifted sign, and backspace (8), tab (9), enter (line feed) and the
/// space bar, which shift leaves alone; the keys between and beyond them
/// (29, 42, 54 to 56, 58 and up, and 0 and 1) give no byte.
pub proof fn law_us_layout_signs(code: u16)
    ensures
        keycode_spec(12, false) == Some('-' as u8) && keycode_spec(12, true) == Some('_' as u8),
        keycode_spec(13, false) == Some('=' as u8) && keycode_spec(13, true) == Some('+' as u8),
        keycode_spec(26, false) == Some('[' as u8) && keycode_spec(26, true) == Some('{' as u8),
        keycode_spec(27, false) == Some(']' as u8) && keycode_spec(27, true) == Some('}' as u8),
        keycode_spec(39, false) == Some(';' as u8) && keycode_spec(39, true) == Some(':' as u8),
        keycode_spec(40, false) == Some('\'' as u8) && keycode_spec(40, true) == Some('"' as u8),
        keycode_spec(41, false) == Some('`' as u8) && keycode_spec(41, true) == Some('~' as u8),
        keycode_spec(43, false) == Some('\\' as u8) && keycode_spec(43, true) == Some('|' as u8),
        keycode_spec(51, false) == Some(',' as u8) && keycode_spec(51, true) == Some('<' as u8),
        keycode_spec(52, false) == Some('.' as u8) && keycode_spec(52, true) == Some('>' as u8),
        keycode_spec(53, false) == Some('/' as u8) && keycode_spec(53, true) == Some('?' as u8),
        keycode_spec(14, false) == Some(8u8) && keycode_spec(14, true) == Some(8u8),
        keycode_spec(15, false) == Some(9u8) && keycode_spec(15, true) == Some(9u8),
        keycode_spec(28, false) == Some(10u8) && keycode_spec(28, true) == Some(10u8),
        keycode_spec(57, false) == Some(32u8) && keycode_spec(57, true) == Some(32u8),
        (code < 2 || code == 29 || code == 42 || (54 <= code <= 56) || code >= 58) ==> keycode_spec(code, false)
            is None && keycode_spec(code, true) is None,
{
}

/// Bytes of one input event as the device writes it.
pub const EVENT_LEN: u32 = 8;

/// Set up the event queue: descriptor `i` is the device-written buffer at
/// `addrs[i]`, one event long, every descriptor is offered in order, and
/// the available index stands at 16; nothing else changes.
pub fn fill_event_queue(q: &mut VirtQueueBlock, addrs: &[u64])
    requires
        addrs@.len() == 16,
    ensures
        forall|i: int| 0 <= i < 16 ==> #[trigger] final(q).desc@[i] == (VirtqDesc {
            addr: addrs@[i],
            len: EVENT_LEN,
            flags: VIRTQ_DESC_F_WRITE,
            next: 0,
        }),
        forall|i: int| 0 <= i < 16 ==> #[trigger] final(q).avail_ring@[i] == i,
        final(q).avail_idx == 16,
        final(q).avail_flags == old(q).avail_flags,
        final(q).avail_used_event == old(q).avail_used_event,
        final(q).pad == old(q).pad,
        final(q).used_flags == old(q).used_flags,
        final(q).used_idx == old(q).used_idx,
        final(q).used_ring == old(q).used_ring,
        final(q).used_avail_event == old(q).used_avail_event,
{
    let mut i: usize = 0;
    while i < 16
        invariant
            i <= 16,
            addrs@.len() == 16,
            forall|k: int| 0 <= k < i ==> #[trigger] q.desc@[k] == (VirtqDesc {
                addr: addrs@[k],
                len: EVENT_LEN,
                flags: VIRTQ_DESC_F_WRITE,
                next: 0,
            }),
            forall|k: int| 0 <= k < i ==> #[trigger] q.avail_ring@[k] == k,
            q.avail_flags == old(q).avail_flags,
            q.avail_used_event == old(q).avail_used_event,
            q.pad == old(q).pad,
            q.used_flags == old(q).used_flags,
            q.used_idx == old(q).used_idx,
            q.used_ring == old(q).used_ring,
            q.used_avail_event == old(q).used_avail_event,
        decreases 16 - i,
    {
        q.set_desc(i, VirtqDesc { addr: addrs[i], len: EVENT_LEN, flags: VIRTQ_DESC_F_WRITE, next: 0 });
        q.avail_ring[i] = i as u16;
        i = i + 1;
    }
    q.avail_idx = 16;
}

/// Take the next input event, if the keyboard is there (`base` is not 0)
/// and the device has used a buffer not yet seen: the buffer is offered
/// again, `last_used` moves past it, and the event in it is handled;
/// returns the byte it types, if any.
pub fn poll(kbd: &mut Keyboard, q: &mut VirtQueueBlock, last_used: &mut u16, base: usize, events: &[VirtioInputEvent; 16]) -> (r: Option<u8>)
    requires
        base != 0 && old(q).used_idx != *old(last_used) ==> old(q).used_ring@[(*old(last_used) % 16) as int].id < 16,
    ensures
        (base == 0 || old(q).used_idx == *old(last_used)) ==> {
            &&& r is None
            &&& *final(kbd) == *old(kbd)
            &&& *final(q) == *old(q)
            &&& *final(last_used) == *old(last_used)
        },
        (base != 0 && old(q).used_idx != *old(last_used)) ==> {
            let id = old(q).used_ring@[(*old(last_used) % 16) as int].id;
            let (shift, byte) = event_spec(old(kbd).shift_pressed, events@[id as int]);
            &&& r == byte
            &&& final(kbd).shift_pressed == shift
            &&& offered(*old(q), *final(q), id as u16)
            &&& *final(last_used) == (*old(last_used) + 1) % 0x1_0000
        },
{
    if base == 0 {
        return None;
    }
    match q.recycle_used(last_used) {
        None => None,
        Some(id) => {
            let ev = events[id as usize];
            kbd.handle_event(ev)
        },
    }
}

} // verus!
