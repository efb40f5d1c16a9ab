//! Key choices of the simulated paste: the trigger key read from the
//! shortcut, the paste chord, and which modifiers to release. Sending the
//! key events stays outside.
use vstd::prelude::*;
use crate::group_style::{self, parse_i64_exec};
use crate::strs::{self, char_vec, str_byte_len, str_eq, string_from_chars, trimmed_chars};
use crate::text::sub_vec;
use crate::unicode::{self, to_uppercase};

verus! {

broadcast use vstd::seq::group_seq_axioms;

pub const VK_SHIFT: u16 = 0x10;
pub const VK_CONTROL: u16 = 0x11;
pub const VK_MENU: u16 = 0x12;
pub const VK_INSERT: u16 = 0x2D;
pub const VK_V: u16 = 0x56;
pub const VK_LWIN: u16 = 0x5B;
pub const VK_RWIN: u16 = 0x5C;

/// The non-modifier key of the hotkey that triggered the paste, if known.
#[derive(Debug)]
pub struct TriggerKeyState {
    pub current: Option<u16>,
}

/// The part of `s` after its last `+` (all of `s` when it has none).
pub open spec fn after_last_plus(s: Seq<char>) -> Seq<char>
    decreases s.len(),
{
    if s.len() == 0 {
        s
    } else if s.last() == '+' {
        Seq::empty()
    } else {
        after_last_plus(s.drop_last()).push(s.last())
    }
}

proof fn lemma_after_last_plus(s: Seq<char>, k: int)
    requires
        0 <= k <= s.len(),
        k == 0 || s[k - 1] == '+',
        forall|j: int| k <= j < s.len() ==> s[j] != '+',
    ensures
        after_last_plus(s) == s.subrange(k, s.len() as int),
    decreases s.len(),
{
    if s.len() > 0 {
        if k == s.len() {
            assert(s.subrange(k, s.len() as int) =~= Seq::<char>::empty());
        } else {
            lemma_after_last_plus(s.drop_last(), k);
            assert(s.subrange(k, s.len() as int) =~= s.drop_last().subrange(k, s.len() - 1).push(s.last()));
        }
    }
}

/// `u16::from_str`: an optional `+`, then at least one decimal digit, the
/// value at most 65535.
pub open spec fn parse_u16(s: Seq<char>) -> Option<int> {
    if s.len() > 0 && s[0] == '-' {
        None
    } else {
        match group_style::parse_i64(s, 10) {
            Some(v) => if 0 <= v <= 65535 { Some(v) } else { None },
            None => None,
        }
    }
}

/// The key code named by an uppercased key: `INSERT`, or `F1` to `F24`.
pub open spec fn vk_of_upper(upper: Seq<char>) -> Option<u16> {
    if upper == "INSERT"@ {
        Some(0x2D)
    } else if upper.len() > 0 && upper[0] == 'F' {
        match parse_u16(upper.skip(1)) {
            Some(n) => if 1 <= n <= 24 { Some((0x6F + n) as u16) } else { None },
            None => None,
        }
    } else {
        None
    }
}

/// The key code of the last key of a shortcut (`Ctrl+Shift+V`): the text
/// after the last `+`, trimmed; a single uppercase ASCII letter or digit is
/// its own code; longer names are read uppercased.
pub open spec fn shortcut_vk(shortcut: Seq<char>) -> Option<u16> {
    let key = strs::trim(after_last_plus(shortcut));
    if key.len() == 0 {
        None
    } else if strs::byte_len(key) == 1 {
        let c = key[0];
        if ('A' <= c && c <= 'Z') || ('0' <= c && c <= '9') {
            Some(c as u16)
        } else {
            None
        }
    } else {
        vk_of_upper(unicode::str_uppercase(key))
    }
}

/// The key code named by an uppercased key name; see `vk_of_upper`.
pub fn vk_from_upper_key(upper: &str) -> (r: Option<u16>)
    ensures
        r == vk_of_upper(upper@),
{
    if str_eq(upper, "INSERT") {
        return Some(VK_INSERT);
    }
    let chars = char_vec(upper);
    if chars.len() == 0 || chars[0] != 'F' {
        return None;
    }
    if chars.len() > 1 && chars[1] == '-' {
        return None;
    }
    match parse_i64_exec(&chars, 1, 10) {
        Some(n) => {
            if 1 <= n && n <= 24 {
                Some((0x6F + n) as u16)
            } else {
                None
            }
        },
        None => None,
    }
}

/// The key code of a shortcut's last key; see `shortcut_vk`.
pub fn parse_shortcut_key_vk(shortcut: &str) -> (r: Option<u16>)
    ensures
        r == shortcut_vk(shortcut@),
{
    let chars = char_vec(shortcut);
    let mut k = chars.len();
    while k > 0 && chars[k - 1] != '+'
        invariant
            0 <= k <= chars@.len(),
            chars@ == shortcut@,
            forall|j: int| k <= j < chars@.len() ==> chars@[j] != '+',
        decreases k,
    {
        k -= 1;
    }
    proof {
        lemma_after_last_plus(chars@, k as int);
    }
    let last = sub_vec(&chars, k, chars.len());
    let last_str = string_from_chars(&last);
    let key = trimmed_chars(last_str.as_str());
    if key.len() == 0 {
        return None;
    }
    let key_str = string_from_chars(&key);
    if str_byte_len(key_str.as_str()) == 1 {
        let c = key[0];
        if ('A' <= c && c <= 'Z') || ('0' <= c && c <= '9') {
            return Some(c as u16);
        }
        return None;
    }
    let upper = to_uppercase(key_str.as_str());
    vk_from_upper_key(upper.as_str())
}

/// Remembers the trigger key of a shortcut; an unreadable shortcut leaves
/// the state as it was.
pub fn set_trigger_key_from_shortcut(state: &mut TriggerKeyState, shortcut: &str)
    ensures
        shortcut_vk(shortcut@).is_some() ==> final(state).current == shortcut_vk(shortcut@),
        shortcut_vk(shortcut@).is_none() ==> final(state).current == old(state).current,
{
    if let Some(vk) = parse_shortcut_key_vk(shortcut) {
        state.current = Some(vk);
    }
}

/// Remembers a trigger key code.
pub fn set_trigger_key_raw(state: &mut TriggerKeyState, vk: u16)
    ensures
        final(state).current == Some(vk),
{
    state.current = Some(vk);
}

/// Hands out the remembered trigger key and forgets it.
pub fn take_trigger_key(state: &mut TriggerKeyState) -> (r: Option<u16>)
    ensures
        r == old(state).current,
        final(state).current.is_none(),
{
    let r = state.current;
    state.current = None;
    r
}

/// The paste chord of a paste mode: `ctrl_v` is Ctrl+V; any other mode is
/// Shift+Insert, whose Insert is an extended key.
pub fn paste_chord(paste_shortcut_mode: &str) -> (r: (u16, u16, bool))
    ensures
        paste_shortcut_mode@ == "ctrl_v"@ ==> r == (0x11u16, 0x56u16, false),
        paste_shortcut_mode@ != "ctrl_v"@ ==> r == (0x10u16, 0x2Du16, true),
{
    if str_eq(paste_shortcut_mode, "ctrl_v") {
        (VK_CONTROL, VK_V, false)
    } else {
        (VK_SHIFT, VK_INSERT, true)
    }
}

/// Which modifier keys are down.
#[derive(Debug, Clone, Copy, PartialEq, Eq, Structural)]
pub struct ModifierState {
    pub ctrl: bool,
    pub shift: bool,
    pub alt: bool,
    pub lwin: bool,
    pub rwin: bool,
}

/// The modifiers in their fixed order Ctrl, Shift, Alt, LWin, RWin, each
/// with its key code and whether it is down.
pub open spec fn entries_of(m: ModifierState) -> Seq<(u16, bool)> {
    seq![(0x11u16, m.ctrl), (0x10u16, m.shift), (0x12u16, m.alt), (0x5Bu16, m.lwin), (0x5Cu16, m.rwin)]
}

impl ModifierState {
    /// The modifiers in their fixed order; see `entries_of`.
    pub fn entries(&self) -> (r: Vec<(u16, bool)>)
        ensures
            r@ == entries_of(*self),
    {
        let mut v: Vec<(u16, bool)> = Vec::new();
        v.push((VK_CONTROL, self.ctrl));
        v.push((VK_SHIFT, self.shift));
        v.push((VK_MENU, self.alt));
        v.push((VK_LWIN, self.lwin));
        v.push((VK_RWIN, self.rwin));
        assert(v@ =~= entries_of(*self));
        v
    }
}

/// The key codes, in entry order, of the entries that satisfy `keep`.
pub open spec fn codes_where(e: Seq<(u16, bool)>, keep: spec_fn((u16, bool), int) -> bool) -> Seq<u16>
    decreases e.len(),
{
    if e.len() == 0 {
        Seq::empty()
    } else {
        let rest = codes_where(e.drop_last(), keep);
        if keep(e.last(), e.len() - 1) {
            rest.push(e.last().0)
        } else {
            rest
        }
    }
}

/// Modifiers held down that would clash with the paste chord: every down
/// modifier but Alt, in entry order.
pub open spec fn conflicting(m: ModifierState) -> Seq<u16> {
    codes_where(entries_of(m), |x: (u16, bool), i: int| x.1 && x.0 != 0x12u16)
}

/// The down modifiers to release before pasting; see `conflicting`.
pub fn conflicting_modifiers(mods: &ModifierState) -> (r: Vec<u16>)
    ensures
        r@ == conflicting(*mods),
{
    let e = mods.entries();
    let ghost keep = |x: (u16, bool), i: int| x.1 && x.0 != 0x12u16;
    let mut out: Vec<u16> = Vec::new();
    let mut i: usize = 0;
    while i < e.len()
        invariant
            0 <= i <= e@.len(),
            e@ == entries_of(*mods),
            keep == (|x: (u16, bool), i: int| x.1 && x.0 != 0x12u16),
            out@ == codes_where(e@.take(i as int), keep),
        decreases e@.len() - i,
    {
        proof {
            assert(e@.take(i + 1).drop_last() =~= e@.take(i as int));
        }
        let (vk, pressed) = e[i];
        if pressed && vk != VK_MENU {
            out.push(vk);
        }
        i += 1;
    }
    assert(e@.take(e@.len() as int) =~= e@);
    out
}

/// Modifiers stuck down: logically down while physically up, in entry order.
pub open spec fn stuck(logical: ModifierState, physical: ModifierState) -> Seq<u16> {
    codes_where(entries_of(logical), |x: (u16, bool), i: int| x.1 && !entries_of(physical)[i].1)
}

/// The stuck modifiers to release; see `stuck`.
pub fn stuck_modifiers(logical: &ModifierState, physical: &ModifierState) -> (r: Vec<u16>)
    ensures
        r@ == stuck(*logical, *physical),
{
    let l = logical.entries();
    let p = physical.entries();
    let ghost keep = |x: (u16, bool), i: int| x.1 && !entries_of(*physical)[i].1;
    let mut out: Vec<u16> = Vec::new();
    let mut i: usize = 0;
    while i < l.len()
        invariant
            0 <= i <= l@.len(),
            l@ == entries_of(*logical),
            p@ == entries_of(*physical),
            keep == (|x: (u16, bool), i: int| x.1 && !entries_of(*physical)[i].1),
            out@ == codes_where(l@.take(i as int), keep),
        decreases l@.len() - i,
    {
        proof {
            assert(l@.take(i + 1).drop_last() =~= l@.take(i as int));
        }
        let (vk, logical_down) = l[i];
        let (_, physical_down) = p[i];
        if logical_down && !physical_down {
            out.push(vk);
        }
        i += 1;
    }
    assert(l@.take(l@.len() as int) =~= l@);
    out
}

} // verus!
