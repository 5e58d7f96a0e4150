//! The keyboard as the X server maps it, held as plain values: which keycode
//! types a keysym, which keycodes hold the active modifiers, and the order of
//! key events that a chord or a single keysym turns into.
use vstd::prelude::*;

use crate::cua::KeyAction;

verus! {

/// The server's keyboard and modifier mappings.
pub struct KeyMap {
    /// `keysyms_per` keysyms for each keycode from `min_keycode` up.
    pub keysyms: Vec<u32>,
    pub keysyms_per: u8,
    pub min_keycode: u8,
    /// `keycodes_per_mod` keycodes for each of the eight modifiers, in X
    /// order: Shift, Lock, Control, Mod1 to Mod5.
    pub mod_keycodes: Vec<u8>,
    pub keycodes_per_mod: u8,
    /// The keycode of `Shift_L`, or 0 when the map has none.
    pub shift_l: u8,
}

/// `a.saturating_add(b)` on `u8`.
pub open spec fn sat_add(a: u8, b: u8) -> u8 {
    if a + b > 255 {
        255u8
    } else {
        (a + b) as u8
    }
}

/// The first keycode, from chunk `i` (starting at `start`) on, whose first
/// keysym is `ks` (no shift), or whose second is (with shift); the keycode
/// is the chunk's index added to `min`, saturating, the index taken modulo
/// 256.
pub open spec fn lookup_from(
    keysyms: Seq<u32>,
    per: nat,
    min: u8,
    ks: u32,
    i: nat,
    start: nat,
) -> Option<(u8, bool)>
    decreases keysyms.len() - start,
{
    if per == 0 || start >= keysyms.len() {
        None
    } else if keysyms[start as int] == ks {
        Some((sat_add(min, (i % 256) as u8), false))
    } else if per > 1 && start + 1 < keysyms.len() && keysyms[start + 1 as int] == ks {
        Some((sat_add(min, (i % 256) as u8), true))
    } else if start + per >= keysyms.len() {
        None
    } else {
        lookup_from(keysyms, per, min, ks, i + 1, start + per)
    }
}

impl KeyMap {
    /// The keycode that types `ks`, and whether Shift must be held for it.
    pub open spec fn lookup_spec(&self, ks: u32) -> Option<(u8, bool)> {
        lookup_from(self.keysyms@, self.keysyms_per as nat, self.min_keycode, ks, 0, 0)
    }

    /// Look `ks` up in the map.
    pub fn lookup(&self, ks: u32) -> (r: Option<(u8, bool)>)
        ensures
            r == self.lookup_spec(ks),
    {
        let per = self.keysyms_per as usize;
        if per == 0 {
            return None;
        }
        let n = self.keysyms.len();
        let mut i: usize = 0;
        let mut start: usize = 0;
        while start < n
            invariant
                per == self.keysyms_per as usize,
                per > 0,
                n == self.keysyms@.len(),
                i <= start,
                lookup_from(self.keysyms@, per as nat, self.min_keycode, ks, 0, 0) == lookup_from(
                    self.keysyms@,
                    per as nat,
                    self.min_keycode,
                    ks,
                    i as nat,
                    start as nat,
                ),
            decreases n - start,
        {
            let idx: u8 = (i % 256) as u8;
            let kc: u8 = if self.min_keycode as u16 + idx as u16 > 255 {
                255
            } else {
                self.min_keycode + idx
            };
            if self.keysyms[start] == ks {
                return Some((kc, false));
            }
            if per > 1 && start + 1 < n && self.keysyms[start + 1] == ks {
                return Some((kc, true));
            }
            if n - start <= per {
                return None;
            }
            start = start + per;
            i = i + 1;
        }
        None
    }

    /// For each modifier set in `mask`, the first non-zero keycode that
    /// holds it, when its row of the modifier map is complete.
    pub open spec fn held_spec(&self, mask: u16, m: nat) -> Seq<u8>
        decreases 8 - m,
    {
        if m >= 8 {
            Seq::empty()
        } else {
            let per = self.keycodes_per_mod as nat;
            let row = self.mod_keycodes@.subrange((m * per) as int, (m * per + per) as int);
            let here = if (mask as nat / pow2_nat(m)) % 2 == 1 && m * per + per
                <= self.mod_keycodes@.len() && first_nonzero(row) is Some {
                seq![first_nonzero(row)->Some_0]
            } else {
                Seq::empty()
            };
            here + self.held_spec(mask, m + 1)
        }
    }

    /// The keycodes to release so that the modifiers in `mask` are up:
    /// none at all when the map has no modifier keycodes.
    pub fn held_modifiers(&self, mask: u16) -> (r: Vec<u8>)
        ensures
            self.keycodes_per_mod == 0 ==> r@.len() == 0,
            self.keycodes_per_mod > 0 ==> r@ == self.held_spec(mask, 0),
            r@.len() <= 8,
    {
        let mut out: Vec<u8> = Vec::new();
        let per = self.keycodes_per_mod as usize;
        if per == 0 {
            return out;
        }
        let mut m: usize = 0;
        let mut bits: u16 = mask;
        assert(out@ + self.held_spec(mask, 0) =~= self.held_spec(mask, 0));
        assert(pow2_nat(0) == 1);
        while m < 8
            invariant
                m <= 8,
                per == self.keycodes_per_mod as usize,
                0 < per <= 255,
                bits as nat == mask as nat / pow2_nat(m as nat),
                out@ + self.held_spec(mask, m as nat) == self.held_spec(mask, 0),
                out@.len() <= m,
            decreases 8 - m,
        {
            let ghost before = out@;
            assert(m * per <= 7 * 255) by (nonlinear_arith)
                requires
                    m < 8,
                    per <= 255,
            ;
            let start = m * per;
            let ghost row = self.mod_keycodes@.subrange((m * per) as int, (m * per + per) as int);
            let ghost here = if (mask as nat / pow2_nat(m as nat)) % 2 == 1 && m * per + per
                <= self.mod_keycodes@.len() && first_nonzero(row) is Some {
                seq![first_nonzero(row)->Some_0]
            } else {
                Seq::empty()
            };
            assert(self.held_spec(mask, m as nat) == here + self.held_spec(mask, (m + 1) as nat));
            if bits % 2 == 1 && start + per <= self.mod_keycodes.len() {
                if let Some(kc) = first_nonzero_in(&self.mod_keycodes, start, per) {
                    out.push(kc);
                }
            }
            assert(out@ == before + here);
            assert(before + (here + self.held_spec(mask, (m + 1) as nat)) =~= (before + here)
                + self.held_spec(mask, (m + 1) as nat));
            proof {
                lemma_div_div(mask as nat, m as nat);
            }
            bits = bits / 2;
            m = m + 1;
        }
        assert(self.held_spec(mask, 8) =~= Seq::<u8>::empty());
        assert(out@ + Seq::<u8>::empty() =~= out@);
        out
    }
}

fn first_nonzero_in(v: &Vec<u8>, start: usize, per: usize) -> (r: Option<u8>)
    requires
        start + per <= v@.len(),
    ensures
        r == first_nonzero(v@.subrange(start as int, (start + per) as int)),
{
    let ghost row = v@.subrange(start as int, (start + per) as int);
    let len = v.len();
    let mut j: usize = 0;
    assert(row.skip(0) =~= row);
    while j < per
        invariant
            j <= per,
            start + per <= len,
            len == v@.len(),
            row == v@.subrange(start as int, (start + per) as int),
            first_nonzero(row) == first_nonzero(row.skip(j as int)),
        decreases per - j,
    {
        let kc = v[start + j];
        assert(row.skip(j as int)[0] == kc);
        assert(row.skip(j as int).drop_first() =~= row.skip(j + 1));
        if kc != 0 {
            return Some(kc);
        }
        j = j + 1;
    }
    assert(row.skip(per as int) =~= Seq::<u8>::empty());
    None
}

/// The first non-zero keycode of a row.
pub open spec fn first_nonzero(row: Seq<u8>) -> Option<u8>
    decreases row.len(),
{
    if row.len() == 0 {
        None
    } else if row[0] != 0 {
        Some(row[0])
    } else {
        first_nonzero(row.drop_first())
    }
}

pub open spec fn pow2_nat(m: nat) -> nat
    decreases m,
{
    if m == 0 {
        1
    } else {
        2 * pow2_nat((m - 1) as nat)
    }
}

proof fn lemma_pow2_step(m: nat)
    ensures
        pow2_nat(m + 1) == 2 * pow2_nat(m),
        pow2_nat(m) > 0,
    decreases m,
{
    if m > 0 {
        lemma_pow2_step((m - 1) as nat);
    }
}

proof fn lemma_div_div(a: nat, m: nat)
    ensures
        (a / pow2_nat(m)) / 2 == a / pow2_nat(m + 1),
{
    lemma_pow2_step(m);
    let p = pow2_nat(m);
    assert(p > 0);
    vstd::arithmetic::div_mod::lemma_div_denominator(a as int, p as int, 2);
    assert(p * 2 == pow2_nat(m + 1)) by (nonlinear_arith)
        requires
            pow2_nat(m + 1) == 2 * p,
    ;
}

/// One key event: a keycode pressed (`true`) or released.
pub open spec fn events_for(kc: u8, shift: bool, shift_l: u8, action: KeyAction) -> Seq<(u8, bool)> {
    match action {
        KeyAction::Tap => (if shift {
            seq![(shift_l, true)]
        } else {
            Seq::empty()
        }) + seq![(kc, true), (kc, false)] + (if shift {
            seq![(shift_l, false)]
        } else {
            Seq::empty()
        }),
        KeyAction::Down => (if shift {
            seq![(shift_l, true)]
        } else {
            Seq::empty()
        }) + seq![(kc, true)],
        KeyAction::Up => seq![(kc, false)] + (if shift {
            seq![(shift_l, false)]
        } else {
            Seq::empty()
        }),
    }
}

impl KeyMap {
    /// The key events that send `ks` with `action` through its own keycode,
    /// Shift around it when the keysym is the keycode's second; `None` when
    /// no keycode types it and a spare keycode has to be remapped.
    pub fn keysym_events(&self, ks: u32, action: KeyAction) -> (r: Option<Vec<(u8, bool)>>)
        ensures
            match self.lookup_spec(ks) {
                Some((kc, shift)) => r is Some && r->Some_0@ == events_for(
                    kc,
                    shift,
                    self.shift_l,
                    action,
                ),
                None => r is None,
            },
    {
        let (kc, shift) = match self.lookup(ks) {
            Some(p) => p,
            None => {
                return None;
            },
        };
        let mut v: Vec<(u8, bool)> = Vec::new();
        match action {
            KeyAction::Tap => {
                if shift {
                    v.push((self.shift_l, true));
                }
                v.push((kc, true));
                v.push((kc, false));
                if shift {
                    v.push((self.shift_l, false));
                }
            },
            KeyAction::Down => {
                if shift {
                    v.push((self.shift_l, true));
                }
                v.push((kc, true));
            },
            KeyAction::Up => {
                v.push((kc, false));
                if shift {
                    v.push((self.shift_l, false));
                }
            },
        }
        assert(v@ =~= events_for(kc, shift, self.shift_l, action));
        Some(v)
    }
}

/// A chord as single-keysym steps: a tap presses every key in order and
/// lets them go in reverse; a press only presses; a release only lets go,
/// in reverse.
pub open spec fn chord_steps(seq: Seq<u32>, action: KeyAction) -> Seq<(u32, KeyAction)> {
    let downs = seq.map_values(|k: u32| (k, KeyAction::Down));
    let ups = seq.reverse().map_values(|k: u32| (k, KeyAction::Up));
    match action {
        KeyAction::Tap => downs + ups,
        KeyAction::Down => downs,
        KeyAction::Up => ups,
    }
}

/// The single-keysym steps of a chord.
pub fn chord_plan(seq: &[u32], action: KeyAction) -> (r: Vec<(u32, KeyAction)>)
    ensures
        r@ == chord_steps(seq@, action),
{
    let ghost downs = seq@.map_values(|k: u32| (k, KeyAction::Down));
    let ghost ups = seq@.reverse().map_values(|k: u32| (k, KeyAction::Up));
    let mut out: Vec<(u32, KeyAction)> = Vec::new();
    let n = seq.len();
    if action != KeyAction::Up {
        let mut i: usize = 0;
        while i < n
            invariant
                i <= n,
                n == seq@.len(),
                downs == seq@.map_values(|k: u32| (k, KeyAction::Down)),
                out@ == downs.take(i as int),
            decreases n - i,
        {
            out.push((seq[i], KeyAction::Down));
            i = i + 1;
            assert(out@ =~= downs.take(i as int));
        }
        assert(downs.take(n as int) =~= downs);
    }
    if action != KeyAction::Down {
        let ghost base = out@;
        let mut j: usize = 0;
        while j < n
            invariant
                j <= n,
                n == seq@.len(),
                ups == seq@.reverse().map_values(|k: u32| (k, KeyAction::Up)),
                out@ == base + ups.take(j as int),
            decreases n - j,
        {
            out.push((seq[n - 1 - j], KeyAction::Up));
            proof {
                assert(seq@.reverse()[j as int] == seq@[n - 1 - j]);
            }
            j = j + 1;
            assert(out@ =~= base + ups.take(j as int));
        }
        assert(ups.take(n as int) =~= ups);
    }
    proof {
        match action {
            KeyAction::Tap => {},
            KeyAction::Down => {
                assert(out@ =~= downs);
            },
            KeyAction::Up => {
                assert(out@ =~= Seq::<(u32, KeyAction)>::empty() + ups);
            },
        }
    }
    out
}

} // verus!
