//! Snapshot of the 16-key hex keypad.
//!
//! The keypad is sampled once per frame by an external driver, which hands
//! the whole set of currently pressed key codes to [`Keyboard::replace`];
//! absence from the set means "not pressed".  The interpreter engine only
//! reads the snapshot, through [`Keyboard::is_pressed`] and
//! [`Keyboard::lowest_pressed`].

use vstd::prelude::*;

verus! {

/// Pressed/released state of the 16 hex keys: `keys[k]` is true while key
/// code `k` (0x0..=0xF) is held down.
pub struct Keyboard {
    pub keys: Vec<bool>,
}

/// Index of the lowest pressed key at or above position `i`, or 16 when no
/// key at or above `i` is pressed.
pub open spec fn lowest_key_from(keys: Seq<bool>, i: int) -> int
    decreases 16 - i,
{
    if i < 0 || i >= 16 {
        16
    } else if keys[i] {
        i
    } else {
        lowest_key_from(keys, i + 1)
    }
}

/// Index of the lowest pressed key, or 16 when no key is pressed.
pub open spec fn lowest_key(keys: Seq<bool>) -> int {
    lowest_key_from(keys, 0)
}

/// With no key pressed at or above `i`, the scan finds nothing.
pub proof fn lemma_lowest_key_none(keys: Seq<bool>, i: int)
    requires
        forall|j: int| i <= j < 16 ==> !keys[j],
    ensures
        lowest_key_from(keys, i) == 16,
    decreases 16 - i,
{
    if 0 <= i < 16 {
        lemma_lowest_key_none(keys, i + 1);
    }
}

/// With key `k` pressed and no key below it pressed, the scan from any
/// point at or below `k` finds exactly `k`.
pub proof fn lemma_lowest_key_found(keys: Seq<bool>, i: int, k: int)
    requires
        0 <= i <= k < 16,
        keys[k],
        forall|j: int| i <= j < k ==> !keys[j],
    ensures
        lowest_key_from(keys, i) == k,
    decreases k - i,
{
    if i < k {
        lemma_lowest_key_found(keys, i + 1, k);
    }
}

impl Keyboard {
    /// Well-formed: exactly one entry per hex key code 0x0..=0xF.
    pub open spec fn wf(&self) -> bool {
        self.keys@.len() == 16
    }

    /// A fresh keypad snapshot with no key pressed.
    pub fn new() -> (kb: Keyboard)
        ensures
            kb.wf(),
            forall|k: int| 0 <= k < 16 ==> !kb.keys@[k],
    {
        let mut keys: Vec<bool> = Vec::new();
        let mut i: usize = 0;
        while i < 16
            invariant
                i <= 16,
                keys@.len() == i,
                forall|k: int| 0 <= k < i ==> !keys@[k],
            decreases 16 - i,
        {
            keys.push(false);
            i = i + 1;
        }
        Keyboard { keys }
    }

    /// Atomically overwrite the whole snapshot: exactly the codes listed in
    /// `pressed` are pressed afterwards.
    pub fn replace(&mut self, pressed: &[u8])
        requires
            old(self).wf(),
            forall|j: int| 0 <= j < pressed@.len() ==> pressed@[j] < 16,
        ensures
            final(self).wf(),
            forall|k: int|
                0 <= k < 16 ==> (final(self).keys@[k] <==> pressed@.contains(k as u8)),
    {
        let mut keys: Vec<bool> = Vec::new();
        let mut i: usize = 0;
        while i < 16
            invariant
                i <= 16,
                keys@.len() == i,
                forall|k: int| 0 <= k < i ==> !keys@[k],
            decreases 16 - i,
        {
            keys.push(false);
            i = i + 1;
        }
        let mut j: usize = 0;
        while j < pressed.len()
            invariant
                j <= pressed@.len(),
                keys@.len() == 16,
                forall|jj: int| 0 <= jj < pressed@.len() ==> pressed@[jj] < 16,
                forall|k: int|
                    0 <= k < 16
                        ==> (keys@[k] <==> exists|jj: int|
                            0 <= jj < j && pressed@[jj] == k as u8),
            decreases pressed@.len() - j,
        {
            let code = pressed[j];
            keys.set(code as usize, true);
            j = j + 1;
        }
        self.keys = keys;
    }

    /// Whether key `code` is currently pressed.
    pub fn is_pressed(&self, code: u8) -> (r: bool)
        requires
            self.wf(),
            code < 16,
        ensures
            r == self.keys@[code as int],
    {
        self.keys[code as usize]
    }

    /// The lowest-indexed pressed key, or `None` when no key is pressed;
    /// used by the key-wait instruction, which must pick the lowest pressed
    /// key when several are held at once.
    pub fn lowest_pressed(&self) -> (r: Option<u8>)
        requires
            self.wf(),
        ensures
            match r {
                Some(k) => k < 16 && self.keys@[k as int] && k == lowest_key(self.keys@)
                    && forall|j: int| 0 <= j < k ==> !self.keys@[j],
                None => lowest_key(self.keys@) == 16
                    && forall|j: int| 0 <= j < 16 ==> !self.keys@[j],
            },
    {
        let mut i: usize = 0;
        while i < 16
            invariant
                i <= 16,
                self.wf(),
                lowest_key(self.keys@) == lowest_key_from(self.keys@, i as int),
                forall|j: int| 0 <= j < i ==> !self.keys@[j],
            decreases 16 - i,
        {
            if self.keys[i] {
                return Some(i as u8);
            }
            i = i + 1;
        }
        None
    }
}

} // verus!
