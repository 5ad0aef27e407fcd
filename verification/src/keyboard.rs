use vstd::prelude::*;

verus! {

/// The 16-key input matrix together with the blocking key-wait latch: a
/// "waiting" flag raised by the key-wait instruction, a "received" flag and
/// the captured key value set by the next press while waiting.
pub struct Keyboard {
    pub state: Vec<bool>,
    pub wait_for_key: bool,
    pub key_received: bool,
    pub key: u8,
}

impl Keyboard {
    /// One state bit per key.
    pub open spec fn wf(&self) -> bool {
        self.state@.len() == 16
    }

    /// All keys released, no wait pending.
    pub fn new() -> (r: Self)
        ensures
            r.wf(),
            r.state@ == Seq::new(16, |k: int| false),
            !r.wait_for_key,
            !r.key_received,
            r.key == 0,
    {
        let mut state: Vec<bool> = Vec::new();
        let mut k: usize = 0;
        while k < 16
            invariant
                k <= 16,
                state@ == Seq::new(k as nat, |j: int| false),
            decreases 16 - k,
        {
            state.push(false);
            proof {
                assert(state@ =~= Seq::new((k + 1) as nat, |j: int| false));
            }
            k = k + 1;
        }
        Self { state, wait_for_key: false, key_received: false, key: 0 }
    }

    /// Marks the key as pressed; while a key-wait is pending, also latches the
    /// key value and the "received" flag.
    pub fn press_key(&mut self, key: u8)
        requires
            old(self).wf(),
            key < 16,
        ensures
            final(self).wf(),
            final(self).state@ == old(self).state@.update(key as int, true),
            final(self).wait_for_key == old(self).wait_for_key,
            final(self).key_received == (old(self).wait_for_key || old(self).key_received),
            final(self).key == (if old(self).wait_for_key {
                key
            } else {
                old(self).key
            }),
    {
        self.state[key as usize] = true;
        if self.wait_for_key {
            self.key = key;
            self.key_received = true;
        }
    }

    /// Marks the key as released, unconditionally.
    pub fn release_key(&mut self, key: u8)
        requires
            old(self).wf(),
            key < 16,
        ensures
            final(self).wf(),
            final(self).state@ == old(self).state@.update(key as int, false),
            final(self).wait_for_key == old(self).wait_for_key,
            final(self).key_received == old(self).key_received,
            final(self).key == old(self).key,
    {
        self.state[key as usize] = false;
    }
}

} // verus!
