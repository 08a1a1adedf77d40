use vstd::prelude::*;

verus! {

/// A recent ledger hash and slot, as last fetched.
pub struct ChainMetaService {
    pub recent_blockhash: [u8; 32],
    pub slot: u64,
}

/// The all-zero hash stands for "no hash fetched yet".
pub open spec fn is_zero_hash(h: [u8; 32]) -> bool {
    forall|i: int| 0 <= i < 32 ==> h[i] == 0
}

impl ChainMetaService {
    pub fn new() -> (r: Self)
        ensures
            is_zero_hash(r.recent_blockhash),
            r.slot == 0,
    {
        ChainMetaService { recent_blockhash: [0u8; 32], slot: 0 }
    }

    /// Records a freshly fetched hash and slot.
    pub fn update_chain_meta(&mut self, hash: [u8; 32], slot: u64)
        ensures
            final(self).recent_blockhash == hash,
            final(self).slot == slot,
    {
        self.recent_blockhash = hash;
        self.slot = slot;
    }

    pub fn get_latest_blockhash(&self) -> (r: [u8; 32])
        ensures
            r == self.recent_blockhash,
    {
        self.recent_blockhash
    }

    /// Whether a hash to sign with is available: any non-zero byte.
    pub fn nonce_ready(&self) -> (r: bool)
        ensures
            r == !is_zero_hash(self.recent_blockhash),
    {
        let mut i: usize = 0;
        while i < 32
            invariant
                i <= 32,
                forall|j: int| 0 <= j < i ==> self.recent_blockhash[j] == 0,
            decreases 32 - i,
        {
            if self.recent_blockhash[i] != 0 {
                return true;
            }
            i = i + 1;
        }
        false
    }
}

} // verus!
