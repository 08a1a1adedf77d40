use vstd::prelude::*;
use crate::accounts_cache::{AccountState, AccountsCache};
use crate::order_manager::Pubkey;

verus! {

/// Keys fetched per multi-account request.
pub const BATCH_SIZE: usize = 100;

/// Keys of batch `i`: the `i`-th run of `BATCH_SIZE` keys, the last one shorter.
pub open spec fn batch_of(keys: Seq<Pubkey>, i: int) -> Seq<Pubkey> {
    let start = BATCH_SIZE * i;
    let end = if start + BATCH_SIZE <= keys.len() { start + BATCH_SIZE } else { keys.len() as int };
    keys.subrange(start, end)
}

/// Number of batches needed for `n` keys.
pub open spec fn batch_count(n: nat) -> nat {
    (n + BATCH_SIZE - 1) as nat / (BATCH_SIZE as nat)
}

/// Splits the polling set into request-sized batches, in order.
pub fn batch_keys(keys: &Vec<Pubkey>) -> (r: Vec<Vec<Pubkey>>)
    ensures
        r@.len() == batch_count(keys@.len()),
        forall|i: int| 0 <= i < r@.len() ==> (#[trigger] r@[i])@ == batch_of(keys@, i),
{
    let mut batches: Vec<Vec<Pubkey>> = Vec::new();
    let len = keys.len();
    let count = len / BATCH_SIZE + if len % BATCH_SIZE == 0 { 0 } else { 1 };
    assert(count == batch_count(len as nat)) by (nonlinear_arith)
        requires
            count == len / 100 + if len % 100 == 0 { 0int } else { 1int },
    ;
    while batches.len() < count
        invariant
            len == keys@.len(),
            count == batch_count(len as nat),
            batches@.len() <= count,
            forall|i: int| 0 <= i < batches@.len() ==> (#[trigger] batches@[i])@ == batch_of(keys@, i),
        decreases count - batches@.len(),
    {
        let b = batches.len();
        assert(100 * b < len) by (nonlinear_arith)
            requires
                b < count,
                count == (len + 99) / 100,
        ;
        let start = BATCH_SIZE * b;
        let end = if len - start >= BATCH_SIZE { start + BATCH_SIZE } else { len };
        let mut batch: Vec<Pubkey> = Vec::new();
        let mut i: usize = start;
        while i < end
            invariant
                start <= i <= end <= len,
                len == keys@.len(),
                batch@ =~= keys@.subrange(start as int, i as int),
            decreases end - i,
        {
            batch.push(keys[i]);
            i = i + 1;
        }
        batches.push(batch);
    }
    batches
}

/// The fetched accounts as plain values: bytes where the account was returned.
pub open spec fn fetched_view(fetched: Seq<Option<Vec<u8>>>) -> Seq<Option<Seq<u8>>> {
    fetched.map_values(|o: Option<Vec<u8>>| match o {
        Some(v) => Some(v@),
        None => None,
    })
}

/// The cache after writing the first `n` fetched accounts, the last one
/// first; a missing account leaves its key as it was.
pub open spec fn ingest_upto(
    m: Map<Pubkey, (Seq<u8>, u64)>,
    keys: Seq<Pubkey>,
    fetched: Seq<Option<Seq<u8>>>,
    slot: u64,
    n: nat,
) -> Map<Pubkey, (Seq<u8>, u64)>
    decreases n,
{
    if n == 0 {
        m
    } else {
        let i = n - 1;
        let m1 = match fetched[i] {
            Some(d) => m.insert(keys[i], (d, slot)),
            None => m,
        };
        ingest_upto(m1, keys, fetched, slot, (n - 1) as nat)
    }
}

/// Writes one multi-account response into the cache: `fetched[i]` is the
/// account of `keys[i]` as read at `slot`. Missing accounts are skipped.
pub fn update_infos(cache: &mut AccountsCache, keys: &Vec<Pubkey>, fetched: Vec<Option<Vec<u8>>>, slot: u64)
    requires
        fetched@.len() == keys@.len(),
    ensures
        final(cache).view() == ingest_upto(old(cache).view(), keys@, fetched_view(fetched@), slot, keys@.len()),
{
    let ghost fv = fetched_view(fetched@);
    let ghost target = ingest_upto(cache.view(), keys@, fv, slot, keys@.len());
    let ghost orig = fetched@;
    let mut infos = fetched;
    while infos.len() > 0
        invariant
            infos@.len() <= keys@.len(),
            orig.len() == keys@.len(),
            fv == fetched_view(orig),
            infos@ == orig.take(infos@.len() as int),
            ingest_upto(cache.view(), keys@, fv, slot, infos@.len() as nat) == target,
        decreases infos@.len(),
    {
        let ghost before = infos@;
        let next = infos.pop().unwrap();
        let i = infos.len();
        proof {
            assert(next == orig[i as int]);
            assert(infos@ =~= orig.take(i as int));
        }
        match next {
            Some(data) => {
                cache.insert(keys[i], AccountState { account: data, slot });
            },
            None => {},
        }
    }
}

} // verus!
