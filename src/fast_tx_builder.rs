use vstd::prelude::*;
use crate::order_manager::OrderInstruction;

verus! {

/// Largest message, in bytes, that one transaction may carry.
pub const MAX_MESSAGE_LEN: usize = 1000;

/// The instructions gathered for the next transaction.
pub struct FastTxnBuilder {
    pub ixs: Vec<OrderInstruction>,
}

impl FastTxnBuilder {
    pub fn new() -> (r: FastTxnBuilder)
        ensures
            r.ixs@.len() == 0,
    {
        FastTxnBuilder { ixs: Vec::new() }
    }

    pub fn len(&self) -> (r: usize)
        ensures
            r == self.ixs@.len(),
    {
        self.ixs.len()
    }

    pub fn add(&mut self, ix: OrderInstruction)
        ensures
            final(self).ixs@ == old(self).ixs@.push(ix),
    {
        self.ixs.push(ix);
    }

    pub fn clear(&mut self)
        ensures
            final(self).ixs@.len() == 0,
    {
        self.ixs.clear();
    }
}

/// Packs instructions into transactions in submission order: an instruction
/// joins the pending transaction unless the message would then exceed
/// `MAX_MESSAGE_LEN`, in which case the pending transaction is handed out to be
/// sent and the instruction starts the next one.
pub struct TxnPacker {
    pub builder: FastTxnBuilder,
}

impl TxnPacker {
    pub fn new() -> (r: TxnPacker)
        ensures
            r.builder.ixs@.len() == 0,
    {
        TxnPacker { builder: FastTxnBuilder::new() }
    }

    /// Offers the next instruction; `message_len` is the length of the message
    /// of the pending instructions with `ix` added, as the signer measures it.
    /// Returns the transaction to send first, if the pending one is full.
    pub fn offer(&mut self, ix: OrderInstruction, message_len: usize) -> (r: Option<Vec<OrderInstruction>>)
        ensures
            old(self).builder.ixs@.len() > 0 && message_len > MAX_MESSAGE_LEN ==> r is Some && r.unwrap()@
                == old(self).builder.ixs@ && final(self).builder.ixs@ == seq![ix],
            !(old(self).builder.ixs@.len() > 0 && message_len > MAX_MESSAGE_LEN) ==> r is None
                && final(self).builder.ixs@ == old(self).builder.ixs@.push(ix),
    {
        if self.builder.len() > 0 && message_len > MAX_MESSAGE_LEN {
            let mut full: Vec<OrderInstruction> = Vec::new();
            std::mem::swap(&mut full, &mut self.builder.ixs);
            self.builder.add(ix);
            proof {
                assert(self.builder.ixs@ =~= seq![ix]);
            }
            Some(full)
        } else {
            self.builder.add(ix);
            None
        }
    }

    /// Hands out the last transaction, if any instruction is pending.
    pub fn finish(&mut self) -> (r: Option<Vec<OrderInstruction>>)
        ensures
            r is Some <==> old(self).builder.ixs@.len() > 0,
            r is Some ==> r.unwrap()@ == old(self).builder.ixs@,
            final(self).builder.ixs@.len() == 0,
    {
        let mut last: Vec<OrderInstruction> = Vec::new();
        std::mem::swap(&mut last, &mut self.builder.ixs);
        if last.len() > 0 {
            Some(last)
        } else {
            None
        }
    }
}

} // verus!
