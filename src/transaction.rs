//! A transfer of an amount from one account to another.
use vstd::prelude::*;
use crate::encoding::{be_bytes_u64, push_all, push_be_u64};
use crate::hashable::Hashable;
use vstd::utf8::encode_utf8;

verus! {

/// A transfer of `amount` from `sender` to `receiver`.
pub struct Transaction {
    pub sender: String,
    pub receiver: String,
    pub amount: u64,
}

/// The sender's UTF-8 bytes, the receiver's UTF-8 bytes, then the amount as
/// eight big-endian bytes; no length prefixes.
pub open spec fn transaction_encoding(t: Transaction) -> Seq<u8> {
    encode_utf8(t.sender@) + encode_utf8(t.receiver@) + be_bytes_u64(t.amount)
}

impl Transaction {
    /// A transaction of `amount` from `s` to `r`.
    pub fn new(s: &str, r: &str, amount: u64) -> (t: Transaction)
        ensures
            t.sender@ == s@,
            t.receiver@ == r@,
            t.amount == amount,
    {
        Transaction { sender: s.to_owned(), receiver: r.to_owned(), amount }
    }
}

impl Hashable for Transaction {
    open spec fn encoding(&self) -> Seq<u8> {
        transaction_encoding(*self)
    }

    fn bytes(&self) -> (r: Vec<u8>) {
        let mut v: Vec<u8> = Vec::new();
        push_all(&mut v, self.sender.as_str().as_bytes());
        push_all(&mut v, self.receiver.as_str().as_bytes());
        push_be_u64(&mut v, self.amount);
        assert(self.encoding() == transaction_encoding(*self));
        v
    }
}

} // verus!
