use vstd::prelude::*;

verus! {

/// A signature together with the hash-type flag that tells which parts of
/// a transaction it commits to; on the wire the flag byte precedes the
/// signature bytes.
pub struct TransactionSignature {
    hash_type: u8,
    sig_buf: Vec<u8>,
}

impl TransactionSignature {
    pub const SIGHASH_ALL: u8 = 0x01;

    pub const SIGHASH_NONE: u8 = 0x02;

    pub const SIGHASH_SINGLE: u8 = 0x03;

    pub const SIGHASH_ANYONECANPAY: u8 = 0x80;

    /// The hash-type flag.
    pub closed spec fn hash_type_spec(self) -> u8 {
        self.hash_type
    }

    /// The signature bytes.
    pub closed spec fn sig_buf_spec(self) -> Seq<u8> {
        self.sig_buf@
    }

    pub fn new(hash_type: u8, sig_buf: Vec<u8>) -> (r: Self)
        ensures
            r.hash_type_spec() == hash_type,
            r.sig_buf_spec() == sig_buf@,
    {
        Self { hash_type, sig_buf }
    }

    /// Serializes as the flag byte followed by the signature bytes.
    pub fn to_u8_vec(&self) -> (r: Vec<u8>)
        ensures
            r@ == seq![self.hash_type_spec()] + self.sig_buf_spec(),
    {
        let mut result: Vec<u8> = Vec::new();
        result.push(self.hash_type);
        let mut i: usize = 0;
        while i < self.sig_buf.len()
            invariant
                i <= self.sig_buf@.len(),
                result@ == seq![self.hash_type_spec()] + self.sig_buf@.subrange(0, i as int),
            decreases self.sig_buf@.len() - i,
        {
            result.push(self.sig_buf[i]);
            i = i + 1;
            proof {
                assert(result@ =~= seq![self.hash_type_spec()] + self.sig_buf@.subrange(
                    0,
                    i as int,
                ));
            }
        }
        proof {
            assert(result@ =~= seq![self.hash_type_spec()] + self.sig_buf_spec());
        }
        result
    }
}

} // verus!
