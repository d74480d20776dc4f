use vstd::prelude::*;
use vstd::string::StringExecFns;
use crate::chain::ChainOfThought;
use crate::num::hex_of;

verus! {

// ---------------------------------------------------------------------------
// Mock minting
// ---------------------------------------------------------------------------

pub proof fn lemma_hex_of_len(b: Seq<u8>)
    ensures
        hex_of(b).len() == 2 * b.len(),
    decreases b.len(),
{
    if b.len() > 0 {
        lemma_hex_of_len(b.drop_last());
        crate::num::lemma_hex_str_fixed_len(b.last() as int, 2);
    }
}

fn random_bytes(count: usize) -> (b: Vec<u8>)
    ensures
        b@.len() == count,
{
    let mut b: Vec<u8> = Vec::new();
    for i in 0..count
        invariant
            b@.len() == i,
    {
        let byte: u8 = rand::random();
        b.push(byte);
    }
    b
}

impl ChainOfThought {
    /// Mock minting: a content identifier in the shape `Qm` plus 32 hex
    /// digits of 16 fresh random bytes, and a transaction reference in the
    /// shape `0x` plus 64 hex digits of 32 fresh random bytes. No real
    /// storage or ledger is touched, and the chain itself is not changed.
    pub fn generate_dream_nft(&self) -> (r: (String, String))
        ensures
            r.0@.len() == 34,
            r.1@.len() == 66,
            exists|b: Seq<u8>| b.len() == 16 && r.0@ == "Qm"@ + hex_of(b),
            exists|b: Seq<u8>| b.len() == 32 && r.1@ == "0x"@ + hex_of(b),
    {
        let cid_bytes = random_bytes(16);
        let cid_hex = crate::trusted::hex_lower(&cid_bytes);
        let cid = String::from_str("Qm").concat(cid_hex.as_str());
        let tx_bytes = random_bytes(32);
        let tx_hex = crate::trusted::hex_lower(&tx_bytes);
        let tx = String::from_str("0x").concat(tx_hex.as_str());
        proof {
            reveal_strlit("Qm");
            reveal_strlit("0x");
            lemma_hex_of_len(cid_bytes@);
            lemma_hex_of_len(tx_bytes@);
            assert(cid@ == "Qm"@ + hex_of(cid_bytes@));
            assert(tx@ == "0x"@ + hex_of(tx_bytes@));
        }
        (cid, tx)
    }
}

} // verus!
