//! Script decoder: parses a raw output script into a semantic spending
//! destination. Decoding is total: malformed scripts degrade to `Unknown`,
//! they never abort indexing.

use vstd::prelude::*;

verus! {

/// Which textual namespace an address is rendered under. The same pubkey
/// hash is encoded differently depending on whether the output carries a
/// token; this is a presentation choice propagated from token classification.
#[derive(Debug, Clone, Copy, PartialEq, Eq, Structural)]
pub enum AddrPrefix {
    BaseCurrency,
    Token,
}

/// The standard script template an address payload was found in.
#[derive(Debug, Clone, Copy, PartialEq, Eq, Structural)]
pub enum AddressType {
    P2PKH,
    P2SH,
}

/// The semantic spending destination of an output script.
#[derive(Debug, Clone)]
pub enum Destination {
    /// A standard pay-to-pubkey-hash or pay-to-script-hash template; `hash`
    /// is the 20-byte payload.
    Address { prefix: AddrPrefix, kind: AddressType, hash: Vec<u8> },
    /// A data-carrier script (leading OP_RETURN); holds the bytes after the
    /// marker opcode.
    Nulldata(Vec<u8>),
    /// Anything else, including malformed scripts; holds the raw bytes.
    Unknown(Vec<u8>),
}

/// OP_DUP OP_HASH160 <20 bytes> OP_EQUALVERIFY OP_CHECKSIG
pub open spec fn is_p2pkh(s: Seq<u8>) -> bool {
    s.len() == 25 && s[0] == 0x76 && s[1] == 0xa9 && s[2] == 0x14 && s[23] == 0x88 && s[24]
        == 0xac
}

/// OP_HASH160 <20 bytes> OP_EQUAL
pub open spec fn is_p2sh(s: Seq<u8>) -> bool {
    s.len() == 23 && s[0] == 0xa9 && s[1] == 0x14 && s[22] == 0x87
}

/// A data-carrier script: begins with OP_RETURN.
pub open spec fn is_nulldata(s: Seq<u8>) -> bool {
    s.len() >= 1 && s[0] == 0x6a
}

/// The 20-byte address payload of a standard script.
pub open spec fn spec_addr_hash(s: Seq<u8>) -> Seq<u8> {
    if is_p2pkh(s) {
        s.subrange(3, 23)
    } else {
        s.subrange(2, 22)
    }
}

/// Copies `v[from..to]` into a fresh vector.
pub fn copy_range(v: &[u8], from: usize, to: usize) -> (r: Vec<u8>)
    requires
        from <= to <= v@.len(),
    ensures
        r@ == v@.subrange(from as int, to as int),
{
    let mut out: Vec<u8> = Vec::new();
    let mut i: usize = from;
    while i < to
        invariant
            from <= i <= to <= v@.len(),
            out@ == v@.subrange(from as int, i as int),
        decreases to - i,
    {
        out.push(v[i]);
        assert(out@ =~= v@.subrange(from as int, i + 1 as int));
        i += 1;
    }
    out
}

/// Decodes a raw output script into its spending destination under the given
/// address prefix. Total: every byte sequence decodes to exactly one of the
/// three destinations, an empty or malformed script to `Unknown`.
pub fn destination_from_script(prefix: AddrPrefix, script: &[u8]) -> (r: Destination)
    ensures
        is_p2pkh(script@) ==> (r matches Destination::Address { prefix: p, kind, hash }
            && p == prefix && kind == AddressType::P2PKH && hash@ == spec_addr_hash(script@)),
        !is_p2pkh(script@) && is_p2sh(script@) ==> (r matches Destination::Address {
            prefix: p,
            kind,
            hash,
        } && p == prefix && kind == AddressType::P2SH && hash@ == spec_addr_hash(script@)),
        !is_p2pkh(script@) && !is_p2sh(script@) && is_nulldata(script@) ==> (r matches
            Destination::Nulldata(d) && d@ == script@.subrange(1, script@.len() as int)),
        !is_p2pkh(script@) && !is_p2sh(script@) && !is_nulldata(script@) ==> (r matches
            Destination::Unknown(b) && b@ == script@),
{
    if script.len() == 25 && script[0] == 0x76 && script[1] == 0xa9 && script[2] == 0x14
        && script[23] == 0x88 && script[24] == 0xac {
        let hash = copy_range(script, 3, 23);
        Destination::Address { prefix, kind: AddressType::P2PKH, hash }
    } else if script.len() == 23 && script[0] == 0xa9 && script[1] == 0x14 && script[22] == 0x87 {
        let hash = copy_range(script, 2, 22);
        Destination::Address { prefix, kind: AddressType::P2SH, hash }
    } else if script.len() >= 1 && script[0] == 0x6a {
        Destination::Nulldata(copy_range(script, 1, script.len()))
    } else {
        let raw = copy_range(script, 0, script.len());
        assert(raw@ =~= script@);
        Destination::Unknown(raw)
    }
}

/// The index key an output script files under: a type byte followed by the
/// 20-byte payload for standard scripts, nothing for the rest. Outputs whose
/// script has no key are outside the indexed address scope.
pub open spec fn spec_addr_key(s: Seq<u8>) -> Option<Seq<u8>> {
    if is_p2pkh(s) {
        Some(seq![0u8] + s.subrange(3, 23))
    } else if is_p2sh(s) {
        Some(seq![5u8] + s.subrange(2, 22))
    } else {
        None
    }
}

/// Computes the address index key of an output script.
pub fn addr_key(script: &[u8]) -> (r: Option<Vec<u8>>)
    ensures
        match r {
            Some(k) => spec_addr_key(script@) == Some(k@),
            None => spec_addr_key(script@) is None,
        },
{
    if script.len() == 25 && script[0] == 0x76 && script[1] == 0xa9 && script[2] == 0x14
        && script[23] == 0x88 && script[24] == 0xac {
        let mut key: Vec<u8> = Vec::new();
        key.push(0u8);
        let hash = copy_range(script, 3, 23);
        let mut i: usize = 0;
        while i < hash.len()
            invariant
                0 <= i <= hash@.len(),
                hash@ == script@.subrange(3, 23),
                key@ == seq![0u8] + hash@.subrange(0, i as int),
            decreases hash@.len() - i,
        {
            key.push(hash[i]);
            assert(key@ =~= seq![0u8] + hash@.subrange(0, i + 1 as int));
            i += 1;
        }
        assert(key@ =~= seq![0u8] + script@.subrange(3, 23));
        Some(key)
    } else if script.len() == 23 && script[0] == 0xa9 && script[1] == 0x14 && script[22] == 0x87 {
        let mut key: Vec<u8> = Vec::new();
        key.push(5u8);
        let hash = copy_range(script, 2, 22);
        let mut i: usize = 0;
        while i < hash.len()
            invariant
                0 <= i <= hash@.len(),
                hash@ == script@.subrange(2, 22),
                key@ == seq![5u8] + hash@.subrange(0, i as int),
            decreases hash@.len() - i,
        {
            key.push(hash[i]);
            assert(key@ =~= seq![5u8] + hash@.subrange(0, i + 1 as int));
            i += 1;
        }
        assert(key@ =~= seq![5u8] + script@.subrange(2, 22));
        Some(key)
    } else {
        None
    }
}

} // verus!
