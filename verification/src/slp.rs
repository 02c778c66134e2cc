//! Token overlay protocol: parsing the data-carrier message and classifying
//! a transaction as plain, valid-token or invalid-token. Any malformed or
//! ambiguous protocol message degrades to the invalid variant, never to an
//! error, so that broken messages cannot inflate a token's supply.

use vstd::prelude::*;

use crate::bytes_eq;
use crate::primitives::{SlpAction, TxMetaVariant, TxMetaVariantV};
use crate::script::copy_range;

verus! {

/// Parses a script suffix as a sequence of data pushes. Accepts the four
/// push encodings (direct length 1..=75, and the one-, two- and four-byte
/// length prefixes); any other opcode makes the whole sequence unreadable.
pub open spec fn spec_parse_pushes(s: Seq<u8>) -> Option<Seq<Seq<u8>>>
    decreases s.len(),
{
    if s.len() == 0 {
        Some(Seq::empty())
    } else {
        let op = s[0];
        if 1 <= op <= 0x4b {
            let n = op as int;
            if s.len() >= 1 + n {
                match spec_parse_pushes(s.skip(1 + n)) {
                    None => None,
                    Some(r) => Some(seq![s.subrange(1, 1 + n)] + r),
                }
            } else {
                None
            }
        } else if op == 0x4c {
            if s.len() >= 2 && s.len() >= 2 + s[1] {
                let n = s[1] as int;
                match spec_parse_pushes(s.skip(2 + n)) {
                    None => None,
                    Some(r) => Some(seq![s.subrange(2, 2 + n)] + r),
                }
            } else {
                None
            }
        } else if op == 0x4d {
            if s.len() >= 3 && s.len() >= 3 + s[1] + 256 * s[2] {
                let n = s[1] + 256 * s[2];
                match spec_parse_pushes(s.skip(3 + n)) {
                    None => None,
                    Some(r) => Some(seq![s.subrange(3, 3 + n)] + r),
                }
            } else {
                None
            }
        } else if op == 0x4e {
            if s.len() >= 5 && s.len() >= 5 + s[1] + 256 * s[2] + 65536 * s[3] + 16777216 * s[4] {
                let n = s[1] + 256 * s[2] + 65536 * s[3] + 16777216 * s[4];
                match spec_parse_pushes(s.skip(5 + n)) {
                    None => None,
                    Some(r) => Some(seq![s.subrange(5, 5 + n)] + r),
                }
            } else {
                None
            }
        } else {
            None
        }
    }
}

/// Reads the pushes of `s` front to back.
#[verifier::rlimit(60)]
pub fn parse_pushes(s: &[u8]) -> (r: Option<Vec<Vec<u8>>>)
    ensures
        match r {
            Some(ps) => spec_parse_pushes(s@) == Some(ps.deep_view()),
            None => spec_parse_pushes(s@) is None,
        },
{
    let mut out: Vec<Vec<u8>> = Vec::new();
    let mut i: usize = 0;
    assert(s@.skip(0) =~= s@);
    while i < s.len()
        invariant
            0 <= i <= s@.len(),
            spec_parse_pushes(s@) == (match spec_parse_pushes(s@.skip(i as int)) {
                None => None::<Seq<Seq<u8>>>,
                Some(r) => Some(out.deep_view() + r),
            }),
        decreases s@.len() - i,
    {
        let ghost prev = out.deep_view();
        let op = s[i];
        let rem = s.len() - i;
        let lo: usize;
        let n: usize;
        if 1 <= op && op <= 0x4b {
            n = op as usize;
            if rem < 1 + n {
                return None;
            }
            lo = i + 1;
        } else if op == 0x4c {
            if rem < 2 {
                return None;
            }
            n = s[i + 1] as usize;
            if rem < 2 + n {
                return None;
            }
            lo = i + 2;
        } else if op == 0x4d {
            if rem < 3 {
                return None;
            }
            n = s[i + 1] as usize + 256 * (s[i + 2] as usize);
            if rem < 3 + n {
                return None;
            }
            lo = i + 3;
        } else if op == 0x4e {
            if rem < 5 {
                return None;
            }
            let n64: u64 = s[i + 1] as u64 + 256 * (s[i + 2] as u64) + 65536 * (s[i + 3] as u64)
                + 16777216 * (s[i + 4] as u64);
            if ((rem - 5) as u64) < n64 {
                return None;
            }
            n = n64 as usize;
            lo = i + 5;
        } else {
            return None;
        }
        let data = copy_range(s, lo, lo + n);
        out.push(data);
        proof {
            let tail = s@.skip(i as int);
            assert(tail[0] == s@[i as int]);
            assert(tail.subrange((lo - i) as int, (lo - i + n) as int) =~= s@.subrange(
                lo as int,
                (lo + n) as int,
            ));
            assert(tail.skip((lo - i + n) as int) =~= s@.skip((lo + n) as int));
            assert(out.deep_view() =~~= prev.push(s@.subrange(lo as int, (lo + n) as int)));
            if let Some(r2) = spec_parse_pushes(s@.skip((lo + n) as int)) {
                assert(prev + (seq![s@.subrange(lo as int, (lo + n) as int)] + r2) =~~= out.deep_view()
                    + r2);
            }
        }
        i = lo + n;
    }
    assert(s@.skip(i as int) =~= Seq::<u8>::empty());
    assert(out.deep_view() + Seq::<Seq<u8>>::empty() =~= out.deep_view());
    Some(out)
}

/// The protocol identifier carried in the first push: "SLP" then a zero byte.
pub open spec fn lokad_id() -> Seq<u8> {
    seq![0x53u8, 0x4cu8, 0x50u8, 0x00u8]
}

/// "GENESIS"
pub open spec fn genesis_bytes() -> Seq<u8> {
    seq![0x47u8, 0x45u8, 0x4eu8, 0x45u8, 0x53u8, 0x49u8, 0x53u8]
}

/// "MINT"
pub open spec fn mint_bytes() -> Seq<u8> {
    seq![0x4du8, 0x49u8, 0x4eu8, 0x54u8]
}

/// "SEND"
pub open spec fn send_bytes() -> Seq<u8> {
    seq![0x53u8, 0x45u8, 0x4eu8, 0x44u8]
}

/// A 64-bit amount field, big endian.
pub open spec fn be64(s: Seq<u8>) -> u64
    recommends
        s.len() == 8,
{
    (s[0] * 0x100000000000000 + s[1] * 0x1000000000000 + s[2] * 0x10000000000 + s[3] * 0x100000000
        + s[4] * 0x1000000 + s[5] * 0x10000 + s[6] * 0x100 + s[7]) as u64
}

/// Reads a big-endian 64-bit amount.
pub fn be64_bytes(b: &[u8]) -> (r: u64)
    requires
        b@.len() == 8,
    ensures
        r == be64(b@),
{
    (b[0] as u64) * 0x100000000000000 + (b[1] as u64) * 0x1000000000000 + (b[2] as u64)
        * 0x10000000000 + (b[3] as u64) * 0x100000000 + (b[4] as u64) * 0x1000000 + (b[5] as u64)
        * 0x10000 + (b[6] as u64) * 0x100 + (b[7] as u64)
}

/// A parsed protocol message.
#[derive(Debug, Clone)]
pub struct SlpMessage {
    pub token_type: u32,
    pub action: SlpAction,
    /// Declared token id: 32 bytes for MINT/SEND, empty for GENESIS (a
    /// genesis transaction's token id is its own hash).
    pub token_id: Vec<u8>,
    /// Declared per-output amounts of a SEND, for outputs 1 onward.
    pub amounts: Vec<u64>,
    /// Initial quantity of a GENESIS, minted quantity of a MINT.
    pub qty: u64,
    pub baton_vout: Option<u32>,
    pub ticker: Vec<u8>,
    pub name: Vec<u8>,
    pub doc_url: Vec<u8>,
    pub doc_hash: Vec<u8>,
    pub decimals: u32,
}

/// Mathematical image of `SlpMessage`.
pub struct SlpMsgV {
    pub token_type: u32,
    pub action: SlpAction,
    pub token_id: Seq<u8>,
    pub amounts: Seq<u64>,
    pub qty: u64,
    pub baton_vout: Option<u32>,
    pub ticker: Seq<u8>,
    pub name: Seq<u8>,
    pub doc_url: Seq<u8>,
    pub doc_hash: Seq<u8>,
    pub decimals: u32,
}

impl View for SlpMessage {
    type V = SlpMsgV;

    open spec fn view(&self) -> SlpMsgV {
        SlpMsgV {
            token_type: self.token_type,
            action: self.action,
            token_id: self.token_id@,
            amounts: self.amounts@,
            qty: self.qty,
            baton_vout: self.baton_vout,
            ticker: self.ticker@,
            name: self.name@,
            doc_url: self.doc_url@,
            doc_hash: self.doc_hash@,
            decimals: self.decimals,
        }
    }
}

/// Outcome of reading a transaction's data-carrier output.
#[derive(Debug, Clone)]
pub enum SlpParse {
    /// No readable protocol marker: the transaction is plain.
    NotSlp,
    /// A protocol marker with a malformed message; carries the declared
    /// token id as far as one could be read.
    Invalid { token_id: Vec<u8> },
    Valid(SlpMessage),
}

/// Mathematical image of `SlpParse`.
pub enum SlpParseV {
    NotSlp,
    Invalid { token_id: Seq<u8> },
    Valid(SlpMsgV),
}

impl View for SlpParse {
    type V = SlpParseV;

    open spec fn view(&self) -> SlpParseV {
        match self {
            SlpParse::NotSlp => SlpParseV::NotSlp,
            SlpParse::Invalid { token_id } => SlpParseV::Invalid { token_id: token_id@ },
            SlpParse::Valid(m) => SlpParseV::Valid(m@),
        }
    }
}

/// A mint-baton field: absent, or one byte designating output 2 or later.
pub open spec fn valid_baton_field(f: Seq<u8>) -> bool {
    f.len() == 0 || (f.len() == 1 && f[0] >= 2)
}

pub open spec fn baton_of(f: Seq<u8>) -> Option<u32> {
    if f.len() == 1 {
        Some(f[0] as u32)
    } else {
        None
    }
}

/// The token id a malformed MINT/SEND message declared, as far as readable.
pub open spec fn declared_tid(fields: Seq<Seq<u8>>) -> Seq<u8> {
    if fields.len() >= 4 && fields[3].len() == 32 {
        fields[3]
    } else {
        Seq::empty()
    }
}

pub open spec fn genesis_action(tt: u32) -> SlpAction {
    if tt == 1 {
        SlpAction::SlpV1Genesis
    } else if tt == 0x81 {
        SlpAction::SlpNft1GroupGenesis
    } else {
        SlpAction::SlpNft1UniqueChildGenesis
    }
}

pub open spec fn mint_action(tt: u32) -> SlpAction {
    if tt == 1 {
        SlpAction::SlpV1Mint
    } else {
        SlpAction::SlpNft1GroupMint
    }
}

pub open spec fn send_action(tt: u32) -> SlpAction {
    if tt == 1 {
        SlpAction::SlpV1Send
    } else if tt == 0x81 {
        SlpAction::SlpNft1GroupSend
    } else {
        SlpAction::SlpNft1UniqueChildSend
    }
}

/// Interprets the pushes of a message whose first field is the protocol id.
pub open spec fn spec_interpret(fields: Seq<Seq<u8>>) -> SlpParseV {
    if fields.len() < 3 {
        SlpParseV::Invalid { token_id: Seq::empty() }
    } else if !(fields[1].len() == 1 || fields[1].len() == 2) {
        SlpParseV::Invalid { token_id: Seq::empty() }
    } else {
        let tt: u32 = if fields[1].len() == 1 {
            fields[1][0] as u32
        } else {
            (fields[1][0] * 0x100 + fields[1][1]) as u32
        };
        if tt != 1 && tt != 0x41 && tt != 0x81 {
            SlpParseV::Invalid { token_id: Seq::empty() }
        } else if fields[2] == genesis_bytes() {
            if fields.len() == 10 && (fields[6].len() == 0 || fields[6].len() == 32) && fields[7].len()
                == 1 && fields[7][0] <= 9 && valid_baton_field(fields[8]) && fields[9].len() == 8 {
                SlpParseV::Valid(
                    SlpMsgV {
                        token_type: tt,
                        action: genesis_action(tt),
                        token_id: Seq::empty(),
                        amounts: Seq::empty(),
                        qty: be64(fields[9]),
                        baton_vout: baton_of(fields[8]),
                        ticker: fields[3],
                        name: fields[4],
                        doc_url: fields[5],
                        doc_hash: fields[6],
                        decimals: fields[7][0] as u32,
                    },
                )
            } else {
                SlpParseV::Invalid { token_id: Seq::empty() }
            }
        } else if fields[2] == mint_bytes() {
            if tt == 0x41 {
                SlpParseV::Invalid { token_id: declared_tid(fields) }
            } else if fields.len() == 6 && fields[3].len() == 32 && valid_baton_field(fields[4])
                && fields[5].len() == 8 {
                SlpParseV::Valid(
                    SlpMsgV {
                        token_type: tt,
                        action: mint_action(tt),
                        token_id: fields[3],
                        amounts: Seq::empty(),
                        qty: be64(fields[5]),
                        baton_vout: baton_of(fields[4]),
                        ticker: Seq::empty(),
                        name: Seq::empty(),
                        doc_url: Seq::empty(),
                        doc_hash: Seq::empty(),
                        decimals: 0,
                    },
                )
            } else {
                SlpParseV::Invalid { token_id: declared_tid(fields) }
            }
        } else if fields[2] == send_bytes() {
            if 5 <= fields.len() <= 23 && fields[3].len() == 32 && (forall|i: int|
                4 <= i < fields.len() ==> (#[trigger] fields[i]).len() == 8) {
                SlpParseV::Valid(
                    SlpMsgV {
                        token_type: tt,
                        action: send_action(tt),
                        token_id: fields[3],
                        amounts: Seq::new((fields.len() - 4) as nat, |i: int| be64(fields[i + 4])),
                        qty: 0,
                        baton_vout: None,
                        ticker: Seq::empty(),
                        name: Seq::empty(),
                        doc_url: Seq::empty(),
                        doc_hash: Seq::empty(),
                        decimals: 0,
                    },
                )
            } else {
                SlpParseV::Invalid { token_id: declared_tid(fields) }
            }
        } else {
            SlpParseV::Invalid { token_id: Seq::empty() }
        }
    }
}

/// Copies a byte vector.
pub fn clone_bytes(v: &Vec<u8>) -> (r: Vec<u8>)
    ensures
        r@ == v@,
{
    let r = copy_range(v.as_slice(), 0, v.len());
    assert(r@ =~= v@);
    r
}

/// Every element of a vector-of-vectors view agrees with its deep view.
proof fn deep_view_elems(v: Vec<Vec<u8>>)
    ensures
        v.deep_view().len() == v@.len(),
        forall|k: int| 0 <= k < v@.len() ==> #[trigger] v.deep_view()[k] == v@[k]@,
{
    assert forall|k: int| 0 <= k < v@.len() implies #[trigger] v.deep_view()[k] == v@[k]@ by {
        assert(v.deep_view()[k] =~= v@[k]@);
    }
}

/// Interprets the pushes of a message whose first field is the protocol id.
pub fn interpret(fields: &Vec<Vec<u8>>) -> (r: SlpParse)
    ensures
        r@ == spec_interpret(fields.deep_view()),
{
    proof {
        deep_view_elems(*fields);
    }
    let ghost fs = fields.deep_view();
    if fields.len() < 3 {
        return SlpParse::Invalid { token_id: Vec::new() };
    }
    let tf = &fields[1];
    if !(tf.len() == 1 || tf.len() == 2) {
        return SlpParse::Invalid { token_id: Vec::new() };
    }
    let tt: u32 = if tf.len() == 1 {
        tf[0] as u32
    } else {
        (tf[0] as u32) * 0x100 + (tf[1] as u32)
    };
    if tt != 1 && tt != 0x41 && tt != 0x81 {
        return SlpParse::Invalid { token_id: Vec::new() };
    }
    // the declared token id of a malformed MINT/SEND, as far as readable
    let tid: Vec<u8> = if fields.len() >= 4 && fields[3].len() == 32 {
        clone_bytes(&fields[3])
    } else {
        Vec::new()
    };
    assert(tid@ == declared_tid(fs));
    let act = &fields[2];
    let is_genesis = act.len() == 7 && act[0] == 0x47 && act[1] == 0x45 && act[2] == 0x4e && act[3]
        == 0x45 && act[4] == 0x53 && act[5] == 0x49 && act[6] == 0x53;
    let is_mint = act.len() == 4 && act[0] == 0x4d && act[1] == 0x49 && act[2] == 0x4e && act[3]
        == 0x54;
    let is_send = act.len() == 4 && act[0] == 0x53 && act[1] == 0x45 && act[2] == 0x4e && act[3]
        == 0x44;
    proof {
        if is_genesis {
            assert(fs[2] =~= genesis_bytes());
        }
        if is_mint {
            assert(fs[2] =~= mint_bytes());
        }
        if is_send {
            assert(fs[2] =~= send_bytes());
        }
        assert(is_genesis <==> fs[2] == genesis_bytes());
        assert(is_mint <==> fs[2] == mint_bytes());
        assert(is_send <==> fs[2] == send_bytes());
    }
    if is_genesis {
        if fields.len() == 10 && (fields[6].len() == 0 || fields[6].len() == 32) && fields[7].len()
            == 1 && fields[7][0] <= 9 && (fields[8].len() == 0 || (fields[8].len() == 1
            && fields[8][0] >= 2)) && fields[9].len() == 8 {
            let baton_vout: Option<u32> = if fields[8].len() == 1 {
                Some(fields[8][0] as u32)
            } else {
                None
            };
            SlpParse::Valid(
                SlpMessage {
                    token_type: tt,
                    action: if tt == 1 {
                        SlpAction::SlpV1Genesis
                    } else if tt == 0x81 {
                        SlpAction::SlpNft1GroupGenesis
                    } else {
                        SlpAction::SlpNft1UniqueChildGenesis
                    },
                    token_id: Vec::new(),
                    amounts: Vec::new(),
                    qty: be64_bytes(fields[9].as_slice()),
                    baton_vout,
                    ticker: clone_bytes(&fields[3]),
                    name: clone_bytes(&fields[4]),
                    doc_url: clone_bytes(&fields[5]),
                    doc_hash: clone_bytes(&fields[6]),
                    decimals: fields[7][0] as u32,
                },
            )
        } else {
            SlpParse::Invalid { token_id: Vec::new() }
        }
    } else if is_mint {
        if tt == 0x41 {
            SlpParse::Invalid { token_id: tid }
        } else if fields.len() == 6 && fields[3].len() == 32 && (fields[4].len() == 0 || (
        fields[4].len() == 1 && fields[4][0] >= 2)) && fields[5].len() == 8 {
            let baton_vout: Option<u32> = if fields[4].len() == 1 {
                Some(fields[4][0] as u32)
            } else {
                None
            };
            SlpParse::Valid(
                SlpMessage {
                    token_type: tt,
                    action: if tt == 1 {
                        SlpAction::SlpV1Mint
                    } else {
                        SlpAction::SlpNft1GroupMint
                    },
                    token_id: tid,
                    amounts: Vec::new(),
                    qty: be64_bytes(fields[5].as_slice()),
                    baton_vout,
                    ticker: Vec::new(),
                    name: Vec::new(),
                    doc_url: Vec::new(),
                    doc_hash: Vec::new(),
                    decimals: 0,
                },
            )
        } else {
            SlpParse::Invalid { token_id: tid }
        }
    } else if is_send {
        if 5 <= fields.len() && fields.len() <= 23 && fields[3].len() == 32 {
            let mut amounts: Vec<u64> = Vec::new();
            let mut j: usize = 4;
            let mut all8 = true;
            while j < fields.len() && all8
                invariant
                    4 <= j <= fields@.len(),
                    fields@.len() == fs.len(),
                    forall|k: int| 0 <= k < fs.len() ==> #[trigger] fs[k] == fields@[k]@,
                    all8 ==> forall|k: int| 4 <= k < j ==> (#[trigger] fs[k]).len() == 8,
                    all8 ==> amounts@ == Seq::new((j - 4) as nat, |i: int| be64(fs[i + 4])),
                    !all8 ==> exists|k: int| 4 <= k < fs.len() && (#[trigger] fs[k]).len() != 8,
                decreases fields@.len() - j,
            {
                if fields[j].len() != 8 {
                    all8 = false;
                    assert(4 <= j < fs.len() && fs[j as int].len() != 8);
                } else {
                    let a = be64_bytes(fields[j].as_slice());
                    amounts.push(a);
                    assert(amounts@ =~= Seq::new((j + 1 - 4) as nat, |i: int| be64(fs[i + 4])));
                }
                j += 1;
            }
            if all8 {
                assert(amounts@ =~= Seq::new((fs.len() - 4) as nat, |i: int| be64(fs[i + 4])));
                SlpParse::Valid(
                    SlpMessage {
                        token_type: tt,
                        action: if tt == 1 {
                            SlpAction::SlpV1Send
                        } else if tt == 0x81 {
                            SlpAction::SlpNft1GroupSend
                        } else {
                            SlpAction::SlpNft1UniqueChildSend
                        },
                        token_id: tid,
                        amounts,
                        qty: 0,
                        baton_vout: None,
                        ticker: Vec::new(),
                        name: Vec::new(),
                        doc_url: Vec::new(),
                        doc_hash: Vec::new(),
                        decimals: 0,
                    },
                )
            } else {
                SlpParse::Invalid { token_id: tid }
            }
        } else {
            SlpParse::Invalid { token_id: tid }
        }
    } else {
        SlpParse::Invalid { token_id: Vec::new() }
    }
}

/// Reads a whole output script as a protocol message: a data-carrier marker,
/// then pushes whose first field is the protocol id.
pub open spec fn spec_parse_slp(s: Seq<u8>) -> SlpParseV {
    if !(s.len() >= 1 && s[0] == 0x6a) {
        SlpParseV::NotSlp
    } else {
        match spec_parse_pushes(s.skip(1)) {
            None => SlpParseV::NotSlp,
            Some(fields) => if fields.len() >= 1 && fields[0] == lokad_id() {
                spec_interpret(fields)
            } else {
                SlpParseV::NotSlp
            },
        }
    }
}

/// Reads an output script as a protocol message.
pub fn parse_slp(script: &[u8]) -> (r: SlpParse)
    ensures
        r@ == spec_parse_slp(script@),
{
    if !(script.len() >= 1 && script[0] == 0x6a) {
        return SlpParse::NotSlp;
    }
    let rest = copy_range(script, 1, script.len());
    assert(rest@ =~= script@.skip(1));
    match parse_pushes(rest.as_slice()) {
        None => SlpParse::NotSlp,
        Some(fields) => {
            proof {
                deep_view_elems(fields);
            }
            let f0_ok = fields.len() >= 1 && fields[0].len() == 4 && fields[0][0] == 0x53
                && fields[0][1] == 0x4c && fields[0][2] == 0x50 && fields[0][3] == 0x00;
            proof {
                if f0_ok {
                    assert(fields.deep_view()[0] =~= lokad_id());
                }
                if fields@.len() >= 1 {
                    assert(f0_ok <==> fields.deep_view()[0] == lokad_id());
                }
            }
            if f0_ok {
                interpret(&fields)
            } else {
                SlpParse::NotSlp
            }
        },
    }
}

/// What a transaction's input carries of the token overlay, resolved from
/// the unspent output it consumes.
#[derive(Debug, Clone, Copy)]
pub struct SlpTokenInput {
    pub token_id: Option<[u8; 32]>,
    pub amount: u64,
    pub is_mint_baton: bool,
}

/// Sum of all token amounts carried by the inputs.
pub open spec fn sum_all(inputs: Seq<SlpTokenInput>) -> nat
    decreases inputs.len(),
{
    if inputs.len() == 0 {
        0
    } else {
        sum_all(inputs.drop_last()) + (inputs.last().amount as nat)
    }
}

/// Sum of the token amounts carried by inputs of the given token.
pub open spec fn sum_matching(inputs: Seq<SlpTokenInput>, tid: Seq<u8>) -> nat
    decreases inputs.len(),
{
    if inputs.len() == 0 {
        0
    } else {
        sum_matching(inputs.drop_last(), tid) + (match inputs.last().token_id {
            Some(t) => if t@ == tid {
                inputs.last().amount as nat
            } else {
                0
            },
            None => 0,
        })
    }
}

/// Sum of a SEND message's declared output amounts.
pub open spec fn sum_amounts(amounts: Seq<u64>) -> nat
    decreases amounts.len(),
{
    if amounts.len() == 0 {
        0
    } else {
        sum_amounts(amounts.drop_last()) + (amounts.last() as nat)
    }
}

/// Whether some input carries the mint baton of the given token.
pub open spec fn has_baton(inputs: Seq<SlpTokenInput>, tid: Seq<u8>) -> bool {
    exists|i: int|
        0 <= i < inputs.len() && (#[trigger] inputs[i]).is_mint_baton && (match inputs[i].token_id {
            Some(t) => t@ == tid,
            None => false,
        })
}

/// The token id of the first input carrying a positive token amount: the
/// group a freshly minted child token belongs to.
pub open spec fn first_group(inputs: Seq<SlpTokenInput>) -> Option<[u8; 32]>
    decreases inputs.len(),
{
    if inputs.len() == 0 {
        None
    } else {
        match inputs.first().token_id {
            Some(t) => if inputs.first().amount >= 1 {
                Some(t)
            } else {
                first_group(inputs.drop_first())
            },
            None => first_group(inputs.drop_first()),
        }
    }
}

/// Saturates an unbounded sum into a stored 64-bit amount.
pub open spec fn clamp_u64(n: nat) -> u64 {
    if n > u64::MAX {
        u64::MAX
    } else {
        n as u64
    }
}

/// The classification a transaction receives, given its data-carrier
/// message, the token contents of everything it spends, and its own hash.
///
/// A readable marker with a malformed message is always the invalid variant;
/// a SEND declaring more than its inputs carry is invalid; a SEND declaring
/// less burns the shortfall but stays valid; a MINT without the matching
/// baton and a child GENESIS without a group input are invalid.
pub open spec fn spec_classify(
    p: SlpParseV,
    inputs: Seq<SlpTokenInput>,
    tx_hash: Seq<u8>,
) -> TxMetaVariantV {
    match p {
        SlpParseV::NotSlp => TxMetaVariantV::SatsOnly,
        SlpParseV::Invalid { token_id } => TxMetaVariantV::InvalidSlp {
            token_id,
            token_input: clamp_u64(sum_all(inputs)),
        },
        SlpParseV::Valid(m) => match m.action {
            SlpAction::SlpV1Genesis | SlpAction::SlpNft1GroupGenesis => TxMetaVariantV::Slp {
                action: m.action,
                token_id: tx_hash,
                token_input: clamp_u64(sum_matching(inputs, tx_hash)),
                token_output: m.qty,
            },
            SlpAction::SlpNft1UniqueChildGenesis => {
                if first_group(inputs) is Some {
                    TxMetaVariantV::Slp {
                        action: m.action,
                        token_id: tx_hash,
                        token_input: clamp_u64(sum_matching(inputs, tx_hash)),
                        token_output: m.qty,
                    }
                } else {
                    TxMetaVariantV::InvalidSlp {
                        token_id: tx_hash,
                        token_input: clamp_u64(sum_all(inputs)),
                    }
                }
            },
            SlpAction::SlpV1Mint | SlpAction::SlpNft1GroupMint => {
                if has_baton(inputs, m.token_id) {
                    TxMetaVariantV::Slp {
                        action: m.action,
                        token_id: m.token_id,
                        token_input: clamp_u64(sum_matching(inputs, m.token_id)),
                        token_output: m.qty,
                    }
                } else {
                    TxMetaVariantV::InvalidSlp {
                        token_id: m.token_id,
                        token_input: clamp_u64(sum_all(inputs)),
                    }
                }
            },
            SlpAction::SlpV1Send | SlpAction::SlpNft1GroupSend
            | SlpAction::SlpNft1UniqueChildSend => {
                if sum_amounts(m.amounts) <= sum_matching(inputs, m.token_id) {
                    TxMetaVariantV::Slp {
                        action: m.action,
                        token_id: m.token_id,
                        token_input: clamp_u64(sum_matching(inputs, m.token_id)),
                        token_output: clamp_u64(sum_amounts(m.amounts)),
                    }
                } else {
                    TxMetaVariantV::InvalidSlp {
                        token_id: m.token_id,
                        token_input: clamp_u64(sum_all(inputs)),
                    }
                }
            },
        },
    }
}

/// Sums all token amounts of the inputs; exact, in a wide accumulator.
fn sum_all_exec(inputs: &Vec<SlpTokenInput>) -> (r: u128)
    ensures
        r == sum_all(inputs@),
{
    let mut acc: u128 = 0;
    let mut i: usize = 0;
    while i < inputs.len()
        invariant
            0 <= i <= inputs@.len(),
            acc == sum_all(inputs@.take(i as int)),
            acc <= i * (u64::MAX as nat),
        decreases inputs@.len() - i,
    {
        proof {
            assert(inputs@.take(i + 1).drop_last() =~= inputs@.take(i as int));
            assert(inputs@.take(i + 1).last() == inputs@[i as int]);
            assert(i * (u64::MAX as nat) + (u64::MAX as nat) == (i + 1) * (u64::MAX as nat))
                by (nonlinear_arith);
            assert((i + 1) * (u64::MAX as nat) <= usize::MAX * (u64::MAX as nat))
                by (nonlinear_arith)
                requires
                    i + 1 <= usize::MAX,
            ;
        }
        acc = acc + (inputs[i].amount as u128);
        i += 1;
    }
    assert(inputs@.take(i as int) =~= inputs@);
    acc
}

/// Sums the token amounts of inputs matching the given token id.
fn sum_matching_exec(inputs: &Vec<SlpTokenInput>, tid: &Vec<u8>) -> (r: u128)
    ensures
        r == sum_matching(inputs@, tid@),
{
    let mut acc: u128 = 0;
    let mut i: usize = 0;
    while i < inputs.len()
        invariant
            0 <= i <= inputs@.len(),
            acc == sum_matching(inputs@.take(i as int), tid@),
            acc <= i * (u64::MAX as nat),
        decreases inputs@.len() - i,
    {
        proof {
            assert(inputs@.take(i + 1).drop_last() =~= inputs@.take(i as int));
            assert(inputs@.take(i + 1).last() == inputs@[i as int]);
            assert(i * (u64::MAX as nat) + (u64::MAX as nat) == (i + 1) * (u64::MAX as nat))
                by (nonlinear_arith);
            assert((i + 1) * (u64::MAX as nat) <= usize::MAX * (u64::MAX as nat))
                by (nonlinear_arith)
                requires
                    i + 1 <= usize::MAX,
            ;
        }
        let inp = inputs[i];
        match inp.token_id {
            Some(t) => {
                if bytes_eq(t.as_slice(), tid.as_slice()) {
                    acc = acc + (inp.amount as u128);
                }
            },
            None => {},
        }
        i += 1;
    }
    assert(inputs@.take(i as int) =~= inputs@);
    acc
}

fn sum_amounts_exec(amounts: &Vec<u64>) -> (r: u128)
    ensures
        r == sum_amounts(amounts@),
{
    let mut acc: u128 = 0;
    let mut i: usize = 0;
    while i < amounts.len()
        invariant
            0 <= i <= amounts@.len(),
            acc == sum_amounts(amounts@.take(i as int)),
            acc <= i * (u64::MAX as nat),
        decreases amounts@.len() - i,
    {
        proof {
            assert(amounts@.take(i + 1).drop_last() =~= amounts@.take(i as int));
            assert(amounts@.take(i + 1).last() == amounts@[i as int]);
            assert(i * (u64::MAX as nat) + (u64::MAX as nat) == (i + 1) * (u64::MAX as nat))
                by (nonlinear_arith);
            assert((i + 1) * (u64::MAX as nat) <= usize::MAX * (u64::MAX as nat))
                by (nonlinear_arith)
                requires
                    i + 1 <= usize::MAX,
            ;
        }
        acc = acc + (amounts[i] as u128);
        i += 1;
    }
    assert(amounts@.take(i as int) =~= amounts@);
    acc
}

fn clamp_exec(n: u128) -> (r: u64)
    ensures
        r == clamp_u64(n as nat),
{
    if n > u64::MAX as u128 {
        u64::MAX
    } else {
        n as u64
    }
}

fn has_baton_exec(inputs: &Vec<SlpTokenInput>, tid: &Vec<u8>) -> (r: bool)
    ensures
        r == has_baton(inputs@, tid@),
{
    let mut i: usize = 0;
    while i < inputs.len()
        invariant
            0 <= i <= inputs@.len(),
            forall|k: int|
                0 <= k < i ==> !((#[trigger] inputs@[k]).is_mint_baton && (match inputs@[k].token_id {
                    Some(t) => t@ == tid@,
                    None => false,
                })),
        decreases inputs@.len() - i,
    {
        let inp = inputs[i];
        if inp.is_mint_baton {
            match inp.token_id {
                Some(t) => {
                    if bytes_eq(t.as_slice(), tid.as_slice()) {
                        return true;
                    }
                },
                None => {},
            }
        }
        i += 1;
    }
    false
}

pub fn first_group_exec(inputs: &Vec<SlpTokenInput>) -> (r: Option<[u8; 32]>)
    ensures
        r == first_group(inputs@),
{
    let mut i: usize = 0;
    assert(inputs@.skip(0) =~= inputs@);
    while i < inputs.len()
        invariant
            0 <= i <= inputs@.len(),
            first_group(inputs@) == first_group(inputs@.skip(i as int)),
        decreases inputs@.len() - i,
    {
        let inp = inputs[i];
        proof {
            let tail = inputs@.skip(i as int);
            assert(tail.first() == inputs@[i as int]);
            assert(tail.drop_first() =~= inputs@.skip(i + 1));
        }
        match inp.token_id {
            Some(t) => {
                if inp.amount >= 1 {
                    return Some(t);
                }
            },
            None => {},
        }
        i += 1;
    }
    assert(inputs@.skip(i as int) =~= Seq::<SlpTokenInput>::empty());
    None
}

/// A well-formed valid message: MINT and SEND declare a full 32-byte
/// token id. `interpret` only produces such messages.
pub open spec fn spec_msg_wf(m: SlpMsgV) -> bool {
    match m.action {
        SlpAction::SlpV1Genesis | SlpAction::SlpNft1GroupGenesis
        | SlpAction::SlpNft1UniqueChildGenesis => true,
        _ => m.token_id.len() == 32,
    }
}

/// Every valid message `spec_interpret` yields is well formed.
pub proof fn lemma_interpret_wf(fields: Seq<Seq<u8>>)
    ensures
        spec_interpret(fields) matches SlpParseV::Valid(m) ==> spec_msg_wf(m),
{
}

/// Every valid message a script parses to is well formed.
pub proof fn lemma_parse_slp_wf(s: Seq<u8>)
    ensures
        spec_parse_slp(s) matches SlpParseV::Valid(m) ==> spec_msg_wf(m),
{
    if s.len() >= 1 && s[0] == 0x6a {
        match spec_parse_pushes(s.skip(1)) {
            None => {},
            Some(fields) => {
                lemma_interpret_wf(fields);
            },
        }
    }
}

/// Assigns the classification variant.
pub fn classify(parse: &SlpParse, inputs: &Vec<SlpTokenInput>, tx_hash: &[u8; 32]) -> (v:
    TxMetaVariant)
    requires
        parse@ matches SlpParseV::Valid(m) ==> spec_msg_wf(m),
    ensures
        v@ == spec_classify(parse@, inputs@, tx_hash@),
{
    let hash_vec = copy_range(tx_hash.as_slice(), 0, 32);
    assert(hash_vec@ =~= tx_hash@);
    match parse {
        SlpParse::NotSlp => TxMetaVariant::SatsOnly,
        SlpParse::Invalid { token_id } => TxMetaVariant::InvalidSlp {
            token_id: clone_bytes(token_id),
            token_input: clamp_exec(sum_all_exec(inputs)),
        },
        SlpParse::Valid(m) => {
            match m.action {
                SlpAction::SlpV1Genesis | SlpAction::SlpNft1GroupGenesis => {
                    let ti = clamp_exec(sum_matching_exec(inputs, &hash_vec));
                    TxMetaVariant::Slp {
                        action: m.action,
                        token_id: *tx_hash,
                        token_input: ti,
                        token_output: m.qty,
                    }
                },
                SlpAction::SlpNft1UniqueChildGenesis => {
                    if first_group_exec(inputs).is_some() {
                        let ti = clamp_exec(sum_matching_exec(inputs, &hash_vec));
                        TxMetaVariant::Slp {
                            action: m.action,
                            token_id: *tx_hash,
                            token_input: ti,
                            token_output: m.qty,
                        }
                    } else {
                        TxMetaVariant::InvalidSlp {
                            token_id: hash_vec,
                            token_input: clamp_exec(sum_all_exec(inputs)),
                        }
                    }
                },
                SlpAction::SlpV1Mint | SlpAction::SlpNft1GroupMint => {
                    if has_baton_exec(inputs, &m.token_id) {
                        let ti = clamp_exec(sum_matching_exec(inputs, &m.token_id));
                        let mut tid32 = [0u8; 32];
                        copy_to_arr32(&m.token_id, &mut tid32);
                        TxMetaVariant::Slp {
                            action: m.action,
                            token_id: tid32,
                            token_input: ti,
                            token_output: m.qty,
                        }
                    } else {
                        TxMetaVariant::InvalidSlp {
                            token_id: clone_bytes(&m.token_id),
                            token_input: clamp_exec(sum_all_exec(inputs)),
                        }
                    }
                },
                SlpAction::SlpV1Send | SlpAction::SlpNft1GroupSend
                | SlpAction::SlpNft1UniqueChildSend => {
                    let outs = sum_amounts_exec(&m.amounts);
                    let ins = sum_matching_exec(inputs, &m.token_id);
                    if outs <= ins {
                        let mut tid32 = [0u8; 32];
                        copy_to_arr32(&m.token_id, &mut tid32);
                        TxMetaVariant::Slp {
                            action: m.action,
                            token_id: tid32,
                            token_input: clamp_exec(ins),
                            token_output: clamp_exec(outs),
                        }
                    } else {
                        TxMetaVariant::InvalidSlp {
                            token_id: clone_bytes(&m.token_id),
                            token_input: clamp_exec(sum_all_exec(inputs)),
                        }
                    }
                },
            }
        },
    }
}

/// A transaction whose declared outputs sum to less than its token inputs
/// is classified as a valid token transaction whose recorded output total
/// falls short of its input total: the shortfall is an implicit burn, never
/// a silent reclassification. (Stated for totals within the stored range.)
pub proof fn lemma_underfunded_send_burns(m: SlpMsgV, inputs: Seq<SlpTokenInput>, tx_hash: Seq<u8>)
    requires
        m.action == SlpAction::SlpV1Send || m.action == SlpAction::SlpNft1GroupSend || m.action
            == SlpAction::SlpNft1UniqueChildSend,
        sum_amounts(m.amounts) < sum_matching(inputs, m.token_id),
        sum_matching(inputs, m.token_id) <= u64::MAX,
    ensures
        spec_classify(SlpParseV::Valid(m), inputs, tx_hash) matches TxMetaVariantV::Slp {
            token_input,
            token_output,
            ..
        } && token_output < token_input && token_input == sum_matching(inputs, m.token_id)
            && token_output == sum_amounts(m.amounts),
{
}

/// A structurally invalid protocol message is always classified as the
/// invalid variant, carrying the declared token id as far as it was
/// readable.
pub proof fn lemma_malformed_is_invalid(tid: Seq<u8>, inputs: Seq<SlpTokenInput>, tx_hash: Seq<u8>)
    ensures
        spec_classify(SlpParseV::Invalid { token_id: tid }, inputs, tx_hash)
            matches TxMetaVariantV::InvalidSlp { token_id, token_input } && token_id == tid
            && token_input == clamp_u64(sum_all(inputs)),
{
}

/// Fills a 32-byte array from a 32-byte vector.
pub fn copy_to_arr32(v: &Vec<u8>, out: &mut [u8; 32])
    requires
        v@.len() == 32,
    ensures
        final(out)@ == v@,
{
    let mut i: usize = 0;
    while i < 32
        invariant
            0 <= i <= 32,
            v@.len() == 32,
            forall|k: int| 0 <= k < i ==> out@[k] == v@[k],
        decreases 32 - i,
    {
        out.set(i, v[i]);
        i += 1;
    }
    assert(out@ =~= v@);
}

/// The token amount and mint-baton flag an output receives under a valid
/// message: SEND amounts map to outputs 1 onward, a GENESIS or MINT quantity
/// to output 1, and the baton to its designated output.
pub open spec fn spec_output_token(m: SlpMsgV, idx: int) -> (u64, bool) {
    match m.action {
        SlpAction::SlpV1Send | SlpAction::SlpNft1GroupSend | SlpAction::SlpNft1UniqueChildSend => {
            if 1 <= idx && idx - 1 < m.amounts.len() {
                (m.amounts[idx - 1], false)
            } else {
                (0u64, false)
            }
        },
        _ => {
            if idx == 1 {
                (m.qty, false)
            } else if m.baton_vout matches Some(b) && idx == b {
                (0u64, true)
            } else {
                (0u64, false)
            }
        },
    }
}

/// Looks up an output's token assignment under a valid message.
pub fn output_token(m: &SlpMessage, idx: u32) -> (r: (u64, bool))
    ensures
        r == spec_output_token(m@, idx as int),
{
    match m.action {
        SlpAction::SlpV1Send | SlpAction::SlpNft1GroupSend | SlpAction::SlpNft1UniqueChildSend => {
            if 1 <= idx && ((idx - 1) as usize) < m.amounts.len() {
                (m.amounts[(idx - 1) as usize], false)
            } else {
                (0u64, false)
            }
        },
        _ => {
            if idx == 1 {
                (m.qty, false)
            } else {
                match m.baton_vout {
                    Some(b) => if idx == b {
                        (0u64, true)
                    } else {
                        (0u64, false)
                    },
                    None => (0u64, false),
                }
            }
        },
    }
}

} // verus!

