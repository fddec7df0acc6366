use vstd::prelude::*;

verus! {

/// An authenticated caller identity: twenty opaque bytes, compared only for
/// equality.  The runtime that accepts an operation supplies the principal
/// of its caller; the core never derives or invents one.
#[derive(Clone, Copy, PartialEq, Eq, Structural, Hash, Debug)]
pub struct Principal {
    b0: u8,
    b1: u8,
    b2: u8,
    b3: u8,
    b4: u8,
    b5: u8,
    b6: u8,
    b7: u8,
    b8: u8,
    b9: u8,
    b10: u8,
    b11: u8,
    b12: u8,
    b13: u8,
    b14: u8,
    b15: u8,
    b16: u8,
    b17: u8,
    b18: u8,
    b19: u8,
}

impl Principal {
    /// The principal whose bytes are exactly `bytes`.
    pub closed spec fn spec_from_bytes(bytes: Seq<u8>) -> Principal {
        Principal {
            b0: bytes[0],
            b1: bytes[1],
            b2: bytes[2],
            b3: bytes[3],
            b4: bytes[4],
            b5: bytes[5],
            b6: bytes[6],
            b7: bytes[7],
            b8: bytes[8],
            b9: bytes[9],
            b10: bytes[10],
            b11: bytes[11],
            b12: bytes[12],
            b13: bytes[13],
            b14: bytes[14],
            b15: bytes[15],
            b16: bytes[16],
            b17: bytes[17],
            b18: bytes[18],
            b19: bytes[19],
        }
    }

    /// Builds a principal from its twenty bytes.
    pub fn from_bytes(bytes: [u8; 20]) -> (r: Principal)
        ensures
            r == Principal::spec_from_bytes(bytes@),
    {
        Principal {
            b0: bytes[0],
            b1: bytes[1],
            b2: bytes[2],
            b3: bytes[3],
            b4: bytes[4],
            b5: bytes[5],
            b6: bytes[6],
            b7: bytes[7],
            b8: bytes[8],
            b9: bytes[9],
            b10: bytes[10],
            b11: bytes[11],
            b12: bytes[12],
            b13: bytes[13],
            b14: bytes[14],
            b15: bytes[15],
            b16: bytes[16],
            b17: bytes[17],
            b18: bytes[18],
            b19: bytes[19],
        }
    }
}

} // verus!
