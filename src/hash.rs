use vstd::prelude::*;

verus! {

/// The identifier of an object: the 160 bits of its SHA-1 digest, read as a
/// big-endian number and split into its leading 128 and trailing 32 bits.
///
/// Ordering two identifiers compares their digests byte by byte.
#[derive(Clone, Copy, Debug, PartialEq, Eq, Structural, PartialOrd, Ord, Hash)]
pub struct ObjectId {
    pub high: u128,
    pub low: u32,
}

/// `16` to the power `e`.
pub open spec fn pow16(e: nat) -> int
    decreases e,
{
    if e == 0 {
        1
    } else {
        16 * pow16((e - 1) as nat)
    }
}

pub proof fn lemma_pow16_positive(e: nat)
    ensures
        pow16(e) > 0,
    decreases e,
{
    if e > 0 {
        lemma_pow16_positive((e - 1) as nat);
    }
}

/// The value of an ASCII hexadecimal digit of either case.
pub open spec fn hex_value(c: u8) -> Option<int> {
    if 48 <= c <= 57 {
        Some(c - 48)
    } else if 97 <= c <= 102 {
        Some(c - 87)
    } else if 65 <= c <= 70 {
        Some(c - 55)
    } else {
        None
    }
}

/// Whether every byte is a hexadecimal digit.
pub open spec fn is_hex(s: Seq<u8>) -> bool {
    forall|i: int| 0 <= i < s.len() ==> (#[trigger] hex_value(s[i])) is Some
}

/// The number that the first `n` hexadecimal digits of `s` spell.
pub open spec fn hex_number(s: Seq<u8>, n: int) -> int
    decreases n,
{
    if n <= 0 {
        0
    } else {
        hex_number(s, n - 1) * 16 + hex_value(s[n - 1]).unwrap()
    }
}

proof fn lemma_hex_number_bound(s: Seq<u8>, n: int)
    requires
        0 <= n <= s.len(),
        is_hex(s),
    ensures
        0 <= hex_number(s, n) < pow16(n as nat),
    decreases n,
{
    if n > 0 {
        lemma_hex_number_bound(s, n - 1);
        assert(hex_value(s[n - 1]) is Some);
        let prev = hex_number(s, n - 1);
        let p = pow16((n - 1) as nat);
        let v = hex_value(s[n - 1]).unwrap();
        assert(prev * 16 + v < p * 16) by (nonlinear_arith)
            requires
                0 <= prev < p,
                0 <= v < 16,
        ;
        assert(0 <= prev * 16 + v) by (nonlinear_arith)
            requires
                0 <= prev,
                0 <= v,
        ;
    }
}

proof fn lemma_pow16_monotone(a: nat, b: nat)
    requires
        a <= b,
    ensures
        pow16(a) <= pow16(b),
    decreases b - a,
{
    if a < b {
        lemma_pow16_monotone(a, (b - 1) as nat);
        lemma_pow16_positive((b - 1) as nat);
    }
}

fn digit_value(c: u8) -> (r: Option<u8>)
    ensures
        match hex_value(c) {
            Some(v) => r == Some(v as u8),
            None => r is None,
        },
{
    if 48 <= c && c <= 57 {
        Some(c - 48)
    } else if 97 <= c && c <= 102 {
        Some(c - 87)
    } else if 65 <= c && c <= 70 {
        Some(c - 55)
    } else {
        None
    }
}

impl ObjectId {
    /// The identifier made of zero bits only.
    pub fn null() -> (r: ObjectId)
        ensures
            r.high == 0,
            r.low == 0,
    {
        ObjectId { high: 0, low: 0 }
    }

    /// The identifier that 40 hexadecimal digits spell, if `hex` is that.
    pub fn from_hex(hex: &Vec<u8>) -> (r: Option<ObjectId>)
        ensures
            r is Some <==> hex@.len() == 40 && is_hex(hex@),
            r matches Some(id) ==> id.high == hex_number(hex@, 32)
                && id.low == hex_number(hex@.subrange(32, 40), 8),
    {
        if hex.len() != 40 {
            return None;
        }
        proof {
            reveal_with_fuel(pow16, 33);
        }
        let mut high: u128 = 0;
        let mut k: usize = 0;
        while k < 32
            invariant
                hex@.len() == 40,
                k <= 32,
                forall|i: int| 0 <= i < k ==> (#[trigger] hex_value(hex@[i])) is Some,
                high as int == hex_number(hex@, k as int),
                (high as int) < pow16(k as nat),
                pow16(32) == 0x1_0000_0000_0000_0000_0000_0000_0000_0000int,
            decreases 32 - k,
        {
            let v = match digit_value(hex[k]) {
                Some(v) => v,
                None => {
                    return None;
                },
            };
            proof {
                lemma_pow16_monotone((k + 1) as nat, 32);
                assert(pow16((k + 1) as nat) == 16 * pow16(k as nat));
                assert((high as int) * 16 + (v as int) < 16 * pow16(k as nat)) by (nonlinear_arith)
                    requires
                        (high as int) < pow16(k as nat),
                        (v as int) < 16,
                ;
            }
            high = high * 16 + v as u128;
            k += 1;
        }
        let ghost tail = hex@.subrange(32, 40);
        let mut low: u32 = 0;
        let mut j: usize = 0;
        while j < 8
            invariant
                hex@.len() == 40,
                tail == hex@.subrange(32, 40),
                j <= 8,
                forall|i: int| 0 <= i < 32 ==> (#[trigger] hex_value(hex@[i])) is Some,
                forall|i: int| 32 <= i < 32 + j ==> (#[trigger] hex_value(hex@[i])) is Some,
                low as int == hex_number(tail, j as int),
                (low as int) < pow16(j as nat),
                pow16(8) == 0x1_0000_0000int,
            decreases 8 - j,
        {
            let v = match digit_value(hex[32 + j]) {
                Some(v) => v,
                None => {
                    return None;
                },
            };
            proof {
                assert(tail[j as int] == hex@[32 + j]);
                lemma_pow16_monotone((j + 1) as nat, 8);
                assert(pow16((j + 1) as nat) == 16 * pow16(j as nat));
                assert((low as int) * 16 + (v as int) < 16 * pow16(j as nat)) by (nonlinear_arith)
                    requires
                        (low as int) < pow16(j as nat),
                        (v as int) < 16,
                ;
            }
            low = low * 16 + v as u32;
            j += 1;
        }
        assert(is_hex(hex@)) by {
            assert forall|i: int| 0 <= i < hex@.len() implies (#[trigger] hex_value(hex@[i])) is Some by {
                if i >= 32 {
                    assert(hex_value(hex@[i]) is Some);
                }
            }
        }
        Some(ObjectId { high, low })
    }

    /// The identifier whose digest has the given leading and trailing bits.
    pub fn from_parts(high: u128, low: u32) -> (r: ObjectId)
        ensures
            r.high == high,
            r.low == low,
    {
        ObjectId { high, low }
    }
}

} // verus!
