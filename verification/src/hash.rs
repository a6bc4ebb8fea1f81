//! Content hashing for duplicate detection: a 64-bit FNV-1a digest over
//! the full file content, rendered as sixteen lower-case hex digits.
//! Grouping itself compares raw bytes; the digest is attached to planned
//! items for auditing.
use vstd::prelude::*;

verus! {

pub open spec fn fnv_offset() -> u64 {
    0xcbf29ce484222325
}

pub open spec fn fnv_prime() -> u64 {
    0x100000001b3
}

/// One FNV-1a step: fold a byte in, then multiply, wrapping at 64 bits.
pub open spec fn fnv_step(h: u64, b: u8) -> u64 {
    ((((h ^ (b as u64)) as int) * (fnv_prime() as int)) % 0x10000000000000000) as u64
}

pub open spec fn fnv64_acc(s: Seq<u8>, h: u64) -> u64
    decreases s.len(),
{
    if s.len() == 0 {
        h
    } else {
        fnv64_acc(s.drop_first(), fnv_step(h, s[0]))
    }
}

/// The FNV-1a 64-bit digest of a byte string.
pub open spec fn fnv64(s: Seq<u8>) -> u64 {
    fnv64_acc(s, fnv_offset())
}

/// Computes the FNV-1a 64-bit digest of the data.
pub fn fnv64_hash(data: &Vec<u8>) -> (r: u64)
    ensures
        r == fnv64(data@),
{
    let n = data.len();
    let mut h: u64 = 0xcbf29ce484222325;
    let mut i: usize = 0;
    proof {
        assert(data@.skip(0) =~= data@);
    }
    while i < n
        invariant
            n == data@.len(),
            i <= n,
            fnv64_acc(data@.skip(i as int), h) == fnv64(data@),
        decreases n - i,
    {
        let ghost pre = data@.skip(i as int);
        let ghost h_pre = h;
        let x: u64 = h ^ (data[i] as u64);
        let prod: u128 = (x as u128) * 0x100000001b3;
        h = (prod % 0x10000000000000000) as u64;
        proof {
            assert(pre[0] == data@[i as int]);
            assert(pre.drop_first() =~= data@.skip(i + 1));
            assert(prod == (x as int) * (fnv_prime() as int));
            assert(h == fnv_step(h_pre, data@[i as int]));
        }
        i = i + 1;
    }
    proof {
        assert(data@.skip(n as int) =~= Seq::<u8>::empty());
    }
    h
}

/// Sixteen raised to the given power.
pub open spec fn pow16(k: nat) -> int
    decreases k,
{
    if k == 0 {
        1
    } else {
        16 * pow16((k - 1) as nat)
    }
}

/// The lower-case hex digit character for a value below sixteen.
pub open spec fn hex_digit(d: int) -> char {
    if d < 10 {
        (((48 + d) as u8) as char)
    } else {
        (((87 + d) as u8) as char)
    }
}

/// The sixteen hex digits of a 64-bit value, most significant first.
pub open spec fn hex16(n: u64) -> Seq<char> {
    Seq::new(16, |i: int| hex_digit((n as int / pow16((15 - i) as nat)) % 16))
}

fn hex_digit_exec(d: u64) -> (r: char)
    requires
        d < 16,
    ensures
        r == hex_digit(d as int),
{
    if d < 10 {
        (((48 + d) as u8) as char)
    } else {
        (((87 + d) as u8) as char)
    }
}

proof fn lemma_pow16_pos(k: nat)
    ensures
        pow16(k) >= 1,
    decreases k,
{
    if k > 0 {
        lemma_pow16_pos((k - 1) as nat);
    }
}

/// Renders a 64-bit value as sixteen lower-case hex digits.
pub fn u64_to_hex(n: u64) -> (r: String)
    ensures
        r@ == hex16(n),
{
    let mut s = String::new();
    let mut p: u64 = 0x1000000000000000;
    proof {
        assert(p == pow16(15)) by {
            reveal_with_fuel(pow16, 17);
        }
    }
    let mut i: usize = 0;
    while i < 16
        invariant
            i <= 16,
            i < 16 ==> p == pow16((15 - i) as nat),
            s@ == hex16(n).take(i as int),
        decreases 16 - i,
    {
        proof {
            lemma_pow16_pos((15 - i) as nat);
        }
        let d: u64 = (n / p) % 16;
        let c = hex_digit_exec(d);
        crate::text::push_char(&mut s, c);
        proof {
            assert(hex16(n)[i as int] == hex_digit((n as int / pow16((15 - i as int) as nat))
                % 16));
            assert(d as int == (n as int / p as int) % 16);
            assert(s@ =~= hex16(n).take(i + 1));
            if i < 15 {
                assert(pow16((15 - (i + 1)) as nat) * 16 == pow16((15 - i) as nat));
                lemma_pow16_pos((15 - (i + 1)) as nat);
            }
        }
        if i < 15 {
            p = p / 16;
        }
        i = i + 1;
    }
    proof {
        assert(hex16(n).take(16) =~= hex16(n));
    }
    s
}

} // verus!
