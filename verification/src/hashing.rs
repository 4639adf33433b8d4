//! Content hashing.
//!
//! Module contents are addressed by a 64-bit FNV-1a hash over the loaded
//! content together with tags for the module type and the compilation mode,
//! rendered as a 16-digit hexadecimal string for cache keys and production
//! ids.  The hash is a pure function of its input bytes, which is what the
//! cache and the deterministic-build properties rely on.

use vstd::prelude::*;

verus! {

pub open spec fn fnv_offset_basis() -> u64 {
    0xcbf29ce484222325
}

pub open spec fn fnv_prime() -> u64 {
    0x100000001b3
}

pub open spec fn fnv_step(h: u64, b: u8) -> u64 {
    vstd::wrapping::u64_specs::wrapping_mul(h ^ (b as u64), fnv_prime())
}

/// FNV-1a over a byte sequence, folding from the left.
pub open spec fn fnv_of(bytes: Seq<u8>) -> u64
    decreases bytes.len(),
{
    if bytes.len() == 0 {
        fnv_offset_basis()
    } else {
        fnv_step(fnv_of(bytes.drop_last()), bytes.last())
    }
}

/// Computes the FNV-1a hash of `bytes`.
pub fn fnv64(bytes: &[u8]) -> (r: u64)
    ensures
        r == fnv_of(bytes@),
{
    let n: usize = bytes.len();
    let mut h: u64 = 0xcbf29ce484222325;
    let mut i: usize = 0;
    while i < n
        invariant
            i <= n,
            n == bytes@.len(),
            h == fnv_of(bytes@.take(i as int)),
        decreases n - i,
    {
        let b = bytes[i];
        h = (h ^ (b as u64)).wrapping_mul(0x100000001b3);
        proof {
            let t = bytes@.take(i + 1);
            assert(t.drop_last() =~= bytes@.take(i as int));
            assert(t.last() == bytes@[i as int]);
        }
        i = i + 1;
    }
    proof {
        assert(bytes@.take(n as int) =~= bytes@);
    }
    h
}

/// The nibble of `h` selected by digit position `j`, counted from the most
/// significant digit.
pub open spec fn nibble_at(h: u64, j: int) -> u64 {
    (h >> ((60 - 4 * j) as u64)) & 0xf
}

/// The lower-case hexadecimal character for `d`; values above 15 saturate
/// to `f`.
pub open spec fn hex_digit(d: u64) -> char {
    if d == 0 {
        '0'
    } else if d == 1 {
        '1'
    } else if d == 2 {
        '2'
    } else if d == 3 {
        '3'
    } else if d == 4 {
        '4'
    } else if d == 5 {
        '5'
    } else if d == 6 {
        '6'
    } else if d == 7 {
        '7'
    } else if d == 8 {
        '8'
    } else if d == 9 {
        '9'
    } else if d == 10 {
        'a'
    } else if d == 11 {
        'b'
    } else if d == 12 {
        'c'
    } else if d == 13 {
        'd'
    } else if d == 14 {
        'e'
    } else {
        'f'
    }
}

/// The 16-digit lower-case hexadecimal rendering of `h`, most significant
/// digit first.
pub open spec fn hex_view(h: u64) -> Seq<char> {
    Seq::new(16, |j: int| hex_digit(nibble_at(h, j)))
}

fn hex_digit_str(d: u64) -> (r: &'static str)
    ensures
        r@.len() == 1,
        r@[0] == hex_digit(d),
{
    proof {
        reveal_strlit("0");
        reveal_strlit("1");
        reveal_strlit("2");
        reveal_strlit("3");
        reveal_strlit("4");
        reveal_strlit("5");
        reveal_strlit("6");
        reveal_strlit("7");
        reveal_strlit("8");
        reveal_strlit("9");
        reveal_strlit("a");
        reveal_strlit("b");
        reveal_strlit("c");
        reveal_strlit("d");
        reveal_strlit("e");
        reveal_strlit("f");
    }
    match d {
        0 => "0",
        1 => "1",
        2 => "2",
        3 => "3",
        4 => "4",
        5 => "5",
        6 => "6",
        7 => "7",
        8 => "8",
        9 => "9",
        10 => "a",
        11 => "b",
        12 => "c",
        13 => "d",
        14 => "e",
        _ => "f",
    }
}

/// The decimal rendering of `n`, most significant digit first.
pub open spec fn dec_view(n: u64) -> Seq<char>
    decreases n,
{
    if n < 10 {
        seq![hex_digit(n)]
    } else {
        dec_view(n / 10).push(hex_digit(n % 10))
    }
}

/// Renders `n` as its decimal string.
pub fn to_dec(n: u64) -> (r: String)
    ensures
        r@ == dec_view(n),
{
    let mut out = String::new();
    let mut cur = n;
    proof {
        assert(dec_view(n) =~= dec_view(n) + out@);
    }
    loop
        invariant
            dec_view(n) == dec_view(cur) + out@,
        decreases cur,
    {
        let d = cur % 10;
        let ds = hex_digit_str(d);
        out = String::from_str(ds).concat(out.as_str());
        if cur < 10 {
            proof {
                assert(dec_view(cur) =~= seq![hex_digit(cur % 10)]);
                assert(dec_view(n) =~= out@);
            }
            return out;
        }
        proof {
            assert(dec_view(cur) =~= dec_view(cur / 10) + seq![hex_digit(cur % 10)]);
            assert(dec_view(cur / 10) + out@ =~= dec_view(n));
        }
        cur = cur / 10;
    }
}

/// Renders `h` as its 16-digit hexadecimal string.
pub fn to_hex(h: u64) -> (r: String)
    ensures
        r@ == hex_view(h),
{
    let mut out = String::new();
    let mut j: usize = 0;
    while j < 16
        invariant
            j <= 16,
            out@ == hex_view(h).take(j as int),
        decreases 16 - j,
    {
        let sh: u64 = 60 - 4 * (j as u64);
        let d: u64 = (h >> sh) & 0xf;
        let ds = hex_digit_str(d);
        out.append(ds);
        proof {
            assert(hex_view(h).take(j + 1) =~= hex_view(h).take(j as int).push(
                hex_digit(nibble_at(h, j as int)),
            ));
        }
        j = j + 1;
    }
    proof {
        assert(hex_view(h).take(16) =~= hex_view(h));
    }
    out
}

} // verus!
