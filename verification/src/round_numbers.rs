//! The numbers of rounds that give Poseidon 128 bits of security.

use vstd::prelude::*;

verus! {

/// The order of the Mersenne-31 field.
pub const MERSENNE31_ORDER: u64 = 0x7fff_ffff;

/// The order of the KoalaBear field.
pub const KOALA_BEAR_ORDER: u64 = 0x7f00_0001;

/// The order of the BabyBear field.
pub const BABY_BEAR_ORDER: u64 = 0x7800_0001;

/// The order of the Goldilocks field.
pub const GOLDILOCKS_ORDER: u64 = 0xFFFF_FFFF_0000_0001;

/// The order of the Crandall field.
pub const CRANDALL_ORDER: u64 = 0xFFFF_FFFF_7000_0001;

/// Whether `order` is that of one of the fields of 31 bits.
pub open spec fn is_31_bit_prime(order: u64) -> bool {
    order == MERSENNE31_ORDER || order == KOALA_BEAR_ORDER || order == BABY_BEAR_ORDER
}

/// Whether `order` is that of one of the fields of 64 bits.
pub open spec fn is_64_bit_prime(order: u64) -> bool {
    order == GOLDILOCKS_ORDER || order == CRANDALL_ORDER
}

/// The numbers of full and of partial rounds for a field of the given
/// order, a width and an exponent of the S-box, where they are known.
pub open spec fn poseidon_round_numbers_128_spec(order: u64, width: usize, alpha: u64) -> Option<
    (usize, usize),
> {
    if is_31_bit_prime(order) {
        if width == 16 && alpha == 3 {
            Some((8usize, 20usize))
        } else if width == 16 && alpha == 5 {
            Some((8usize, 14usize))
        } else if width == 16 && (alpha == 7 || alpha == 11) {
            Some((8usize, 13usize))
        } else if width == 24 && alpha == 3 {
            Some((8usize, 23usize))
        } else if width == 24 && alpha == 5 {
            Some((8usize, 22usize))
        } else if width == 24 && (alpha == 7 || alpha == 11) {
            Some((8usize, 21usize))
        } else {
            None
        }
    } else if is_64_bit_prime(order) {
        if (width == 8 || width == 12 || width == 16) && alpha == 7 {
            Some((8usize, 22usize))
        } else if width == 8 && alpha == 11 {
            Some((8usize, 17usize))
        } else if (width == 12 || width == 16) && alpha == 11 {
            Some((8usize, 18usize))
        } else {
            None
        }
    } else {
        None
    }
}

/// The numbers of full and of partial rounds, or `None` where the field or
/// the pair of width and exponent has not been looked into.
pub fn try_poseidon_round_numbers_128(order: u64, width: usize, alpha: u64) -> (r: Option<
    (usize, usize),
>)
    ensures
        r == poseidon_round_numbers_128_spec(order, width, alpha),
{
    let small = order == MERSENNE31_ORDER || order == KOALA_BEAR_ORDER || order == BABY_BEAR_ORDER;
    let large = order == GOLDILOCKS_ORDER || order == CRANDALL_ORDER;
    if small {
        if width == 16 && alpha == 3 {
            Some((8, 20))
        } else if width == 16 && alpha == 5 {
            Some((8, 14))
        } else if width == 16 && (alpha == 7 || alpha == 11) {
            Some((8, 13))
        } else if width == 24 && alpha == 3 {
            Some((8, 23))
        } else if width == 24 && alpha == 5 {
            Some((8, 22))
        } else if width == 24 && (alpha == 7 || alpha == 11) {
            Some((8, 21))
        } else {
            None
        }
    } else if large {
        if (width == 8 || width == 12 || width == 16) && alpha == 7 {
            Some((8, 22))
        } else if width == 8 && alpha == 11 {
            Some((8, 17))
        } else if (width == 12 || width == 16) && alpha == 11 {
            Some((8, 18))
        } else {
            None
        }
    } else {
        None
    }
}

/// The numbers of full and of partial rounds that give 128 bits of security
/// over the field of the given order, for a width and an exponent of the
/// S-box that have been looked into.
pub fn poseidon_round_numbers_128(order: u64, width: usize, alpha: u64) -> (r: (usize, usize))
    requires
        poseidon_round_numbers_128_spec(order, width, alpha) is Some,
    ensures
        Some(r) == poseidon_round_numbers_128_spec(order, width, alpha),
{
    match try_poseidon_round_numbers_128(order, width, alpha) {
        Some(r) => r,
        None => (0, 0),
    }
}

} // verus!
