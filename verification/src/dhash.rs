//! The difference hash of a tile of nine by eight pixels: one bit for each
//! pair of horizontal neighbours, set where the intensity rises from left to
//! right.

use vstd::prelude::*;
use vstd::string::StringExecFns;

verus! {

/// The number of bytes of a tile: eight rows of nine pixels.
pub const TILE_LEN: usize = 72;

/// The intensity rises across pair `bit` of a tile. The pairs are counted
/// row by row, eight to a row of nine pixels.
pub open spec fn rises(data: Seq<u8>, bit: int) -> bool {
    data[9 * (bit / 8) + bit % 8] < data[9 * (bit / 8) + bit % 8 + 1]
}

/// Bit `bit` of `hash` is set.
pub open spec fn bit_is_set(hash: u64, bit: u64) -> bool {
    (hash >> bit) & 1 == 1
}

/// The hash of the first `n` pairs of a tile: bit `b` is set for each pair
/// `b` below `n` across which the intensity rises.
pub open spec fn hash_of_pairs(data: Seq<u8>, n: nat) -> u64
    decreases n,
{
    if n == 0 {
        0
    } else if rises(data, n - 1) {
        hash_of_pairs(data, (n - 1) as nat) | (1u64 << ((n - 1) as u64))
    } else {
        hash_of_pairs(data, (n - 1) as nat)
    }
}

/// The difference hash of `data`: the hash of the 64 pairs of a tile, and
/// zero for anything but a tile.
pub open spec fn difference_hash(data: Seq<u8>) -> u64 {
    if data.len() == TILE_LEN {
        hash_of_pairs(data, 64)
    } else {
        0
    }
}

/// Setting bit `bit` of a hash sets that bit and leaves the others.
proof fn lemma_set_bit(hash: u64, bit: u64, j: u64)
    requires
        bit < 64,
        j < 64,
    ensures
        bit_is_set(hash | (1u64 << bit), j) == (j == bit || bit_is_set(hash, j)),
{
    assert((((hash | (1u64 << bit)) >> j) & 1 == 1) == (j == bit || (hash >> j) & 1 == 1))
        by (bit_vector)
        requires
            bit < 64,
            j < 64,
    ;
}

/// No bit of zero is set.
proof fn lemma_no_bit_of_zero(j: u64)
    requires
        j < 64,
    ensures
        !bit_is_set(0u64, j),
{
    assert((0u64 >> j) & 1 == 0) by (bit_vector)
        requires
            j < 64,
    ;
}

/// Bit `j` of the hash of the first `n` pairs is set exactly where `j` is
/// below `n` and the intensity rises across pair `j`.
pub proof fn lemma_bits_of_hash(data: Seq<u8>, n: nat, j: u64)
    requires
        n <= 64,
        j < 64,
    ensures
        bit_is_set(hash_of_pairs(data, n), j) == (j < n && rises(data, j as int)),
    decreases n,
{
    if n == 0 {
        lemma_no_bit_of_zero(j);
    } else {
        lemma_bits_of_hash(data, (n - 1) as nat, j);
        if rises(data, n - 1) {
            lemma_set_bit(hash_of_pairs(data, (n - 1) as nat), (n - 1) as u64, j);
        }
    }
}

/// The difference hash of a tile of nine by eight pixels, and zero for a
/// buffer of any other length.
pub fn dhash_9x8(data: &[u8]) -> (hash: u64)
    ensures
        hash == difference_hash(data@),
{
    if data.len() != TILE_LEN {
        return 0;
    }
    let mut hash: u64 = 0;
    let mut bit: u64 = 0;
    let mut y: usize = 0;
    while y < 8
        invariant
            y <= 8,
            bit == 8 * y,
            data.len() == TILE_LEN,
            hash == hash_of_pairs(data@, bit as nat),
        decreases 8 - y,
    {
        let mut x: usize = 0;
        while x < 8
            invariant
                x <= 8,
                y < 8,
                bit == 8 * y + x,
                data.len() == TILE_LEN,
                hash == hash_of_pairs(data@, bit as nat),
            decreases 8 - x,
        {
            let left: u8 = data[y * 9 + x];
            let right: u8 = data[y * 9 + x + 1];
            assert(rises(data@, bit as int) == (left < right));
            if left < right {
                hash = hash | (1u64 << bit);
            }
            bit = bit + 1;
            x = x + 1;
        }
        y = y + 1;
    }
    hash
}

/// Each bit of the hash of a tile tells whether the intensity rises across
/// its pair.
pub proof fn lemma_hash_of_tile(data: Seq<u8>, bit: u64)
    requires
        data.len() == TILE_LEN,
        bit < 64,
    ensures
        bit_is_set(difference_hash(data), bit) == rises(data, bit as int),
{
    lemma_bits_of_hash(data, 64, bit);
}

/// The hash of a tile whose intensity rises across one of its pairs is not
/// zero; so the hash of a tile whose rows rise from left to right is not.
pub proof fn lemma_rising_tile_hashes_nonzero(data: Seq<u8>, bit: u64)
    requires
        data.len() == TILE_LEN,
        bit < 64,
        rises(data, bit as int),
    ensures
        difference_hash(data) != 0,
{
    lemma_hash_of_tile(data, bit);
    lemma_no_bit_of_zero(bit);
}

/// The hash of anything but a tile is zero.
pub proof fn lemma_no_tile_hashes_zero(data: Seq<u8>)
    requires
        data.len() != TILE_LEN,
    ensures
        difference_hash(data) == 0,
{
}

/// The hexadecimal digit of a number below sixteen, in lower case.
pub open spec fn hex_char(n: int) -> char {
    if n == 0 {
        '0'
    } else if n == 1 {
        '1'
    } else if n == 2 {
        '2'
    } else if n == 3 {
        '3'
    } else if n == 4 {
        '4'
    } else if n == 5 {
        '5'
    } else if n == 6 {
        '6'
    } else if n == 7 {
        '7'
    } else if n == 8 {
        '8'
    } else if n == 9 {
        '9'
    } else if n == 10 {
        'a'
    } else if n == 11 {
        'b'
    } else if n == 12 {
        'c'
    } else if n == 13 {
        'd'
    } else if n == 14 {
        'e'
    } else {
        'f'
    }
}

/// The four bits of `hash` that its hexadecimal digit `i` stands for, the
/// highest first.
pub open spec fn nibble(hash: u64, i: int) -> int {
    ((hash >> ((60 - 4 * i) as u64)) & 0xf) as int
}

/// The sixteen hexadecimal digits of `hash`, the highest first, with zeros
/// in front.
pub open spec fn hex_digits(hash: u64) -> Seq<char> {
    Seq::new(16, |i: int| hex_char(nibble(hash, i)))
}

/// The hexadecimal digit of a number below sixteen, as a string.
fn hex_digit(n: u8) -> (s: &'static str)
    requires
        n < 16,
    ensures
        s@ == seq![hex_char(n as int)],
{
    proof {
        reveal_strlit("0");
        reveal_strlit("1");
        reveal_strlit("2");
        reveal_strlit("3");
        reveal_strlit("4");
        reveal_strlit("5");
        reveal_strlit("6");
        reveal_strlit("7");
        reveal_strlit("8");
        reveal_strlit("9");
        reveal_strlit("a");
        reveal_strlit("b");
        reveal_strlit("c");
        reveal_strlit("d");
        reveal_strlit("e");
        reveal_strlit("f");
    }
    let s: &'static str = if n == 0 {
        "0"
    } else if n == 1 {
        "1"
    } else if n == 2 {
        "2"
    } else if n == 3 {
        "3"
    } else if n == 4 {
        "4"
    } else if n == 5 {
        "5"
    } else if n == 6 {
        "6"
    } else if n == 7 {
        "7"
    } else if n == 8 {
        "8"
    } else if n == 9 {
        "9"
    } else if n == 10 {
        "a"
    } else if n == 11 {
        "b"
    } else if n == 12 {
        "c"
    } else if n == 13 {
        "d"
    } else if n == 14 {
        "e"
    } else {
        "f"
    };
    assert(s@ =~= seq![hex_char(n as int)]);
    s
}

/// A hash as sixteen hexadecimal digits in lower case.
pub fn hash_hex(hash: u64) -> (s: String)
    ensures
        s@ == hex_digits(hash),
{
    let mut s: String = String::new();
    let mut i: u64 = 0;
    while i < 16
        invariant
            i <= 16,
            s@ == hex_digits(hash).take(i as int),
        decreases 16 - i,
    {
        let shift: u64 = 60 - 4 * i;
        let digit: u64 = (hash >> shift) & 0xf;
        assert(digit < 16) by (bit_vector)
            requires
                digit == (hash >> shift) & 0xf,
        ;
        let ghost before = s@;
        s.append(hex_digit(digit as u8));
        proof {
            assert(s@ =~= hex_digits(hash).take(i + 1));
        }
        i = i + 1;
    }
    assert(hex_digits(hash).take(16) =~= hex_digits(hash));
    s
}

/// The difference hash of a tile as sixteen hexadecimal digits, and sixteen
/// zeros for a buffer that is no tile.
pub fn dhash_9x8_js(data: &[u8]) -> (s: String)
    ensures
        s@ == hex_digits(difference_hash(data@)),
{
    let hash: u64 = dhash_9x8(data);
    hash_hex(hash)
}

} // verus!
