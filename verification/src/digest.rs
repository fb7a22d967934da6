//! What the digest of a sequence of bits is, and what follows from that.
//!
//! A digest packs the bits four at a time, most significant bit first, and
//! writes each group of four as one lowercase hexadecimal character. A last
//! group that is short is filled up with zero bits on its low side.

use vstd::prelude::*;

verus! {

/// The value, 0 or 1, of the bit at position `i`; 0 past either end.
pub open spec fn bit_value(bits: Seq<bool>, i: int) -> int {
    if 0 <= i < bits.len() && bits[i] {
        1
    } else {
        0
    }
}

/// The value, 0 to 15, of the group of four bits that starts at `4 * group`.
pub open spec fn nibble(bits: Seq<bool>, group: int) -> int {
    8 * bit_value(bits, 4 * group) + 4 * bit_value(bits, 4 * group + 1) + 2 * bit_value(
        bits,
        4 * group + 2,
    ) + bit_value(bits, 4 * group + 3)
}

/// The lowercase hexadecimal character for a value from 0 to 15.
pub open spec fn hex_char(value: int) -> char {
    if value == 0 {
        '0'
    } else if value == 1 {
        '1'
    } else if value == 2 {
        '2'
    } else if value == 3 {
        '3'
    } else if value == 4 {
        '4'
    } else if value == 5 {
        '5'
    } else if value == 6 {
        '6'
    } else if value == 7 {
        '7'
    } else if value == 8 {
        '8'
    } else if value == 9 {
        '9'
    } else if value == 10 {
        'a'
    } else if value == 11 {
        'b'
    } else if value == 12 {
        'c'
    } else if value == 13 {
        'd'
    } else if value == 14 {
        'e'
    } else {
        'f'
    }
}

/// The number of characters in the digest of `bit_count` bits: a quarter of
/// the bits, rounded up.
pub open spec fn digest_len(bit_count: nat) -> nat {
    ((bit_count + 3) / 4) as nat
}

/// The digest of a sequence of bits.
pub open spec fn digest(bits: Seq<bool>) -> Seq<char> {
    Seq::new(digest_len(bits.len()), |group: int| hex_char(nibble(bits, group)))
}

/// The first `groups` characters of the digest of `bits`.
pub open spec fn digest_prefix(bits: Seq<bool>, groups: int) -> Seq<char> {
    Seq::new(groups as nat, |group: int| hex_char(nibble(bits, group)))
}

/// The value of the first `count` bits of the group that starts at `start`,
/// read as a binary number, for `count` up to 3.
pub open spec fn partial_group(bits: Seq<bool>, start: int, count: int) -> int {
    if count <= 0 {
        0
    } else if count == 1 {
        bit_value(bits, start)
    } else if count == 2 {
        2 * bit_value(bits, start) + bit_value(bits, start + 1)
    } else {
        4 * bit_value(bits, start) + 2 * bit_value(bits, start + 1) + bit_value(bits, start + 2)
    }
}

/// The one-character string for a value from 0 to 15.
pub fn hex_digit(value: u8) -> (digit: &'static str)
    requires
        value < 16,
    ensures
        digit@ == seq![hex_char(value as int)],
{
    proof {
        reveal_strlit("0");
        reveal_strlit("1");
        reveal_strlit("2");
        reveal_strlit("3");
        reveal_strlit("4");
        reveal_strlit("5");
        reveal_strlit("6");
        reveal_strlit("7");
        reveal_strlit("8");
        reveal_strlit("9");
        reveal_strlit("a");
        reveal_strlit("b");
        reveal_strlit("c");
        reveal_strlit("d");
        reveal_strlit("e");
        reveal_strlit("f");
    }
    let digit = match value {
        0 => "0",
        1 => "1",
        2 => "2",
        3 => "3",
        4 => "4",
        5 => "5",
        6 => "6",
        7 => "7",
        8 => "8",
        9 => "9",
        10 => "a",
        11 => "b",
        12 => "c",
        13 => "d",
        14 => "e",
        _ => "f",
    };
    assert(digit@ =~= seq![hex_char(value as int)]);
    digit
}

/// A group of four bits has a value from 0 to 15.
pub proof fn lemma_nibble_range(bits: Seq<bool>, group: int)
    ensures
        0 <= nibble(bits, group) < 16,
{
}

/// Two values from 0 to 15 with the same hexadecimal character are equal.
pub proof fn lemma_hex_char_injective(a: int, b: int)
    requires
        0 <= a < 16,
        0 <= b < 16,
        hex_char(a) == hex_char(b),
    ensures
        a == b,
{
}

/// The digest of `n` bits has a quarter of `n` characters, rounded up, and
/// each of them is the character of its group of four.
pub proof fn lemma_digest_len(bits: Seq<bool>)
    ensures
        digest(bits).len() == digest_len(bits.len()),
        4 * digest(bits).len() >= bits.len(),
        4 * digest(bits).len() < bits.len() + 4,
        forall|group: int|
            0 <= group < digest(bits).len() ==> digest(bits)[group] == hex_char(
                nibble(bits, group),
            ),
{
}

/// The digest of `side * side` bits has `ceil(side * side / 4)` characters:
/// 16 for a side of 8, 64 for a side of 16.
pub proof fn lemma_digest_len_of_square(bits: Seq<bool>, side: nat)
    requires
        bits.len() == side * side,
    ensures
        digest(bits).len() == (side * side + 3) / 4,
        side == 8 ==> digest(bits).len() == 16,
        side == 16 ==> digest(bits).len() == 64,
{
}

/// Packing into groups of four loses nothing: two sequences of bits of one
/// length have the same digest if and only if they are the same sequence.
pub proof fn lemma_digest_injective(a: Seq<bool>, b: Seq<bool>)
    requires
        a.len() == b.len(),
    ensures
        digest(a) == digest(b) <==> a == b,
{
    if digest(a) == digest(b) {
        assert forall|i: int| 0 <= i < a.len() implies a[i] == b[i] by {
            let group = i / 4;
            assert(0 <= group < digest(a).len());
            assert(digest(a)[group] == hex_char(nibble(a, group)));
            assert(digest(b)[group] == hex_char(nibble(b, group)));
            lemma_nibble_range(a, group);
            lemma_nibble_range(b, group);
            lemma_hex_char_injective(nibble(a, group), nibble(b, group));
            assert(i == 4 * group || i == 4 * group + 1 || i == 4 * group + 2 || i == 4 * group
                + 3);
        }
        assert(a =~= b);
    }
}

} // verus!
