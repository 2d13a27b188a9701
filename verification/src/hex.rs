//! The canonical serialization of a grid: cells packed four at a time into
//! hexadecimal digits, the first cell of each group as the low bit, one
//! digit per group in row-major order — the final group possibly partial,
//! its missing high bits zero — and a single space after every fourth digit
//! for readability. Every cell is encoded, so two grids with the same cell
//! count are equal cell by cell exactly when their hex strings are equal;
//! [`lemma_hex_canonical`] proves it.

use vstd::prelude::*;

verus! {

/// The cell at index `p` as one bit: 1 when it exists and is live, 0 when
/// it is dead or lies beyond the end of the cells.
pub open spec fn cell_bit(cells: Seq<bool>, p: int) -> nat {
    if 0 <= p < cells.len() && cells[p] {
        1nat
    } else {
        0nat
    }
}

/// Value in `0..16` of the group of four cells starting at index `4 * i`,
/// the first cell of the group as the low bit. In a trailing partial group
/// the missing high bits are zero.
pub open spec fn group_val(cells: Seq<bool>, i: int) -> nat {
    cell_bit(cells, 4 * i) + 2 * cell_bit(cells, 4 * i + 1) + 4 * cell_bit(cells, 4 * i + 2) + 8
        * cell_bit(cells, 4 * i + 3)
}

/// Number of digits that encode `len` cells: one per complete group of four
/// cells, and one more for a trailing partial group.
pub open spec fn group_count(len: int) -> int {
    if len % 4 == 0 {
        len / 4
    } else {
        len / 4 + 1
    }
}

/// The hexadecimal digit for a value in `0..16`.
pub open spec fn hex_digit(v: nat) -> char {
    if v == 0 {
        '0'
    } else if v == 1 {
        '1'
    } else if v == 2 {
        '2'
    } else if v == 3 {
        '3'
    } else if v == 4 {
        '4'
    } else if v == 5 {
        '5'
    } else if v == 6 {
        '6'
    } else if v == 7 {
        '7'
    } else if v == 8 {
        '8'
    } else if v == 9 {
        '9'
    } else if v == 10 {
        'a'
    } else if v == 11 {
        'b'
    } else if v == 12 {
        'c'
    } else if v == 13 {
        'd'
    } else if v == 14 {
        'e'
    } else {
        'f'
    }
}

/// The characters contributed by group `i`: its hex digit, followed by a
/// separating space after every fourth group.
pub open spec fn group_chars(cells: Seq<bool>, i: int) -> Seq<char> {
    if i % 4 == 3 {
        seq![hex_digit(group_val(cells, i)), ' ']
    } else {
        seq![hex_digit(group_val(cells, i))]
    }
}

/// The serialization of the first `k` groups of four cells.
pub open spec fn hex_prefix(cells: Seq<bool>, k: int) -> Seq<char>
    decreases k,
{
    if k <= 0 {
        Seq::empty()
    } else {
        hex_prefix(cells, k - 1) + group_chars(cells, k - 1)
    }
}

/// The full serialization: one digit per group of four cells, the final
/// group possibly partial, so that every cell is encoded.
pub open spec fn hex_spec(cells: Seq<bool>) -> Seq<char> {
    hex_prefix(cells, group_count(cells.len() as int))
}

/// The one-character string for a hexadecimal digit value.
pub fn hex_digit_str(v: u8) -> (r: &'static str)
    requires
        v < 16,
    ensures
        r@ =~= seq![hex_digit(v as nat)],
{
    proof {
        reveal_strlit("0");
        reveal_strlit("1");
        reveal_strlit("2");
        reveal_strlit("3");
        reveal_strlit("4");
        reveal_strlit("5");
        reveal_strlit("6");
        reveal_strlit("7");
        reveal_strlit("8");
        reveal_strlit("9");
        reveal_strlit("a");
        reveal_strlit("b");
        reveal_strlit("c");
        reveal_strlit("d");
        reveal_strlit("e");
        reveal_strlit("f");
    }
    match v {
        0 => "0",
        1 => "1",
        2 => "2",
        3 => "3",
        4 => "4",
        5 => "5",
        6 => "6",
        7 => "7",
        8 => "8",
        9 => "9",
        10 => "a",
        11 => "b",
        12 => "c",
        13 => "d",
        14 => "e",
        _ => "f",
    }
}

/// Helper for [`lemma_dead_grid_hex`]: the serialization of the first `k`
/// groups of an all-dead grid is `k` digits `'0'` with a space after every
/// fourth digit, so character `i` is a space exactly when `i % 5 == 4`.
proof fn lemma_dead_hex_prefix(cells: Seq<bool>, k: int)
    requires
        0 <= k,
        forall|p: int| 0 <= p < cells.len() ==> !cells[p],
    ensures
        hex_prefix(cells, k).len() == k + k / 4,
        forall|i: int|
            0 <= i < hex_prefix(cells, k).len() ==> hex_prefix(cells, k)[i] == (if i % 5 == 4 {
                ' '
            } else {
                '0'
            }),
    decreases k,
{
    if k > 0 {
        lemma_dead_hex_prefix(cells, k - 1);
        assert(group_val(cells, k - 1) == 0);
        assert(hex_digit(0) == '0');
    }
}

/// An all-dead grid serializes to `'0'` digits only — one per group of four
/// cells, the final group possibly partial, so all cells are encoded — with
/// a separating space after every fourth digit: the character at position
/// `i` is a space exactly when `i % 5 == 4`, and a `'0'` otherwise.
pub proof fn lemma_dead_grid_hex(cells: Seq<bool>)
    requires
        forall|p: int| 0 <= p < cells.len() ==> !cells[p],
    ensures
        hex_spec(cells).len() == group_count(cells.len() as int) + group_count(
            cells.len() as int,
        ) / 4,
        forall|i: int|
            0 <= i < hex_spec(cells).len() ==> hex_spec(cells)[i] == (if i % 5 == 4 {
                ' '
            } else {
                '0'
            }),
{
    lemma_dead_hex_prefix(cells, group_count(cells.len() as int));
}

/// The serialization of the first `k` groups is `k` digits with a space
/// after every fourth one, so it holds `k + k / 4` characters.
proof fn lemma_hex_prefix_len(cells: Seq<bool>, k: int)
    requires
        0 <= k,
    ensures
        hex_prefix(cells, k).len() == k + k / 4,
    decreases k,
{
    if k > 0 {
        lemma_hex_prefix_len(cells, k - 1);
    }
}

/// Group `i`'s digit stands at position `i + i / 4` of the serialization:
/// `i` digits and `i / 4` spaces precede it.
proof fn lemma_hex_prefix_digit(cells: Seq<bool>, k: int, i: int)
    requires
        0 <= i < k,
    ensures
        hex_prefix(cells, k).len() == k + k / 4,
        hex_prefix(cells, k)[i + i / 4] == hex_digit(group_val(cells, i)),
    decreases k,
{
    lemma_hex_prefix_len(cells, k);
    if i == k - 1 {
        lemma_hex_prefix_len(cells, k - 1);
    } else {
        lemma_hex_prefix_digit(cells, k - 1, i);
    }
}

/// The hex string is canonical: two grids with the same cell count hold the
/// same cells exactly when their hex strings are equal. Every cell is
/// encoded in its group's digit, and distinct digit values give distinct
/// characters.
pub proof fn lemma_hex_canonical(a: Seq<bool>, b: Seq<bool>)
    requires
        a.len() == b.len(),
    ensures
        (hex_spec(a) == hex_spec(b)) <==> (a == b),
{
    if hex_spec(a) == hex_spec(b) {
        let len = a.len() as int;
        let groups = group_count(len);
        assert forall|p: int| 0 <= p < len implies a[p] == b[p] by {
            let i = p / 4;
            assert(0 <= i < groups);
            lemma_hex_prefix_digit(a, groups, i);
            lemma_hex_prefix_digit(b, groups, i);
            assert(hex_digit(group_val(a, i)) == hex_digit(group_val(b, i)));
            assert(group_val(a, i) < 16 && group_val(b, i) < 16);
            assert(group_val(a, i) == group_val(b, i));
            assert(cell_bit(a, p) == cell_bit(b, p));
        }
        assert(a =~= b);
    }
    if a == b {
        assert(hex_spec(a) == hex_spec(b));
    }
}

} // verus!
