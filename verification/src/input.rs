//! Reading a target from a line of text typed by the player: a row and a
//! column, written as two decimal numbers with a comma between them.

use crate::board::{in_bounds, BOARD_SIZE};
use vstd::prelude::*;

verus! {

/// An ASCII blank: space, tab, line feed, vertical tab, form feed or
/// carriage return.
pub open spec fn is_blank(b: u8) -> bool {
    b == 32 || 9 <= b <= 13
}

/// An ASCII decimal digit.
pub open spec fn is_digit(b: u8) -> bool {
    48 <= b <= 57
}

/// The number that a run of decimal digits denotes.
pub open spec fn decimal(digits: Seq<u8>) -> nat
    decreases digits.len(),
{
    if digits.len() == 0 {
        0
    } else {
        decimal(digits.drop_last()) * 10 + (digits.last() - 48) as nat
    }
}

/// The bytes of `s` from `lo` up to `hi` are a number whose digits stand
/// from `from` up to `to`: before the digits only blanks and then, at most, a
/// single `+`; at least one digit; after the digits only blanks.
pub open spec fn number_at(s: Seq<u8>, lo: int, hi: int, from: int, to: int) -> bool {
    &&& 0 <= lo <= from < to <= hi <= s.len()
    &&& forall|i: int| from <= i < to ==> is_digit(#[trigger] s[i])
    &&& forall|i: int| to <= i < hi ==> is_blank(#[trigger] s[i])
    &&& forall|i: int| lo <= i < from - 1 ==> is_blank(#[trigger] s[i])
    &&& from > lo ==> is_blank(s[from - 1]) || s[from - 1] == 43
}

/// The bytes of `s` from `lo` up to `hi` are a way of writing the number `n`.
pub open spec fn field_is(s: Seq<u8>, lo: int, hi: int, n: nat) -> bool {
    exists|from: int, to: int| #[trigger]
        number_at(s, lo, hi, from, to) && decimal(s.subrange(from, to)) == n
}

/// The line `s` names the square `(row, col)`: a way of writing `row`, a
/// comma, a way of writing `col`, and nothing else.
pub open spec fn line_is(s: Seq<u8>, row: nat, col: nat) -> bool {
    exists|comma: int|
        0 <= comma < s.len() && s[comma] == 44 && #[trigger] field_is(s, 0, comma, row)
            && field_is(s, comma + 1, s.len() as int, col)
}

fn byte_is_blank(b: u8) -> (blank: bool)
    ensures
        blank == is_blank(b),
{
    b == 32 || (9 <= b && b <= 13)
}

fn byte_is_digit(b: u8) -> (digit: bool)
    ensures
        digit == is_digit(b),
{
    48 <= b && b <= 57
}

/// Reads the number written in the bytes of `line` from `lo` up to `hi`, if
/// they are a way of writing a number below the grid's side length.
pub fn parse_field(line: &[u8], lo: usize, hi: usize) -> (value: Option<usize>)
    requires
        lo <= hi <= line@.len(),
    ensures
        value matches Some(n) ==> n < BOARD_SIZE && field_is(line@, lo as int, hi as int, n as nat),
        value is None ==> forall|n: nat|
            n < BOARD_SIZE ==> !field_is(line@, lo as int, hi as int, n),
{
    let ghost s = line@;
    let mut i: usize = lo;
    while i < hi && byte_is_blank(line[i])
        invariant
            lo <= i <= hi <= s.len(),
            s == line@,
            forall|j: int| lo <= j < i ==> is_blank(#[trigger] s[j]),
        decreases hi - i,
    {
        i += 1;
    }
    if i < hi && line[i] == 43 {
        i += 1;
    }
    let from: usize = i;
    // The value read so far, held at the side length once it has reached it.
    let mut n: usize = 0;
    while i < hi && byte_is_digit(line[i])
        invariant
            lo <= from <= i <= hi <= s.len(),
            s == line@,
            forall|j: int| from <= j < i ==> is_digit(#[trigger] s[j]),
            n <= BOARD_SIZE,
            n < BOARD_SIZE ==> decimal(s.subrange(from as int, i as int)) == n,
            n == BOARD_SIZE ==> decimal(s.subrange(from as int, i as int)) >= BOARD_SIZE,
        decreases hi - i,
    {
        let digit: usize = (line[i] - 48) as usize;
        proof {
            assert(s.subrange(from as int, i + 1).drop_last() =~= s.subrange(
                from as int,
                i as int,
            ));
        }
        n = if n >= BOARD_SIZE || n * 10 + digit >= BOARD_SIZE {
            BOARD_SIZE
        } else {
            n * 10 + digit
        };
        i += 1;
    }
    let to: usize = i;
    while i < hi && byte_is_blank(line[i])
        invariant
            to <= i <= hi <= s.len(),
            s == line@,
            forall|j: int| to <= j < i ==> is_blank(#[trigger] s[j]),
        decreases hi - i,
    {
        i += 1;
    }
    if from < to && i == hi && n < BOARD_SIZE {
        assert(number_at(s, lo as int, hi as int, from as int, to as int));
        Some(n)
    } else {
        proof {
            assert forall|m: nat| m < BOARD_SIZE implies !field_is(s, lo as int, hi as int, m) by {
                if field_is(s, lo as int, hi as int, m) {
                    let (f, t) = choose|f: int, t: int| #[trigger]
                        number_at(s, lo as int, hi as int, f, t) && decimal(s.subrange(f, t)) == m;
                    assert(is_digit(s[f]));
                    assert(f == from);
                    assert(t == to);
                    assert(false);
                }
            }
        }
        None
    }
}

/// Reads the target that a line of text names. The line must hold a row and
/// a column on the grid, each a decimal number that may have blanks around it
/// and a `+` before it, with one comma between the two. Any other line names
/// no target.
pub fn parse_target(line: &[u8]) -> (target: Option<(usize, usize)>)
    ensures
        target matches Some(t) ==> in_bounds(t.0 as int, t.1 as int) && line_is(
            line@,
            t.0 as nat,
            t.1 as nat,
        ),
        target is None ==> forall|row: nat, col: nat|
            in_bounds(row as int, col as int) ==> !line_is(line@, row, col),
{
    let ghost s = line@;
    let mut comma: usize = 0;
    while comma < line.len() && line[comma] != 44
        invariant
            comma <= s.len(),
            s == line@,
            forall|j: int| 0 <= j < comma ==> #[trigger] s[j] != 44,
        decreases s.len() - comma,
    {
        comma += 1;
    }
    if comma == line.len() {
        return None;
    }
    let row = parse_field(line, 0, comma);
    let col = parse_field(line, comma + 1, line.len());
    proof {
        // Whatever comma a reading of the line splits at, it is the first one.
        assert forall|k: int, a: nat|
            0 <= k < s.len() && s[k] == 44 && #[trigger] field_is(s, 0, k, a) implies k
            == comma by {
            let (f, t) = choose|f: int, t: int| #[trigger]
                number_at(s, 0, k, f, t) && decimal(s.subrange(f, t)) == a;
            if comma < k {
                assert(is_digit(s[comma as int]) || is_blank(s[comma as int]) || s[comma as int]
                    == 43);
            }
        }
    }
    match (row, col) {
        (Some(r), Some(c)) => Some((r, c)),
        _ => None,
    }
}

/// A line names at most one square: two readings of the same line agree.
pub proof fn lemma_line_names_one_square(s: Seq<u8>, row: nat, col: nat, row2: nat, col2: nat)
    requires
        line_is(s, row, col),
        line_is(s, row2, col2),
    ensures
        row == row2,
        col == col2,
{
    let k = choose|k: int|
        0 <= k < s.len() && s[k] == 44 && #[trigger] field_is(s, 0, k, row) && field_is(
            s,
            k + 1,
            s.len() as int,
            col,
        );
    let k2 = choose|k: int|
        0 <= k < s.len() && s[k] == 44 && #[trigger] field_is(s, 0, k, row2) && field_is(
            s,
            k + 1,
            s.len() as int,
            col2,
        );
    let (f, t) = choose|f: int, t: int| #[trigger]
        number_at(s, 0, k, f, t) && decimal(s.subrange(f, t)) == row;
    let (f2, t2) = choose|f: int, t: int| #[trigger]
        number_at(s, 0, k2, f, t) && decimal(s.subrange(f, t)) == row2;
    if k < k2 {
        assert(is_digit(s[k]) || is_blank(s[k]) || s[k] == 43);
    }
    if k2 < k {
        assert(is_digit(s[k2]) || is_blank(s[k2]) || s[k2] == 43);
    }
    assert(k == k2);
    lemma_one_number(s, 0, k, f, t, f2, t2);
    let n = s.len() as int;
    let (g, u) = choose|g: int, u: int| #[trigger]
        number_at(s, k + 1, n, g, u) && decimal(s.subrange(g, u)) == col;
    let (g2, u2) = choose|g: int, u: int| #[trigger]
        number_at(s, k + 1, n, g, u) && decimal(s.subrange(g, u)) == col2;
    lemma_one_number(s, k + 1, n, g, u, g2, u2);
}

/// The digits of a number stand in one place only.
pub proof fn lemma_one_number(s: Seq<u8>, lo: int, hi: int, from: int, to: int, from2: int, to2: int)
    requires
        number_at(s, lo, hi, from, to),
        number_at(s, lo, hi, from2, to2),
    ensures
        from == from2,
        to == to2,
{
    assert(is_digit(s[from]) && is_digit(s[from2]));
    assert(from == from2);
    if to < to2 {
        assert(is_digit(s[to]) && is_blank(s[to]));
    }
    if to2 < to {
        assert(is_digit(s[to2]) && is_blank(s[to2]));
    }
}

} // verus!
