//! The printed form of a position: one line per row, each tile's decimal
//! value right-aligned in its column.
use crate::position::{all_valid_exponents, cell_index, Position};
use crate::tile::tile_value;
use vstd::prelude::*;
use vstd::string::StringExecFns;

verus! {

/// The decimal digit character for `d < 10`.
pub open spec fn digit_char(d: nat) -> char {
    if d == 0 {
        '0'
    } else if d == 1 {
        '1'
    } else if d == 2 {
        '2'
    } else if d == 3 {
        '3'
    } else if d == 4 {
        '4'
    } else if d == 5 {
        '5'
    } else if d == 6 {
        '6'
    } else if d == 7 {
        '7'
    } else if d == 8 {
        '8'
    } else {
        '9'
    }
}

/// The decimal representation of `n`, without leading zeros.
pub open spec fn decimal(n: nat) -> Seq<char>
    decreases n,
{
    if n < 10 {
        seq![digit_char(n)]
    } else {
        decimal(n / 10).push(digit_char(n % 10))
    }
}

/// The decimal text of the tile in cell `(row, col)`.
pub open spec fn cell_text(s: Seq<u8>, row: int, col: int) -> Seq<char> {
    decimal(tile_value(s[cell_index(row, col)] as nat))
}

/// The larger of two numbers.
pub open spec fn larger(a: nat, b: nat) -> nat {
    if a >= b {
        a
    } else {
        b
    }
}

/// The longest tile text among the first `rows` cells of column `col`,
/// and at least 1.
pub open spec fn width_of_rows(s: Seq<u8>, col: int, rows: nat) -> nat
    decreases rows,
{
    if rows == 0 {
        1
    } else {
        larger(width_of_rows(s, col, (rows - 1) as nat), cell_text(s, rows - 1, col).len())
    }
}

/// The width of column `col`: the longest tile text in it, and at least 1.
pub open spec fn column_width(s: Seq<u8>, col: int) -> nat {
    width_of_rows(s, col, 4)
}

/// `n` spaces.
pub open spec fn spaces(n: nat) -> Seq<char> {
    Seq::new(n, |i: int| ' ')
}

/// Cell `(row, col)` right-aligned to the width `w`, followed by a space
/// unless it ends the row.
pub open spec fn cell_field(s: Seq<u8>, row: int, col: int, w: nat) -> Seq<char> {
    let t = cell_text(s, row, col);
    let gap = if col < 3 {
        seq![' ']
    } else {
        Seq::empty()
    };
    spaces((w - t.len()) as nat) + t + gap
}

/// Row `row` as a line, ending in a newline.
pub open spec fn row_text(s: Seq<u8>, row: int) -> Seq<char> {
    cell_field(s, row, 0, column_width(s, 0)) + cell_field(s, row, 1, column_width(s, 1))
        + cell_field(s, row, 2, column_width(s, 2)) + cell_field(s, row, 3, column_width(s, 3))
        + seq!['\n']
}

/// The whole grid as four lines.
pub open spec fn grid_text(s: Seq<u8>) -> Seq<char> {
    row_text(s, 0) + row_text(s, 1) + row_text(s, 2) + row_text(s, 3)
}

/// The digit character for `d < 10`, as a string.
fn digit_str(d: u32) -> (r: &'static str)
    requires
        d < 10,
    ensures
        r@ == seq![digit_char(d as nat)],
{
    proof {
        reveal_strlit("0");
        reveal_strlit("1");
        reveal_strlit("2");
        reveal_strlit("3");
        reveal_strlit("4");
        reveal_strlit("5");
        reveal_strlit("6");
        reveal_strlit("7");
        reveal_strlit("8");
        reveal_strlit("9");
    }
    let r = if d == 0 {
        "0"
    } else if d == 1 {
        "1"
    } else if d == 2 {
        "2"
    } else if d == 3 {
        "3"
    } else if d == 4 {
        "4"
    } else if d == 5 {
        "5"
    } else if d == 6 {
        "6"
    } else if d == 7 {
        "7"
    } else if d == 8 {
        "8"
    } else {
        "9"
    };
    assert(r@ =~= seq![digit_char(d as nat)]);
    r
}

/// Appends the decimal representation of `n`.
fn push_decimal(out: &mut String, n: u32)
    ensures
        final(out)@ == old(out)@ + decimal(n as nat),
    decreases n,
{
    if n >= 10 {
        push_decimal(out, n / 10);
    }
    out.append(digit_str(n % 10));
    assert(final(out)@ =~= old(out)@ + decimal(n as nat));
}

/// The number of characters in the decimal representation of `n`.
fn decimal_len(n: u32) -> (r: usize)
    ensures
        r == decimal(n as nat).len(),
    decreases n,
{
    if n >= 10 {
        let k = decimal_len(n / 10);
        proof {
            lemma_decimal_len_bound(n as nat);
        }
        assert(decimal(n as nat).len() == decimal((n / 10) as nat).len() + 1);
        k + 1
    } else {
        1
    }
}

/// `10^k`.
spec fn ten_pow(k: nat) -> nat
    decreases k,
{
    if k == 0 {
        1
    } else {
        10 * ten_pow((k - 1) as nat)
    }
}

/// Numbers below `10^k` have at most `k` digits, and every number has one.
proof fn lemma_decimal_len_below(n: nat, k: nat)
    requires
        k >= 1,
        n < ten_pow(k),
    ensures
        1 <= decimal(n).len() <= k,
    decreases n,
{
    if n >= 10 {
        if k == 1 {
            assert(ten_pow(1) == 10);
        }
        assert(n / 10 < ten_pow((k - 1) as nat));
        lemma_decimal_len_below(n / 10, (k - 1) as nat);
    }
}

/// A decimal representation of a `u32` has between 1 and 10 characters.
proof fn lemma_decimal_len_bound(n: nat)
    requires
        n <= u32::MAX,
    ensures
        1 <= decimal(n).len() <= 10,
{
    reveal_with_fuel(ten_pow, 11);
    lemma_decimal_len_below(n, 10);
}

/// Appends `n` spaces.
fn push_spaces(out: &mut String, n: usize)
    ensures
        final(out)@ == old(out)@ + spaces(n as nat),
{
    let mut i: usize = 0;
    while i < n
        invariant
            i <= n,
            out@ == old(out)@ + spaces(i as nat),
        decreases n - i,
    {
        proof {
            reveal_strlit(" ");
        }
        out.append(" ");
        assert(out@ =~= old(out)@ + spaces((i + 1) as nat));
        i = i + 1;
    }
}

impl Position {
    /// The printed width of column `col`.
    fn column_width_of(&self, col: usize) -> (r: usize)
        requires
            col < 4,
            all_valid_exponents(self@),
        ensures
            r == column_width(self@, col as int),
            r <= 10,
    {
        let mut w: usize = 1;
        let mut row: usize = 0;
        while row < 4
            invariant
                row <= 4,
                col < 4,
                all_valid_exponents(self@),
                w <= 10,
                w == width_of_rows(self@, col as int, row as nat),
            decreases 4 - row,
        {
            let tile = self.tile_at(row, col);
            proof {
                lemma_decimal_len_bound(tile as nat);
            }
            let len = decimal_len(tile);
            if len > w {
                w = len;
            }
            row = row + 1;
        }
        w
    }

    /// Appends cell `(row, col)` right-aligned to `width`, and a space unless
    /// it ends the row.
    fn push_field(&self, out: &mut String, row: usize, col: usize, width: usize)
        requires
            row < 4,
            col < 4,
            all_valid_exponents(self@),
            width == column_width(self@, col as int),
        ensures
            final(out)@ == old(out)@ + cell_field(self@, row as int, col as int, width as nat),
    {
        let tile = self.tile_at(row, col);
        let len = decimal_len(tile);
        proof {
            reveal_with_fuel(width_of_rows, 5);
        }
        push_spaces(out, width - len);
        push_decimal(out, tile);
        if col < 3 {
            proof {
                reveal_strlit(" ");
            }
            out.append(" ");
        }
        assert(final(out)@ =~= old(out)@ + cell_field(self@, row as int, col as int, width as nat));
    }

    /// Appends row `row` as a line.
    fn push_row(&self, out: &mut String, row: usize, widths: &[usize; 4])
        requires
            row < 4,
            all_valid_exponents(self@),
            forall|c: int| 0 <= c < 4 ==> #[trigger] widths@[c] == column_width(self@, c),
        ensures
            final(out)@ == old(out)@ + row_text(self@, row as int),
    {
        self.push_field(out, row, 0, widths[0]);
        self.push_field(out, row, 1, widths[1]);
        self.push_field(out, row, 2, widths[2]);
        self.push_field(out, row, 3, widths[3]);
        proof {
            reveal_strlit("\n");
        }
        out.append("\n");
        assert(final(out)@ =~= old(out)@ + row_text(self@, row as int));
    }

    /// The grid as text: one line per row, each ending in a newline; each
    /// tile's decimal value right-aligned to the widest value of its column,
    /// and neighbouring columns separated by one space.
    pub fn to_string(&self) -> (r: String)
        requires
            all_valid_exponents(self@),
        ensures
            r@ == grid_text(self@),
    {
        let widths: [usize; 4] = [
            self.column_width_of(0),
            self.column_width_of(1),
            self.column_width_of(2),
            self.column_width_of(3),
        ];
        let mut out = String::new();
        self.push_row(&mut out, 0, &widths);
        self.push_row(&mut out, 1, &widths);
        self.push_row(&mut out, 2, &widths);
        self.push_row(&mut out, 3, &widths);
        assert(out@ =~= grid_text(self@));
        out
    }
}

} // verus!
