//! The board as text: a bordered grid with each tile right-aligned in a field
//! of four characters and empty cells left blank.
use vstd::prelude::*;
use crate::board::{Board, Direction};

verus! {

/// The character of the decimal digit `d`.
pub open spec fn digit_char(d: int) -> char {
    if d == 0 {
        '0'
    } else if d == 1 {
        '1'
    } else if d == 2 {
        '2'
    } else if d == 3 {
        '3'
    } else if d == 4 {
        '4'
    } else if d == 5 {
        '5'
    } else if d == 6 {
        '6'
    } else if d == 7 {
        '7'
    } else if d == 8 {
        '8'
    } else {
        '9'
    }
}

/// `n` in decimal, without leading zeros.
pub open spec fn decimal(n: nat) -> Seq<char>
    decreases n,
{
    if n < 10 {
        seq![digit_char(n as int)]
    } else {
        decimal(n / 10).push(digit_char((n % 10) as int))
    }
}

/// `n` spaces, none where `n` is not positive.
pub open spec fn spaces(n: int) -> Seq<char> {
    Seq::new(if n > 0 { n as nat } else { 0 }, |i: int| ' ')
}

/// A cell's field: blank when empty, else the tile right-aligned in four
/// characters (wider tiles take the room they need).
pub open spec fn cell_text(v: int) -> Seq<char> {
    if v == 0 {
        spaces(4)
    } else {
        spaces(4 - decimal(v as nat).len()) + decimal(v as nat)
    }
}

/// The line between rows and around the grid: `+----+----+----+----+`.
pub open spec fn separator() -> Seq<char> {
    Seq::new(21, |i: int| if i % 5 == 0 { '+' } else { '-' })
}

/// A row: its four fields between bars, then a separator line.
pub open spec fn row_text(row: Seq<int>) -> Seq<char> {
    seq!['|'] + cell_text(row[0]) + seq!['|'] + cell_text(row[1]) + seq!['|'] + cell_text(row[2])
        + seq!['|'] + cell_text(row[3]) + seq!['|', '\n'] + separator() + seq!['\n']
}

/// The whole grid as text.
pub open spec fn board_text(g: Seq<Seq<int>>) -> Seq<char> {
    separator() + seq!['\n'] + row_text(g[0]) + row_text(g[1]) + row_text(g[2]) + row_text(g[3])
}

/// The arrow that shows a direction.
pub open spec fn arrow_char(d: Direction) -> char {
    match d {
        Direction::Left => '←',
        Direction::Up => '↑',
        Direction::Right => '→',
        Direction::Down => '↓',
    }
}

fn digit_str(d: usize) -> (s: &'static str)
    requires
        d < 10,
    ensures
        s@ == seq![digit_char(d as int)],
{
    proof {
        reveal_strlit("0");
        reveal_strlit("1");
        reveal_strlit("2");
        reveal_strlit("3");
        reveal_strlit("4");
        reveal_strlit("5");
        reveal_strlit("6");
        reveal_strlit("7");
        reveal_strlit("8");
        reveal_strlit("9");
    }
    let s = if d == 0 {
        "0"
    } else if d == 1 {
        "1"
    } else if d == 2 {
        "2"
    } else if d == 3 {
        "3"
    } else if d == 4 {
        "4"
    } else if d == 5 {
        "5"
    } else if d == 6 {
        "6"
    } else if d == 7 {
        "7"
    } else if d == 8 {
        "8"
    } else {
        "9"
    };
    assert(s@ =~= seq![digit_char(d as int)]);
    s
}

/// Appends `n` in decimal to `s`.
fn push_decimal(s: &mut String, n: usize)
    ensures
        final(s)@ == old(s)@ + decimal(n as nat),
    decreases n,
{
    if n >= 10 {
        push_decimal(s, n / 10);
    }
    s.append(digit_str(n % 10));
    assert(final(s)@ =~= old(s)@ + decimal(n as nat));
}

/// Appends the field of a cell holding `v` to `s`.
fn push_cell(s: &mut String, v: usize)
    ensures
        final(s)@ == old(s)@ + cell_text(v as int),
{
    proof {
        reveal_strlit(" ");
        reveal_strlit("    ");
    }
    if v == 0 {
        s.append("    ");
        assert(final(s)@ =~= old(s)@ + cell_text(v as int));
    } else {
        let mut digits = String::new();
        push_decimal(&mut digits, v);
        assert(digits@ =~= decimal(v as nat));
        let len = digits.as_str().unicode_len();
        let ghost start = s@;
        let mut k: usize = len;
        while k < 4
            invariant
                len <= k <= 4 || (len > 4 && k == len),
                len == decimal(v as nat).len(),
                s@ == start + spaces(k - len),
            decreases 4 - k,
        {
            proof {
                reveal_strlit(" ");
            }
            s.append(" ");
            assert(" "@ =~= seq![' ']);
            assert(spaces(k + 1 - len) =~= spaces(k - len).push(' '));
            assert(s@ =~= start + spaces(k + 1 - len));
            k = k + 1;
        }
        assert(spaces(k - len) =~= spaces(4 - decimal(v as nat).len()));
        s.append(digits.as_str());
        assert(s@ =~= old(s)@ + cell_text(v as int));
    }
}

/// The text of the grid down to the separator below row `n`.
pub open spec fn text_upto(g: Seq<Seq<int>>, n: int) -> Seq<char>
    decreases n,
{
    if n <= 0 {
        separator() + seq!['\n']
    } else {
        text_upto(g, n - 1) + row_text(g[n - 1])
    }
}

/// The text of a row of tiles.
fn row_string(row: [usize; 4]) -> (t: String)
    ensures
        t@ == row_text(seq![row[0] as int, row[1] as int, row[2] as int, row[3] as int]),
{
    proof {
        reveal_strlit("+----+----+----+----+");
        reveal_strlit("\n");
        reveal_strlit("|");
        reveal_strlit("|\n");
    }
    let ghost cells = seq![row[0] as int, row[1] as int, row[2] as int, row[3] as int];
    let sep = "+----+----+----+----+";
    assert(sep@ =~= separator());
    let mut t = String::new();
    t.append("|");
    assert(t@ =~= seq!['|']);
    push_cell(&mut t, row[0]);
    t.append("|");
    push_cell(&mut t, row[1]);
    t.append("|");
    push_cell(&mut t, row[2]);
    t.append("|");
    push_cell(&mut t, row[3]);
    t.append("|\n");
    assert("|\n"@ =~= seq!['|', '\n']);
    t.append(sep);
    t.append("\n");
    assert("\n"@ =~= seq!['\n']);
    assert(t@ == row_text(cells));
    t
}

impl Board {
    /// The board as text: a separator line `+----+----+----+----+` above the
    /// grid and below each row, each row `|` followed by its four fields, each
    /// closed by `|`.
    pub fn render(&self) -> (t: String)
        ensures
            t@ == board_text(self@),
    {
        let rows = self.rows();
        proof {
            reveal_strlit("+----+----+----+----+");
            reveal_strlit("\n");
        }
        let sep = "+----+----+----+----+";
        assert(sep@ =~= separator());
        let mut t = String::from_str(sep);
        t.append("\n");
        assert("\n"@ =~= seq!['\n']);
        let mut r: usize = 0;
        while r < 4
            invariant
                r <= 4,
                crate::board::grid_of(rows) == self@,
                t@ == text_upto(self@, r as int),
            decreases 4 - r,
        {
            let line = row_string(rows[r]);
            assert(self@[r as int] =~= seq![
                rows[r as int][0] as int,
                rows[r as int][1] as int,
                rows[r as int][2] as int,
                rows[r as int][3] as int,
            ]);
            t.append(line.as_str());
            r = r + 1;
        }
        proof {
            reveal_with_fuel(text_upto, 5);
        }
        t
    }
}

impl Direction {
    /// The arrow that shows the direction.
    pub fn arrow(&self) -> (s: &'static str)
        ensures
            s@ == seq![arrow_char(*self)],
    {
        proof {
            reveal_strlit("←");
            reveal_strlit("↑");
            reveal_strlit("→");
            reveal_strlit("↓");
        }
        let s = match self {
            Direction::Left => "←",
            Direction::Up => "↑",
            Direction::Right => "→",
            Direction::Down => "↓",
        };
        assert(s@ =~= seq![arrow_char(*self)]);
        s
    }
}

} // verus!
