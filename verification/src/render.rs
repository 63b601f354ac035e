//! Plain-text snapshots of a grid: a console form handed to the
//! external decision program (hidden cells indistinguishable from
//! bombs) and a decorated form for presentation.

use crate::grid::MinesweeperCellType;
use crate::grid::MinesweeperGrid;
use crate::text::decimal_digits;
use crate::text::u64_to_string;
use vstd::prelude::*;

verus! {

/// One row of cells rendered with `f`, space-separated.
pub open spec fn row_str(
    row: Seq<MinesweeperCellType>,
    f: spec_fn(MinesweeperCellType) -> Seq<char>,
) -> Seq<char>
    decreases row.len(),
{
    if row.len() == 0 {
        Seq::empty()
    } else if row.len() == 1 {
        f(row[0])
    } else {
        row_str(row.drop_last(), f) + seq![' '] + f(row.last())
    }
}

/// The whole grid rendered with `f`: rows joined by newlines.
pub open spec fn grid_str(
    g: Seq<Seq<MinesweeperCellType>>,
    f: spec_fn(MinesweeperCellType) -> Seq<char>,
) -> Seq<char>
    decreases g.len(),
{
    if g.len() == 0 {
        Seq::empty()
    } else if g.len() == 1 {
        row_str(g[0], f)
    } else {
        grid_str(g.drop_last(), f) + seq!['\n'] + row_str(g.last(), f)
    }
}

/// The console rendering of one cell: an opaque placeholder for
/// anything not yet revealed (the decision program must not be able to
/// tell a hidden cell from a bomb), the count in decimal otherwise.
pub open spec fn console_cell_fn() -> spec_fn(MinesweeperCellType) -> Seq<char> {
    |c: MinesweeperCellType|
        match c {
            MinesweeperCellType::Revealed(n) => decimal_digits(n as nat),
            _ => seq!['_'],
        }
}

pub open spec fn console_str(g: Seq<Seq<MinesweeperCellType>>) -> Seq<char> {
    grid_str(g, console_cell_fn())
}

/// The decorated emoji for a revealed count; counts above eight (which
/// no reachable grid holds) are clamped to eight.
pub open spec fn digit_emoji(n: int) -> Seq<char> {
    if n == 0 {
        "0️⃣"@
    } else if n == 1 {
        "1️⃣"@
    } else if n == 2 {
        "2️⃣"@
    } else if n == 3 {
        "3️⃣"@
    } else if n == 4 {
        "4️⃣"@
    } else if n == 5 {
        "5️⃣"@
    } else if n == 6 {
        "6️⃣"@
    } else if n == 7 {
        "7️⃣"@
    } else {
        "8️⃣"@
    }
}

/// The decorated rendering of one cell.
pub open spec fn discord_cell_fn() -> spec_fn(MinesweeperCellType) -> Seq<char> {
    |c: MinesweeperCellType|
        match c {
            MinesweeperCellType::Hidden => "🟫"@,
            MinesweeperCellType::Bomb => "💣"@,
            MinesweeperCellType::Exploded => "🧨"@,
            MinesweeperCellType::Revealed(n) => digit_emoji(n as int),
        }
}

pub open spec fn discord_str(g: Seq<Seq<MinesweeperCellType>>) -> Seq<char> {
    grid_str(g, discord_cell_fn())
}

impl MinesweeperGrid {
    /// The plain snapshot handed to the external decision program.
    pub fn to_console_string(&self) -> (s: String)
        ensures
            s@ == console_str(self@),
    {
        let cell_str = |cell: MinesweeperCellType| -> (t: String)
            ensures
                t@ == console_cell_fn()(cell),
            {
                match cell {
                    MinesweeperCellType::Revealed(n) => u64_to_string(n as u64),
                    _ => {
                        proof {
                            reveal_strlit("_");
                            assert("_"@ =~= seq!['_']);
                        }
                        String::from_str("_")
                    },
                }
            };
        self.render(Ghost(console_cell_fn()), cell_str)
    }

    /// The decorated snapshot for presentation.
    pub fn to_discord_string(&self) -> (s: String)
        ensures
            s@ == discord_str(self@),
    {
        let cell_str = |cell: MinesweeperCellType| -> (t: String)
            ensures
                t@ == discord_cell_fn()(cell),
            {
                match cell {
                    MinesweeperCellType::Hidden => String::from_str("🟫"),
                    MinesweeperCellType::Bomb => String::from_str("💣"),
                    MinesweeperCellType::Exploded => String::from_str("🧨"),
                    MinesweeperCellType::Revealed(n) => {
                        if n == 0 {
                            String::from_str("0️⃣")
                        } else if n == 1 {
                            String::from_str("1️⃣")
                        } else if n == 2 {
                            String::from_str("2️⃣")
                        } else if n == 3 {
                            String::from_str("3️⃣")
                        } else if n == 4 {
                            String::from_str("4️⃣")
                        } else if n == 5 {
                            String::from_str("5️⃣")
                        } else if n == 6 {
                            String::from_str("6️⃣")
                        } else if n == 7 {
                            String::from_str("7️⃣")
                        } else {
                            String::from_str("8️⃣")
                        }
                    },
                }
            };
        self.render(Ghost(discord_cell_fn()), cell_str)
    }

    /// Render the grid cell by cell with `cell_str`, cells separated by
    /// spaces and rows by newlines.
    fn render<F: Fn(MinesweeperCellType) -> String>(
        &self,
        Ghost(f): Ghost<spec_fn(MinesweeperCellType) -> Seq<char>>,
        cell_str: F,
    ) -> (s: String)
        requires
            forall|c: MinesweeperCellType| cell_str.requires((c,)),
            forall|c: MinesweeperCellType, t: String|
                cell_str.ensures((c,), t) ==> t@ == f(c),
        ensures
            s@ == grid_str(self@, f),
    {
        let ghost gv = self@;
        let mut s = String::new();
        let mut x: usize = 0;
        while x < self.0.len()
            invariant
                x <= gv.len(),
                gv == self@,
                s@ == grid_str(gv.take(x as int), f),
                forall|c: MinesweeperCellType| cell_str.requires((c,)),
                forall|c: MinesweeperCellType, t: String|
                    cell_str.ensures((c,), t) ==> t@ == f(c),
            decreases gv.len() - x,
        {
            if x > 0 {
                s.append("\n");
                proof {
                    reveal_strlit("\n");
                    assert("\n"@ =~= seq!['\n']);
                }
            }
            let ghost row = gv[x as int];
            let mut y: usize = 0;
            while y < self.0[x].len()
                invariant
                    x < gv.len(),
                    y <= row.len(),
                    gv == self@,
                    row == gv[x as int],
                    s@ == grid_str(gv.take(x as int), f) + (if x > 0 {
                        seq!['\n']
                    } else {
                        Seq::<char>::empty()
                    }) + row_str(row.take(y as int), f),
                    forall|c: MinesweeperCellType| cell_str.requires((c,)),
                    forall|c: MinesweeperCellType, t: String|
                        cell_str.ensures((c,), t) ==> t@ == f(c),
                decreases row.len() - y,
            {
                if y > 0 {
                    s.append(" ");
                    proof {
                        reveal_strlit(" ");
                        assert(" "@ =~= seq![' ']);
                    }
                }
                let cell = self.0[x][y];
                let t = cell_str(cell);
                s.append(t.as_str());
                proof {
                    assert(row.take(y as int + 1).drop_last() =~= row.take(y as int));
                    assert(row.take(y as int + 1).last() == row[y as int]);
                }
                y = y + 1;
            }
            proof {
                assert(row.take(row.len() as int) =~= row);
                assert(gv.take(x as int + 1).drop_last() =~= gv.take(x as int));
                assert(gv.take(x as int + 1).last() == gv[x as int]);
            }
            x = x + 1;
        }
        proof {
            assert(gv.take(gv.len() as int) =~= gv);
        }
        s
    }
}

} // verus!
