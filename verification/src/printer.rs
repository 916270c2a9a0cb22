use vstd::prelude::*;
use vstd::string::*;

use crate::index::{IDX_MATERIAL_EG, IDX_MATERIAL_MG, IDX_PSQT_EG, IDX_PSQT_MG, SIZE_FEATURES};
use crate::piece::{piece_of_ordinal, Piece};

verus! {

/// The character of a decimal digit.
pub open spec fn digit_char(d: int) -> char {
    if d == 0 {
        '0'
    } else if d == 1 {
        '1'
    } else if d == 2 {
        '2'
    } else if d == 3 {
        '3'
    } else if d == 4 {
        '4'
    } else if d == 5 {
        '5'
    } else if d == 6 {
        '6'
    } else if d == 7 {
        '7'
    } else if d == 8 {
        '8'
    } else {
        '9'
    }
}

/// The decimal digits of a number, without leading zeros.
pub open spec fn decimal(n: nat) -> Seq<char>
    decreases n,
{
    if n < 10 {
        seq![digit_char(n as int)]
    } else {
        decimal(n / 10).push(digit_char((n % 10) as int))
    }
}

/// A number in decimal, with a minus sign where it is negative.
pub open spec fn signed_decimal(v: int) -> Seq<char> {
    if v < 0 {
        seq!['-'] + decimal((-v) as nat)
    } else {
        decimal(v as nat)
    }
}

/// That many blanks.
pub open spec fn blanks(n: int) -> Seq<char> {
    Seq::new(
        if n > 0 {
            n as nat
        } else {
            0
        },
        |i: int| ' ',
    )
}

/// One weight as it is printed: in decimal, filled up with blanks on the
/// left to three characters, and followed by a comma and a blank.
pub open spec fn cell(v: int) -> Seq<char> {
    blanks(3 - signed_decimal(v).len()) + signed_decimal(v) + seq![',', ' ']
}

/// The `n` weights from `from` on, each as a cell.
pub open spec fn cells(w: Seq<i64>, from: int, n: int) -> Seq<char>
    decreases n,
{
    if n <= 0 {
        Seq::<char>::empty()
    } else {
        cells(w, from, n - 1) + cell(w[from + n - 1] as int)
    }
}

/// The name of a piece kind.
pub open spec fn piece_name(piece: Piece) -> Seq<char> {
    match piece {
        Piece::Pawn => "Pawn"@,
        Piece::Knight => "Knight"@,
        Piece::Bishop => "Bishop"@,
        Piece::Rook => "Rook"@,
        Piece::Queen => "Queen"@,
        Piece::King => "King"@,
    }
}

/// The material weights of one game phase: a heading and a row of five cells.
pub open spec fn material_text(w: Seq<i64>, start: int, name: Seq<char>) -> Seq<char> {
    "// Material "@ + name + "\n"@ + cells(w, start, 5) + "\n"@
}

/// The first `rows` rows of the table that begins at `base`, as they are
/// printed: the eighth rank first, each rank from the a-file to the h-file.
pub open spec fn grid_text(w: Seq<i64>, base: int, rows: int) -> Seq<char>
    decreases rows,
{
    if rows <= 0 {
        Seq::<char>::empty()
    } else {
        grid_text(w, base, rows - 1) + cells(w, base + 8 * (8 - rows), 8) + "\n"@
    }
}

/// The piece-square tables of the first `pieces` piece kinds of one game
/// phase: for each a heading, its table and an empty line.
pub open spec fn tables_text(w: Seq<i64>, start: int, name: Seq<char>, pieces: int) -> Seq<char>
    decreases pieces,
{
    if pieces <= 0 {
        Seq::<char>::empty()
    } else {
        tables_text(w, start, name, pieces - 1) + "// "@ + piece_name(piece_of_ordinal(pieces - 1))
            + " "@ + name + "\n"@ + grid_text(w, start + 64 * (pieces - 1), 8) + "\n"@
    }
}

/// The weight vector as it is printed: the material weights of the midgame
/// and of the endgame, then the piece-square tables of the midgame and of the
/// endgame.
pub open spec fn report(w: Seq<i64>) -> Seq<char> {
    "\n"@ + material_text(w, IDX_MATERIAL_MG as int, "MG"@) + material_text(
        w,
        IDX_MATERIAL_EG as int,
        "EG"@,
    ) + "\n"@ + tables_text(w, IDX_PSQT_MG as int, "MG"@, 6) + tables_text(
        w,
        IDX_PSQT_EG as int,
        "EG"@,
        6,
    )
}

/// Returns the text of a decimal digit.
fn digit_text(d: u64) -> (t: &'static str)
    requires
        d < 10,
    ensures
        t@ == seq![digit_char(d as int)],
{
    proof {
        reveal_strlit("0");
        reveal_strlit("1");
        reveal_strlit("2");
        reveal_strlit("3");
        reveal_strlit("4");
        reveal_strlit("5");
        reveal_strlit("6");
        reveal_strlit("7");
        reveal_strlit("8");
        reveal_strlit("9");
    }
    let t = if d == 0 {
        "0"
    } else if d == 1 {
        "1"
    } else if d == 2 {
        "2"
    } else if d == 3 {
        "3"
    } else if d == 4 {
        "4"
    } else if d == 5 {
        "5"
    } else if d == 6 {
        "6"
    } else if d == 7 {
        "7"
    } else if d == 8 {
        "8"
    } else {
        "9"
    };
    assert(t@ =~= seq![digit_char(d as int)]);
    t
}

/// Appends the decimal digits of `n`.
fn push_decimal(out: &mut String, n: u64)
    ensures
        final(out)@ == old(out)@ + decimal(n as nat),
    decreases n,
{
    if n >= 10 {
        push_decimal(out, n / 10);
    }
    out.append(digit_text(n % 10));
    proof {
        assert(out@ =~= old(out)@ + decimal(n as nat));
    }
}

/// Appends one weight as a cell.
fn push_cell(out: &mut String, value: i64)
    ensures
        final(out)@ == old(out)@ + cell(value as int),
{
    let mut number = String::new();
    if value < 0 {
        let magnitude: u64 = (-(value + 1)) as u64 + 1;
        number.append("-");
        proof {
            reveal_strlit("-");
        }
        push_decimal(&mut number, magnitude);
        assert(number@ =~= signed_decimal(value as int));
    } else {
        push_decimal(&mut number, value as u64);
        assert(number@ =~= signed_decimal(value as int));
    }
    let width = number.as_str().unicode_len();
    let ghost before = out@;
    let mut filled: usize = width;
    while filled < 3
        invariant
            width <= filled,
            filled <= 3 || filled == width,
            out@ == before + blanks(filled - width),
        decreases 3 - filled,
    {
        out.append(" ");
        proof {
            reveal_strlit(" ");
            assert(out@ =~= before + blanks(filled + 1 - width));
        }
        filled += 1;
    }
    out.append(number.as_str());
    out.append(", ");
    proof {
        reveal_strlit(", ");
        assert(blanks(filled - width) =~= blanks(3 - width));
        assert(out@ =~= before + cell(value as int));
    }
}

/// Appends the `n` weights from `from` on, each as a cell.
fn push_cells(out: &mut String, weights: &Vec<i64>, from: usize, n: usize)
    requires
        from + n <= weights@.len(),
    ensures
        final(out)@ == old(out)@ + cells(weights@, from as int, n as int),
{
    let total = weights.len();
    let mut i: usize = 0;
    proof {
        assert(out@ =~= old(out)@ + cells(weights@, from as int, 0));
    }
    while i < n
        invariant
            i <= n,
            from + n <= weights@.len() == total,
            out@ == old(out)@ + cells(weights@, from as int, i as int),
        decreases n - i,
    {
        push_cell(out, weights[from + i]);
        proof {
            assert(out@ =~= old(out)@ + cells(weights@, from as int, i + 1));
        }
        i += 1;
    }
}

/// Returns the name of a piece kind.
pub fn name_of(piece: Piece) -> (name: &'static str)
    ensures
        name@ == piece_name(piece),
{
    match piece {
        Piece::Pawn => "Pawn",
        Piece::Knight => "Knight",
        Piece::Bishop => "Bishop",
        Piece::Rook => "Rook",
        Piece::Queen => "Queen",
        Piece::King => "King",
    }
}

/// Appends the material weights of one game phase.
fn print_material(out: &mut String, weights: &Vec<i64>, start: usize, name: &str)
    requires
        start + 5 <= weights@.len(),
    ensures
        final(out)@ == old(out)@ + material_text(weights@, start as int, name@),
{
    out.append("// Material ");
    out.append(name);
    out.append("\n");
    push_cells(out, weights, start, 5);
    out.append("\n");
    proof {
        assert(out@ =~= old(out)@ + material_text(weights@, start as int, name@));
    }
}

/// Appends the piece-square tables of one game phase.
fn print_psqt(out: &mut String, weights: &Vec<i64>, start: usize, name: &str)
    requires
        start + 6 * 64 <= weights@.len(),
    ensures
        final(out)@ == old(out)@ + tables_text(weights@, start as int, name@, 6),
{
    let total = weights.len();
    let mut piece: usize = 0;
    proof {
        assert(out@ =~= old(out)@ + tables_text(weights@, start as int, name@, 0));
    }
    while piece < 6
        invariant
            piece <= 6,
            start + 6 * 64 <= weights@.len() == total,
            out@ == old(out)@ + tables_text(weights@, start as int, name@, piece as int),
        decreases 6 - piece,
    {
        let ghost done = out@;
        out.append("// ");
        out.append(name_of(Piece::from_index(piece)));
        out.append(" ");
        out.append(name);
        out.append("\n");
        let ghost headed = out@;
        let base = start + piece * 64;
        let mut printed: usize = 0;
        proof {
            assert(out@ =~= headed + grid_text(weights@, base as int, 0));
        }
        while printed < 8
            invariant
                printed <= 8,
                base + 64 <= weights@.len() == total,
                out@ == headed + grid_text(weights@, base as int, printed as int),
            decreases 8 - printed,
        {
            let row = 7 - printed;
            push_cells(out, weights, base + row * 8, 8);
            out.append("\n");
            proof {
                assert(out@ =~= headed + grid_text(weights@, base as int, printed + 1));
            }
            printed += 1;
        }
        out.append("\n");
        proof {
            assert(out@ =~= old(out)@ + tables_text(weights@, start as int, name@, piece + 1));
        }
        piece += 1;
    }
}

/// Returns the weight vector as text: two rows of material weights and
/// twelve tables of eight rows, ready to be pasted into an evaluation
/// function.
pub fn render(weights: &Vec<i64>) -> (text: String)
    requires
        weights@.len() >= SIZE_FEATURES,
    ensures
        text@ == report(weights@),
{
    let mut out = String::new();
    out.append("\n");
    print_material(&mut out, weights, IDX_MATERIAL_MG, "MG");
    print_material(&mut out, weights, IDX_MATERIAL_EG, "EG");
    out.append("\n");
    print_psqt(&mut out, weights, IDX_PSQT_MG, "MG");
    print_psqt(&mut out, weights, IDX_PSQT_EG, "EG");
    proof {
        assert(out@ =~= report(weights@));
    }
    out
}

} // verus!
