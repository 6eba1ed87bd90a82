//! Grids as text: four lines of four numbers, and the way back.
//!
//! A grid is written as four lines, one for each row. A line holds the four numbers of its
//! row, each right-justified in six columns, and ends with a line feed. Any text that holds
//! sixteen numbers that can stand on a grid, with anything but digits between them, reads
//! back as a grid.
use vstd::prelude::*;
use vstd::string::*;
use crate::board::Board;
use crate::grid::Grid;
use crate::human::{displayed, encodes, lemma_valid_tile_bound, valid_tile};

verus! {

/// The width of one number of a written grid.
pub const FIELD_WIDTH: usize = 6;

/// The character of the decimal digit `d`.
pub open spec fn digit_char(d: nat) -> char {
    (48 + d) as u8 as char
}

/// The decimal digits of `n`, highest first.
pub open spec fn decimal(n: nat) -> Seq<char>
    decreases n,
{
    if n < 10 {
        seq![digit_char(n)]
    } else {
        decimal(n / 10).push(digit_char(n % 10))
    }
}

/// `text` with as many spaces before it as it takes to fill `width` columns.
pub open spec fn right_justified(text: Seq<char>, width: nat) -> Seq<char> {
    if text.len() >= width {
        text
    } else {
        Seq::new((width - text.len()) as nat, |i: int| ' ') + text
    }
}

/// The text of one cell of rank `rank`.
pub open spec fn field(rank: u8) -> Seq<char> {
    right_justified(decimal(displayed(rank) as nat), FIELD_WIDTH as nat)
}

/// The text of the first `upto` cells of `tiles`, with a line feed after every fourth.
pub open spec fn rendered_before(tiles: Seq<u8>, upto: int) -> Seq<char>
    decreases upto,
{
    if upto <= 0 {
        Seq::empty()
    } else {
        let line = rendered_before(tiles, upto - 1) + field(tiles[upto - 1]);
        if upto % 4 == 0 {
            line.push('\n')
        } else {
            line
        }
    }
}

/// The text of a grid of sixteen tiles.
pub open spec fn rendered(tiles: Seq<u8>) -> Seq<char> {
    rendered_before(tiles, 16)
}

/// True for the bytes of the ten decimal digits.
pub open spec fn is_digit(byte: u8) -> bool {
    48 <= byte <= 57
}

/// What reading `bytes` from the left has found: the numbers whose last digit has been
/// passed, and the number that the digits at the end of `bytes` make, if `bytes` ends in a
/// digit.
pub open spec fn scanned(bytes: Seq<u8>) -> (Seq<nat>, Option<nat>)
    decreases bytes.len(),
{
    if bytes.len() == 0 {
        (Seq::empty(), None)
    } else {
        let (done, open) = scanned(bytes.drop_last());
        let byte = bytes.last();
        if is_digit(byte) {
            let digit = (byte - 48) as nat;
            match open {
                Some(value) => (done, Some(10 * value + digit)),
                None => (done, Some(digit)),
            }
        } else {
            match open {
                Some(value) => (done.push(value), None),
                None => (done, None),
            }
        }
    }
}

/// The numbers that stand in `bytes`: every unbroken run of digits is one number.
pub open spec fn numbers(bytes: Seq<u8>) -> Seq<nat> {
    let (done, open) = scanned(bytes);
    match open {
        Some(value) => done.push(value),
        None => done,
    }
}

/// True when `value` can stand on a grid.
pub open spec fn valid_number(value: nat) -> bool {
    value <= u32::MAX && valid_tile(value as u32)
}

/// True when `tiles` are the sixteen ranks that the numbers `values` stand for.
pub open spec fn reads_as(values: Seq<nat>, tiles: Seq<u8>) -> bool {
    &&& values.len() == 16
    &&& tiles.len() == 16
    &&& forall|k: int| 0 <= k < 16 ==> values[k] <= u32::MAX && encodes(values[k] as u32, tiles[k])
}

/// True when `values` are sixteen numbers that can all stand on a grid.
pub open spec fn readable(values: Seq<nat>) -> bool {
    values.len() == 16 && forall|k: int| 0 <= k < 16 ==> valid_number(values[k])
}

/// A number that is too high for a grid, kept in place of every number above 32768.
const TOO_HIGH: u32 = 32769;

spec fn clipped(value: nat) -> u32 {
    if value >= TOO_HIGH {
        TOO_HIGH
    } else {
        value as u32
    }
}

proof fn lemma_clipped_valid(value: nat)
    ensures
        valid_tile(clipped(value)) <==> valid_number(value),
        forall|rank: u8| encodes(clipped(value), rank) ==> value <= u32::MAX && encodes(
            value as u32,
            rank,
        ),
{
    if valid_tile(clipped(value)) {
        lemma_valid_tile_bound(clipped(value));
    }
    if valid_number(value) {
        lemma_valid_tile_bound(value as u32);
    }
    assert forall|rank: u8| encodes(clipped(value), rank) implies value <= u32::MAX && encodes(
        value as u32,
        rank,
    ) by {
        lemma_valid_tile_bound(clipped(value));
    }
}

/// Calls `format!` of std with `{:>width$}` on a `u32`. The contract claims what std
/// documents of that format: the decimal digits of the number, with spaces before them
/// where they are fewer than `width`. The width is kept small, since the text takes as
/// much memory as it is wide.
#[verifier::external_body]
fn justified(number: u32, width: usize) -> (text: String)
    requires
        width <= u16::MAX,
    ensures
        text@ == right_justified(decimal(number as nat), width as nat),
{
    format!("{number:>width$}", number = number, width = width)
}

/// Reads the numbers in `bytes`. A number above 32768 is kept as 32769.
fn read_numbers(bytes: &[u8]) -> (values: Vec<u32>)
    ensures
        values.len() == numbers(bytes@).len(),
        forall|k: int| 0 <= k < values.len() ==> values[k] == clipped(numbers(bytes@)[k]),
{
    let mut values: Vec<u32> = Vec::new();
    let mut open: Option<u32> = None;
    let mut i: usize = 0;
    while i < bytes.len()
        invariant
            0 <= i <= bytes.len(),
            values.len() == scanned(bytes@.take(i as int)).0.len(),
            forall|k: int|
                0 <= k < values.len() ==> values[k] == clipped(scanned(bytes@.take(i as int)).0[k]),
            open.is_some() == scanned(bytes@.take(i as int)).1.is_some(),
            open matches Some(value) ==> value == clipped(
                scanned(bytes@.take(i as int)).1.unwrap(),
            ),
        decreases bytes.len() - i,
    {
        let byte = bytes[i];
        proof {
            assert(bytes@.take(i as int + 1).drop_last() =~= bytes@.take(i as int));
        }
        if 48 <= byte && byte <= 57 {
            let digit: u32 = (byte - 48) as u32;
            open = match open {
                Some(value) => {
                    if value >= TOO_HIGH {
                        Some(TOO_HIGH)
                    } else {
                        let next = 10 * value + digit;
                        if next >= TOO_HIGH {
                            Some(TOO_HIGH)
                        } else {
                            Some(next)
                        }
                    }
                },
                None => Some(digit),
            };
        } else {
            match open {
                Some(value) => {
                    values.push(value);
                },
                None => {},
            }
            open = None;
        }
        i += 1;
    }
    proof {
        assert(bytes@.take(bytes.len() as int) =~= bytes@);
    }
    match open {
        Some(value) => {
            values.push(value);
        },
        None => {},
    }
    values
}

impl Grid {
    /// The text of the grid: four lines of four numbers, each right-justified in six columns,
    /// with a line feed at the end of every line. An empty cell is written as 0.
    pub fn to_string(&self) -> (text: String)
        ensures
            text@ == rendered(self@),
    {
        let ranks = self.unpack_log();
        let mut text = String::new();
        let mut k: usize = 0;
        proof {
            reveal_strlit("\n");
        }
        while k < 16
            invariant
                0 <= k <= 16,
                self@.len() == 16,
                forall|r: int| 0 <= r < 4 ==> ranks[r]@ == crate::grid::row_of(self@, r),
                forall|r: int| 0 <= r < 4 ==> crate::row::all_ranks(ranks[r]@),
                text@ == rendered_before(self@, k as int),
                "\n"@ == seq!['\n'],
            decreases 16 - k,
        {
            let rank = ranks[k / 4][k % 4];
            proof {
                assert(ranks[k as int / 4]@[k as int % 4] == crate::grid::row_of(
                    self@,
                    k as int / 4,
                )[k as int % 4]);
                assert(ranks[k as int / 4]@[k as int % 4] <= crate::row::MAX_RANK);
            }
            let piece = justified(crate::human::human(rank), FIELD_WIDTH);
            text.append(piece.as_str());
            if k % 4 == 3 {
                text.append("\n");
                assert(text@ =~= (rendered_before(self@, k as int) + field(self@[k as int])).push(
                    '\n',
                ));
            }
            k += 1;
        }
        text
    }

    /// Reads a grid from the sixteen numbers in `bytes`. Every unbroken run of decimal digits
    /// is a number, and every other byte only parts numbers. `None` unless there are
    /// sixteen numbers and each can stand on a grid.
    pub fn from_display_bytes(bytes: &[u8]) -> (out: Option<Grid>)
        ensures
            out.is_some() <==> readable(numbers(bytes@)),
            out matches Some(grid) ==> reads_as(numbers(bytes@), grid@),
    {
        let values = read_numbers(bytes);
        if values.len() != 16 {
            return None;
        }
        let human: [[u32; 4]; 4] = [
            [values[0], values[1], values[2], values[3]],
            [values[4], values[5], values[6], values[7]],
            [values[8], values[9], values[10], values[11]],
            [values[12], values[13], values[14], values[15]],
        ];
        let out = Grid::from_human(human);
        proof {
            let found = numbers(bytes@);
            assert forall|k: int| 0 <= k < 16 implies #[trigger] human[k / 4][k % 4] == clipped(
                found[k],
            ) by {
                assert(values[k] == clipped(found[k]));
            }
            assert forall|k: int| 0 <= k < 16 implies (valid_tile(clipped(found[k]))
                <==> valid_number(found[k])) by {
                lemma_clipped_valid(found[k]);
            }
            if readable(found) {
                assert forall|r: int, c: int| 0 <= r < 4 && 0 <= c < 4 implies valid_tile(
                    #[trigger] human[r][c],
                ) by {
                    let k = 4 * r + c;
                    assert(human[k / 4][k % 4] == clipped(found[k]));
                    assert(valid_number(found[k]));
                }
            }
            if out.is_some() {
                let grid = out.unwrap();
                assert forall|k: int| 0 <= k < 16 implies found[k] <= u32::MAX && encodes(
                    found[k] as u32,
                    grid@[k],
                ) && valid_number(found[k]) by {
                    let r = k / 4;
                    let c = k % 4;
                    assert(encodes(human[r][c], grid@[4 * r + c]));
                    assert(valid_tile(human[r][c]));
                    lemma_clipped_valid(found[k]);
                }
            }
        }
        out
    }

    /// Reads a grid from a text that holds sixteen numbers, such as the text that `to_string`
    /// gives. `None` unless there are sixteen numbers and each can stand on a grid.
    pub fn from_display(s: &str) -> (out: Option<Grid>)
        ensures
            out.is_some() <==> readable(numbers(s.spec_bytes())),
            out matches Some(grid) ==> reads_as(numbers(s.spec_bytes()), grid@),
    {
        Grid::from_display_bytes(s.as_bytes())
    }
}

impl Board {
    /// The text of the board: four lines of four numbers, each right-justified in six
    /// columns, with a line feed at the end of every line. An empty cell is written as 0.
    pub fn to_string(&self) -> (text: String)
        ensures
            text@ == rendered(self@),
    {
        self.to_grid().to_string()
    }
}

/// The bytes of a text whose characters are all ASCII.
pub open spec fn ascii_bytes(text: Seq<char>) -> Seq<u8> {
    Seq::new(text.len(), |i: int| text[i] as u8)
}

/// The numbers that sixteen tiles show.
pub open spec fn shown_numbers(tiles: Seq<u8>) -> Seq<nat> {
    Seq::new(tiles.len(), |k: int| displayed(tiles[k]) as nat)
}

proof fn lemma_scan_step(bytes: Seq<u8>, byte: u8)
    ensures
        scanned(bytes.push(byte)) == ({
            let (done, open) = scanned(bytes);
            if is_digit(byte) {
                let digit = (byte - 48) as nat;
                match open {
                    Some(value) => (done, Some(10 * value + digit)),
                    None => (done, Some(digit)),
                }
            } else {
                match open {
                    Some(value) => (done.push(value), None::<nat>),
                    None => (done, None::<nat>),
                }
            }
        }),
{
    assert(bytes.push(byte).drop_last() =~= bytes);
}

proof fn lemma_scan_digits(before: Seq<u8>, n: nat)
    requires
        scanned(before).1.is_none(),
    ensures
        scanned(before + ascii_bytes(decimal(n))) == (scanned(before).0, Some(n)),
        decimal(n).len() >= 1,
        n < 100000 ==> decimal(n).len() <= 5,
        n < 10000 ==> decimal(n).len() <= 4,
        n < 1000 ==> decimal(n).len() <= 3,
        n < 100 ==> decimal(n).len() <= 2,
        n < 10 ==> decimal(n).len() <= 1,
    decreases n,
{
    if n < 10 {
        let digit = digit_char(n);
        assert(digit as u8 == 48 + n);
        assert(before + ascii_bytes(decimal(n)) =~= before.push((48 + n) as u8));
        lemma_scan_step(before, (48 + n) as u8);
    } else {
        lemma_scan_digits(before, n / 10);
        let front = before + ascii_bytes(decimal(n / 10));
        let last = (48 + n % 10) as u8;
        assert(digit_char(n % 10) as u8 == last);
        assert(before + ascii_bytes(decimal(n)) =~= front.push(last));
        lemma_scan_step(front, last);
    }
}

proof fn lemma_scan_spaces(before: Seq<u8>, count: nat)
    requires
        count >= 1 || scanned(before).1.is_none(),
    ensures
        scanned(before + ascii_bytes(Seq::new(count, |i: int| ' '))) == (
            match scanned(before).1 {
                Some(value) => scanned(before).0.push(value),
                None => scanned(before).0,
            },
            None::<nat>,
        ),
    decreases count,
{
    let spaces = ascii_bytes(Seq::new(count, |i: int| ' '));
    if count == 0 {
        assert(before + spaces =~= before);
    } else {
        let fewer = ascii_bytes(Seq::new((count - 1) as nat, |i: int| ' '));
        assert(' ' as u8 == 32);
        assert(before + spaces =~= (before + fewer).push(32u8));
        lemma_scan_step(before + fewer, 32u8);
        if count == 1 {
            assert(before + fewer =~= before);
        } else {
            lemma_scan_spaces(before, (count - 1) as nat);
        }
    }
}

proof fn lemma_scan_field(before: Seq<u8>, rank: u8)
    requires
        rank <= crate::row::MAX_RANK,
    ensures
        scanned(before + ascii_bytes(field(rank))) == (
            match scanned(before).1 {
                Some(value) => scanned(before).0.push(value),
                None => scanned(before).0,
            },
            Some(displayed(rank) as nat),
        ),
{
    let n = displayed(rank) as nat;
    crate::human::lemma_displayed_order(rank, rank);
    let digits = decimal(n);
    let closed = match scanned(before).1 {
        Some(value) => scanned(before).0.push(value),
        None => scanned(before).0,
    };
    lemma_scan_digits(Seq::empty(), n);
    let count = (FIELD_WIDTH - digits.len()) as nat;
    let spaces = Seq::new(count, |i: int| ' ');
    assert(field(rank) == spaces + digits);
    lemma_scan_spaces(before, count);
    let padded = before + ascii_bytes(spaces);
    lemma_scan_digits(padded, n);
    assert(before + ascii_bytes(field(rank)) =~= padded + ascii_bytes(digits));
}

proof fn lemma_scan_rendered(tiles: Seq<u8>, upto: int)
    requires
        tiles.len() == 16,
        crate::row::all_ranks(tiles),
        0 <= upto <= 16,
    ensures
        scanned(ascii_bytes(rendered_before(tiles, upto))) == (if upto % 4 == 0 {
            (shown_numbers(tiles).take(upto), None::<nat>)
        } else {
            (shown_numbers(tiles).take(upto - 1), Some(displayed(tiles[upto - 1]) as nat))
        }),
    decreases upto,
{
    let shown = shown_numbers(tiles);
    if upto == 0 {
        assert(ascii_bytes(rendered_before(tiles, 0)) =~= Seq::<u8>::empty());
        assert(shown.take(0) =~= Seq::<nat>::empty());
    } else {
        lemma_scan_rendered(tiles, upto - 1);
        let before = ascii_bytes(rendered_before(tiles, upto - 1));
        let rank = tiles[upto - 1];
        lemma_scan_field(before, rank);
        let line = rendered_before(tiles, upto - 1) + field(rank);
        assert(ascii_bytes(line) =~= before + ascii_bytes(field(rank)));
        if (upto - 1) % 4 != 0 {
            assert(shown.take(upto - 2).push(shown[upto - 2]) =~= shown.take(upto - 1));
        }
        assert(scanned(ascii_bytes(line)) == (shown.take(upto - 1), Some(displayed(rank) as nat)));
        if upto % 4 == 0 {
            assert('\n' as u8 == 10);
            assert(ascii_bytes(line.push('\n')) =~= ascii_bytes(line).push(10u8));
            lemma_scan_step(ascii_bytes(line), 10u8);
            assert(shown.take(upto - 1).push(shown[upto - 1]) =~= shown.take(upto));
        }
    }
}

/// The text of a grid reads back as the grid: the numbers in it are the sixteen numbers that
/// the tiles show, and they stand for the ranks of the tiles and for no others.
pub proof fn lemma_display_reads_back(tiles: Seq<u8>)
    requires
        tiles.len() == 16,
        crate::row::all_ranks(tiles),
    ensures
        numbers(ascii_bytes(rendered(tiles))) == shown_numbers(tiles),
        readable(shown_numbers(tiles)),
        reads_as(shown_numbers(tiles), tiles),
        forall|other: Seq<u8>| reads_as(shown_numbers(tiles), other) ==> other == tiles,
{
    lemma_scan_rendered(tiles, 16);
    let shown = shown_numbers(tiles);
    assert(shown.take(16) =~= shown);
    assert forall|k: int| 0 <= k < 16 implies valid_number(shown[k]) && encodes(
        shown[k] as u32,
        tiles[k],
    ) by {
        crate::human::lemma_displayed_order(tiles[k], tiles[k]);
        assert(valid_tile(displayed(tiles[k])));
    }
    assert forall|other: Seq<u8>| reads_as(shown, other) implies other == tiles by {
        assert forall|k: int| 0 <= k < 16 implies other[k] == tiles[k] by {
            crate::human::lemma_displayed_has_its_rank(tiles[k], other[k]);
        }
        assert(other =~= tiles);
    }
}

proof fn lemma_decimal_is_ascii(n: nat)
    ensures
        vstd::utf8::is_ascii_chars(decimal(n)),
    decreases n,
{
    if n >= 10 {
        lemma_decimal_is_ascii(n / 10);
    }
    assert forall|i: int| 0 <= i < decimal(n).len() implies '\0' <= #[trigger] decimal(n)[i]
        <= '\u{7f}' by {
        if n >= 10 && i < decimal(n / 10).len() {
            assert(decimal(n)[i] == decimal(n / 10)[i]);
        }
    }
}

proof fn lemma_rendered_is_ascii(tiles: Seq<u8>, upto: int)
    ensures
        vstd::utf8::is_ascii_chars(rendered_before(tiles, upto)),
    decreases upto,
{
    if upto > 0 {
        lemma_rendered_is_ascii(tiles, upto - 1);
        let before = rendered_before(tiles, upto - 1);
        let piece = field(tiles[upto - 1]);
        lemma_decimal_is_ascii(displayed(tiles[upto - 1]) as nat);
        assert(vstd::utf8::is_ascii_chars(piece));
        let text = rendered_before(tiles, upto);
        assert forall|i: int| 0 <= i < text.len() implies '\0' <= #[trigger] text[i]
            <= '\u{7f}' by {
            if i < before.len() {
                assert(text[i] == before[i]);
            } else if i < before.len() + piece.len() {
                assert(text[i] == piece[i - before.len()]);
            }
        }
    }
}

/// The text that `to_string` writes for a grid reads back as that grid, and as no other:
/// its bytes hold the sixteen numbers that the tiles show.
pub proof fn lemma_text_reads_back(grid: Grid)
    ensures
        numbers(vstd::utf8::encode_utf8(rendered(grid@))) == shown_numbers(grid@),
        readable(shown_numbers(grid@)),
        forall|other: Grid| reads_as(shown_numbers(grid@), other@) ==> other == grid,
{
    crate::grid::lemma_grid_tiles_are_ranks(grid.0);
    lemma_rendered_is_ascii(grid@, 16);
    vstd::utf8::is_ascii_chars_encode_utf8(rendered(grid@));
    assert(vstd::utf8::encode_utf8(rendered(grid@)) =~= ascii_bytes(rendered(grid@)));
    lemma_display_reads_back(grid@);
    assert forall|other: Grid| reads_as(shown_numbers(grid@), other@) implies other == grid by {
        crate::grid::lemma_grids_equal_by_tiles(other.0, grid.0);
    }
}

} // verus!
