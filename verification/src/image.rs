//! Images drawn on a waterfall display: the data file of clock fractions
//! and hold times, and the order in which the transmitter plays them.
use vstd::prelude::*;
use crate::callsign::is_decimal_digit;
use crate::clock::{clk_div, CLK_PSW};

verus! {

/// The number written by a non-empty run of decimal digits.
pub open spec fn digits_value(s: Seq<char>) -> int
    decreases s.len(),
{
    if s.len() == 0 {
        0
    } else {
        digits_value(s.drop_last()) * 10 + ((s.last() as int) - 48)
    }
}

/// A non-empty run of ASCII decimal digits.
pub open spec fn all_digits(s: Seq<char>) -> bool {
    s.len() > 0 && forall|i: int| 0 <= i < s.len() ==> is_decimal_digit(#[trigger] s[i])
}

/// The integer that text writes in decimal: an optional `+` or `-` and then
/// one or more digits, nothing else.
pub open spec fn decimal_value(s: Seq<char>) -> Option<int> {
    if s.len() > 0 && s[0] == '-' {
        if all_digits(s.drop_first()) {
            Some(-digits_value(s.drop_first()))
        } else {
            None
        }
    } else if s.len() > 0 && s[0] == '+' {
        if all_digits(s.drop_first()) {
            Some(digits_value(s.drop_first()))
        } else {
            None
        }
    } else if all_digits(s) {
        Some(digits_value(s))
    } else {
        None
    }
}

/// What `str::parse::<i32>` gives: the decimal value when it fits an `i32`.
pub open spec fn parsed_i32(s: Seq<char>) -> Option<i32> {
    match decimal_value(s) {
        Some(v) => if i32::MIN <= v <= i32::MAX {
            Some(v as i32)
        } else {
            None
        },
        None => None,
    }
}

/// What `str::parse::<isize>` gives: the decimal value when it fits an
/// `isize`.
pub open spec fn parsed_isize(s: Seq<char>) -> Option<isize> {
    match decimal_value(s) {
        Some(v) => if isize::MIN <= v <= isize::MAX {
            Some(v as isize)
        } else {
            None
        },
        None => None,
    }
}

/// `str::parse::<i32>` (`i32::from_str`): an optional `+` or `-` followed by
/// decimal digits only, in range; anything else is an error.
#[verifier::external_body]
fn parse_i32(s: &str) -> (r: Option<i32>)
    ensures
        r == parsed_i32(s@),
{
    s.parse::<i32>().ok()
}

/// `str::parse::<isize>` (`isize::from_str`): an optional `+` or `-`
/// followed by decimal digits only, in range; anything else is an error.
#[verifier::external_body]
fn parse_isize(s: &str) -> (r: Option<isize>)
    ensures
        r == parsed_isize(s@),
{
    s.parse::<isize>().ok()
}

/// The contents of an image data file.
pub struct ImageFile {
    /// Number of entries the broadcast walks through.
    pub data_len: isize,
    /// Hold time of each row.
    pub wait_per_row: isize,
    /// Clock fractions, a row ending at the entry -1.
    pub positions: Vec<i32>,
    /// Hold time of each entry.
    pub waits: Vec<i32>,
}

/// The entries at even indices.
pub open spec fn even_entries(s: Seq<i32>) -> Seq<i32> {
    Seq::new(((s.len() + 1) / 2) as nat, |k: int| s[2 * k])
}

/// The entries at odd indices.
pub open spec fn odd_entries(s: Seq<i32>) -> Seq<i32> {
    Seq::new((s.len() / 2) as nat, |k: int| s[2 * k + 1])
}

/// Every line after the two header lines is an `i32`.
pub open spec fn body_lines_parse(lines: Seq<String>) -> bool {
    forall|i: int| 2 <= i < lines.len() ==> parsed_i32((#[trigger] lines[i])@) is Some
}

/// The numbers on the lines after the two header lines.
pub open spec fn body_values(lines: Seq<String>) -> Seq<i32> {
    Seq::new((lines.len() - 2) as nat, |k: int| parsed_i32(lines[k + 2]@)->0)
}

/// A file that `parse_image_file` reads: two header lines holding `isize`
/// values, then lines holding `i32` values.
pub open spec fn image_file_ok(lines: Seq<String>) -> bool {
    &&& lines.len() >= 2
    &&& parsed_isize(lines[0]@) is Some
    &&& parsed_isize(lines[1]@) is Some
    &&& body_lines_parse(lines)
}

/// Reads an image data file from its lines: the entry count, the hold time
/// per row, then the entries, each a clock fraction followed by its hold
/// time. `None` when a line is missing or is not a number.
pub fn parse_image_file(lines: &Vec<String>) -> (r: Option<ImageFile>)
    ensures
        r is Some <==> image_file_ok(lines@),
        r matches Some(f) ==> {
            &&& f.data_len == parsed_isize(lines@[0]@)->0
            &&& f.wait_per_row == parsed_isize(lines@[1]@)->0
            &&& f.positions@ == even_entries(body_values(lines@))
            &&& f.waits@ == odd_entries(body_values(lines@))
            &&& f.positions@.len() == (lines@.len() - 1) / 2
            &&& f.waits@.len() == (lines@.len() - 2) / 2
            &&& forall|k: int|
                0 <= k < f.positions@.len() ==> #[trigger] f.positions@[k] == parsed_i32(
                    lines@[2 + 2 * k]@,
                )->0
            &&& forall|k: int|
                0 <= k < f.waits@.len() ==> #[trigger] f.waits@[k] == parsed_i32(
                    lines@[3 + 2 * k]@,
                )->0
        },
{
    if lines.len() < 2 {
        return None;
    }
    let data_len = match parse_isize(lines[0].as_str()) {
        Some(v) => v,
        None => return None,
    };
    let wait_per_row = match parse_isize(lines[1].as_str()) {
        Some(v) => v,
        None => return None,
    };
    let mut positions: Vec<i32> = Vec::new();
    let mut waits: Vec<i32> = Vec::new();
    let mut i: usize = 2;
    while i < lines.len()
        invariant
            2 <= i <= lines.len(),
            forall|k: int| 2 <= k < i ==> parsed_i32((#[trigger] lines@[k])@) is Some,
            positions@ == even_entries(body_values(lines@).take(i - 2)),
            waits@ == odd_entries(body_values(lines@).take(i - 2)),
        decreases lines.len() - i,
    {
        let v = match parse_i32(lines[i].as_str()) {
            Some(v) => v,
            None => return None,
        };
        let ghost done = body_values(lines@).take(i - 2);
        let ghost next = body_values(lines@).take(i - 1);
        if (i - 2) % 2 == 0 {
            positions.push(v);
        } else {
            waits.push(v);
        }
        proof {
            assert(next == done.push(v));
            assert(positions@ =~= even_entries(next));
            assert(waits@ =~= odd_entries(next));
        }
        i = i + 1;
    }
    assert(body_values(lines@).take(lines.len() - 2) =~= body_values(lines@));
    Some(ImageFile { data_len, wait_per_row, positions, waits })
}

/// Where the broadcast of an image stands.
#[derive(Clone, Copy, Debug, PartialEq, Eq, Structural)]
pub enum ImageCursor {
    /// Before the repetitions of the row that starts at entry `pos`.
    RowStart { pos: usize },
    /// In repetition `repeat` of the row starting at entry `row`, at entry
    /// `pos`.
    Playing { row: usize, pos: usize, repeat: u32 },
    /// Every row has been played.
    Finished,
}

/// What the transmitter does in one step of the broadcast.
#[derive(Clone, Copy, Debug, PartialEq, Eq, Structural)]
pub enum ImageAction {
    /// Set the base divisor with fraction `div_f` and hold it for `wait`
    /// milliseconds.
    Tone { div_f: u32, wait: i32 },
    /// Set the divisor one higher, without fraction, and hold it for `wait`
    /// nanoseconds: the gap that ends a row.
    Gap { wait: i32 },
    /// Nothing to transmit in this step.
    Idle,
    /// The image is complete.
    Done,
    /// A row runs past the end of the data.
    Malformed,
}

/// One step of the broadcast. A row is a run of entries ending at the
/// fraction -1; it is played `repeats` times, each time its tones and then
/// the gap that the end entry's hold time gives, and the next row starts
/// after the end entry. The broadcast ends when a row would start at entry
/// `data_len`.
pub open spec fn image_next(
    cursor: ImageCursor,
    positions: Seq<i32>,
    waits: Seq<i32>,
    data_len: isize,
    repeats: u32,
) -> (ImageCursor, ImageAction) {
    match cursor {
        ImageCursor::Finished => (ImageCursor::Finished, ImageAction::Done),
        ImageCursor::RowStart { pos } => if data_len >= 0 && pos == data_len {
            (ImageCursor::Finished, ImageAction::Done)
        } else if repeats == 0 {
            if pos < usize::MAX {
                (ImageCursor::RowStart { pos: (pos + 1) as usize }, ImageAction::Idle)
            } else {
                (cursor, ImageAction::Malformed)
            }
        } else {
            (ImageCursor::Playing { row: pos, pos, repeat: 0 }, ImageAction::Idle)
        },
        ImageCursor::Playing { row, pos, repeat } => if pos >= positions.len() || pos
            >= waits.len() {
            (cursor, ImageAction::Malformed)
        } else if positions[pos as int] != -1 {
            (
                ImageCursor::Playing { row, pos: (pos + 1) as usize, repeat },
                ImageAction::Tone { div_f: positions[pos as int] as u32, wait: waits[pos as int] },
            )
        } else if repeat + 1 < repeats {
            (
                ImageCursor::Playing { row, pos: row, repeat: (repeat + 1) as u32 },
                ImageAction::Gap { wait: waits[pos as int] },
            )
        } else {
            (ImageCursor::RowStart { pos: (pos + 1) as usize }, ImageAction::Gap { wait: waits[pos as int] })
        },
    }
}

/// Advances the broadcast of an image by one step: the next cursor and what
/// to transmit.
pub fn image_step(
    cursor: ImageCursor,
    positions: &Vec<i32>,
    waits: &Vec<i32>,
    data_len: isize,
    repeats: u32,
) -> (r: (ImageCursor, ImageAction))
    ensures
        r == image_next(cursor, positions@, waits@, data_len, repeats),
{
    match cursor {
        ImageCursor::Finished => (ImageCursor::Finished, ImageAction::Done),
        ImageCursor::RowStart { pos } => {
            if data_len >= 0 && pos == data_len as usize {
                (ImageCursor::Finished, ImageAction::Done)
            } else if repeats == 0 {
                if pos < usize::MAX {
                    (ImageCursor::RowStart { pos: pos + 1 }, ImageAction::Idle)
                } else {
                    (cursor, ImageAction::Malformed)
                }
            } else {
                (ImageCursor::Playing { row: pos, pos, repeat: 0 }, ImageAction::Idle)
            }
        },
        ImageCursor::Playing { row, pos, repeat } => {
            if pos >= positions.len() || pos >= waits.len() {
                (cursor, ImageAction::Malformed)
            } else if positions[pos] != -1 {
                (
                    ImageCursor::Playing { row, pos: pos + 1, repeat },
                    ImageAction::Tone { div_f: positions[pos] as u32, wait: waits[pos] },
                )
            } else if (repeat as u64) + 1 < repeats as u64 {
                (
                    ImageCursor::Playing { row, pos: row, repeat: repeat + 1 },
                    ImageAction::Gap { wait: waits[pos] },
                )
            } else {
                (ImageCursor::RowStart { pos: pos + 1 }, ImageAction::Gap { wait: waits[pos] })
            }
        },
    }
}

/// The GPIO pin that carries GPCLK0 (its alternate function 0) while an
/// image is broadcast.
pub const IMAGE_PIN: isize = 4;

/// The integer clock divisor of the image tones; gaps use one more.
pub const IMAGE_DIV_I: u32 = 35;

/// The divisor register word an image action writes: a tone the base
/// divisor with its fraction, a gap one integer divisor higher without a
/// fraction; other actions write nothing.
pub fn image_divisor_word(action: ImageAction) -> (r: Option<u32>)
    ensures
        r == match action {
            ImageAction::Tone { div_f, wait } => Some(CLK_PSW | (IMAGE_DIV_I << 12u32) | div_f),
            ImageAction::Gap { wait } => Some(CLK_PSW | (36u32 << 12u32) | 0u32),
            _ => None::<u32>,
        },
{
    match action {
        ImageAction::Tone { div_f, wait } => Some(clk_div(IMAGE_DIV_I, div_f)),
        ImageAction::Gap { wait } => Some(clk_div(IMAGE_DIV_I + 1, 0)),
        _ => None,
    }
}

/// The cursor and the actions after `k` steps of the broadcast.
pub open spec fn image_run(
    cursor: ImageCursor,
    positions: Seq<i32>,
    waits: Seq<i32>,
    data_len: isize,
    repeats: u32,
    k: nat,
) -> (ImageCursor, Seq<ImageAction>)
    decreases k,
{
    if k == 0 {
        (cursor, Seq::empty())
    } else {
        let (next, action) = image_next(cursor, positions, waits, data_len, repeats);
        let (last, rest) = image_run(next, positions, waits, data_len, repeats, (k - 1) as nat);
        (last, seq![action] + rest)
    }
}

/// A row from entry `start` to its end entry `end`: no entry before `end`
/// is the fraction -1, and `end` is.
pub open spec fn row_ends_at(positions: Seq<i32>, waits: Seq<i32>, start: int, end: int) -> bool {
    &&& 0 <= start <= end
    &&& end < positions.len()
    &&& end < waits.len()
    &&& positions[end] == -1
    &&& forall|k: int| start <= k < end ==> #[trigger] positions[k] != -1
}

/// The tones of the entries from `from` up to `end`.
pub open spec fn row_tones(positions: Seq<i32>, waits: Seq<i32>, from: int, end: int) -> Seq<
    ImageAction,
> {
    Seq::new(
        (end - from) as nat,
        |k: int| ImageAction::Tone { div_f: positions[from + k] as u32, wait: waits[from + k] },
    )
}

/// One playing of a row: its tones, then the gap of its end entry.
pub open spec fn row_actions(positions: Seq<i32>, waits: Seq<i32>, start: int, end: int) -> Seq<
    ImageAction,
> {
    row_tones(positions, waits, start, end).push(ImageAction::Gap { wait: waits[end] })
}

/// `n` copies of `s` one after another.
pub open spec fn repeated(s: Seq<ImageAction>, n: nat) -> Seq<ImageAction>
    decreases n,
{
    if n == 0 {
        Seq::empty()
    } else {
        s + repeated(s, (n - 1) as nat)
    }
}

/// Running `k1 + k2` steps is running `k1` steps and then `k2` more.
proof fn lemma_image_run_split(
    cursor: ImageCursor,
    positions: Seq<i32>,
    waits: Seq<i32>,
    data_len: isize,
    repeats: u32,
    k1: nat,
    k2: nat,
)
    ensures
        ({
            let first = image_run(cursor, positions, waits, data_len, repeats, k1);
            let second = image_run(first.0, positions, waits, data_len, repeats, k2);
            &&& image_run(cursor, positions, waits, data_len, repeats, k1 + k2).0 == second.0
            &&& image_run(cursor, positions, waits, data_len, repeats, k1 + k2).1 == first.1
                + second.1
        }),
    decreases k1,
{
    if k1 > 0 {
        let (next, action) = image_next(cursor, positions, waits, data_len, repeats);
        lemma_image_run_split(next, positions, waits, data_len, repeats, (k1 - 1) as nat, k2);
        let first = image_run(next, positions, waits, data_len, repeats, (k1 - 1) as nat);
        let second = image_run(first.0, positions, waits, data_len, repeats, k2);
        assert(seq![action] + (first.1 + second.1) =~= (seq![action] + first.1) + second.1);
        assert((k1 + k2 - 1) as nat == (k1 - 1) as nat + k2);
    }
}

/// Inside a row, the entries from `pos` to the end entry give their tones.
proof fn lemma_image_tones(
    positions: Seq<i32>,
    waits: Seq<i32>,
    data_len: isize,
    repeats: u32,
    row: usize,
    pos: usize,
    end: usize,
    repeat: u32,
)
    requires
        row_ends_at(positions, waits, row as int, end as int),
        row <= pos <= end,
    ensures
        image_run(
            ImageCursor::Playing { row, pos, repeat },
            positions,
            waits,
            data_len,
            repeats,
            (end - pos) as nat,
        ).0 == (ImageCursor::Playing { row, pos: end, repeat }),
        image_run(
            ImageCursor::Playing { row, pos, repeat },
            positions,
            waits,
            data_len,
            repeats,
            (end - pos) as nat,
        ).1 == row_tones(positions, waits, pos as int, end as int),
    decreases end - pos,
{
    if pos < end {
        assert(positions[pos as int] != -1);
        lemma_image_tones(positions, waits, data_len, repeats, row, (pos + 1) as usize, end, repeat);
        let tail = row_tones(positions, waits, pos + 1, end as int);
        assert(row_tones(positions, waits, pos as int, end as int) =~= seq![
            ImageAction::Tone { div_f: positions[pos as int] as u32, wait: waits[pos as int] },
        ] + tail);
    } else {
        assert(row_tones(positions, waits, pos as int, end as int) =~= Seq::empty());
    }
}

/// From the start of repetition `repeat`, the remaining repetitions of a
/// row each give its tones and its gap, and the next row starts after the
/// end entry.
proof fn lemma_image_repetitions(
    positions: Seq<i32>,
    waits: Seq<i32>,
    data_len: isize,
    repeats: u32,
    row: usize,
    end: usize,
    repeat: u32,
)
    requires
        row_ends_at(positions, waits, row as int, end as int),
        repeat < repeats,
    ensures
        ({
            let steps = ((repeats - repeat) * (end - row + 1)) as nat;
            let run = image_run(
                ImageCursor::Playing { row, pos: row, repeat },
                positions,
                waits,
                data_len,
                repeats,
                steps,
            );
            &&& run.0 == ImageCursor::RowStart { pos: (end + 1) as usize }
            &&& run.1 == repeated(
                row_actions(positions, waits, row as int, end as int),
                (repeats - repeat) as nat,
            )
        }),
    decreases repeats - repeat,
{
    let len = (end - row) as nat;
    let start = ImageCursor::Playing { row, pos: row, repeat };
    lemma_image_tones(positions, waits, data_len, repeats, row, row, end, repeat);
    let at_end = ImageCursor::Playing { row, pos: end, repeat };
    lemma_image_run_split(start, positions, waits, data_len, repeats, len, 1);
    let (after_gap, gap) = image_next(at_end, positions, waits, data_len, repeats);
    assert(gap == ImageAction::Gap { wait: waits[end as int] });
    assert(image_run(after_gap, positions, waits, data_len, repeats, 0).1 =~= Seq::empty());
    assert(image_run(at_end, positions, waits, data_len, repeats, 1).0 == after_gap);
    assert(image_run(at_end, positions, waits, data_len, repeats, 1).1 =~= seq![gap]);
    let one = row_actions(positions, waits, row as int, end as int);
    assert(image_run(start, positions, waits, data_len, repeats, len + 1).1 =~= one);
    let remaining = (repeats - repeat) as nat;
    assert(((repeats - repeat) * (end - row + 1)) as nat == len + 1 + ((repeats - repeat - 1) * (
    end - row + 1)) as nat) by (nonlinear_arith)
        requires
            repeats - repeat >= 1,
            end >= row,
            len == end - row,
    ;
    if repeat + 1 < repeats {
        assert(after_gap == ImageCursor::Playing { row, pos: row, repeat: (repeat + 1) as u32 });
        lemma_image_repetitions(positions, waits, data_len, repeats, row, end, (repeat + 1) as u32);
        lemma_image_run_split(
            start,
            positions,
            waits,
            data_len,
            repeats,
            len + 1,
            ((repeats - repeat - 1) * (end - row + 1)) as nat,
        );
        assert(repeated(one, remaining) == one + repeated(one, (remaining - 1) as nat));
    } else {
        assert(after_gap == ImageCursor::RowStart { pos: (end + 1) as usize });
        assert(((repeats - repeat - 1) * (end - row + 1)) == 0) by (nonlinear_arith)
            requires
                repeats - repeat - 1 == 0,
        ;
        assert(repeated(one, (remaining - 1) as nat) =~= Seq::<ImageAction>::empty());
        assert(repeated(one, remaining) =~= one + repeated(one, (remaining - 1) as nat));
    }
}

/// A broadcast plays its rows in order: a row that starts where the data
/// does not end, and ends in the entry -1, is played `repeats` times, each
/// time its tones and then its gap, and the next row starts after its end
/// entry. Where the data ends, the broadcast is done.
pub proof fn lemma_image_row(
    positions: Seq<i32>,
    waits: Seq<i32>,
    data_len: isize,
    repeats: u32,
    start: usize,
    end: usize,
)
    requires
        row_ends_at(positions, waits, start as int, end as int),
        repeats >= 1,
        !(data_len >= 0 && start == data_len),
    ensures
        ({
            let run = image_run(
                ImageCursor::RowStart { pos: start },
                positions,
                waits,
                data_len,
                repeats,
                (1 + repeats * (end - start + 1)) as nat,
            );
            &&& run.0 == ImageCursor::RowStart { pos: (end + 1) as usize }
            &&& run.1 == seq![ImageAction::Idle] + repeated(
                row_actions(positions, waits, start as int, end as int),
                repeats as nat,
            )
        }),
        data_len >= 0 ==> image_next(
            ImageCursor::RowStart { pos: data_len as usize },
            positions,
            waits,
            data_len,
            repeats,
        ) == (ImageCursor::Finished, ImageAction::Done),
{
    let first = ImageCursor::RowStart { pos: start };
    let playing = ImageCursor::Playing { row: start, pos: start, repeat: 0 };
    assert(image_next(first, positions, waits, data_len, repeats) == (playing, ImageAction::Idle));
    lemma_image_repetitions(positions, waits, data_len, repeats, start, end, 0);
    lemma_image_run_split(first, positions, waits, data_len, repeats, 1, (repeats * (end - start + 1)) as nat);
    assert(image_run(playing, positions, waits, data_len, repeats, 0).1 =~= Seq::empty());
    assert(image_run(first, positions, waits, data_len, repeats, 1).0 == playing);
    assert(image_run(first, positions, waits, data_len, repeats, 1).1 =~= seq![ImageAction::Idle]);
    assert((1 + repeats * (end - start + 1)) as nat == 1 + (repeats * (end - start + 1)) as nat) by (nonlinear_arith)
        requires
            repeats >= 1,
            end >= start,
    ;
    assert(((repeats - 0) * (end - start + 1)) == repeats * (end - start + 1));
}

} // verus!
