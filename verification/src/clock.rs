//! The wall-clock text shown in the corner of the radar screen.

use vstd::prelude::*;

use vstd::string::StringExecFns;

use crate::helpers::{lemma_encode_utf8_concat, utf8_len};
use crate::text::{
    ascii_only, byte_len, decimal_chars, lemma_ascii_concat, lemma_ascii_utf8_len,
    lemma_decimal_chars, lemma_zero_padded, push_decimal, signed_zero_padded, zero_padded,
};

verus! {

/// Capacity, in bytes, of the clock text.
pub const CLOCK_CAPACITY: usize = 20;

/// State of a fixed-capacity text being written piece by piece: the text so
/// far, and whether every piece so far fitted.
pub open spec fn write_step(state: (Seq<char>, bool), piece: Seq<char>, capacity: nat) -> (
    Seq<char>,
    bool,
) {
    if state.1 && utf8_len(state.0) + utf8_len(piece) <= capacity {
        (state.0 + piece, true)
    } else {
        (state.0, false)
    }
}

/// Writing `pieces` in order into a fixed-capacity text: each piece is
/// appended whole while it fits, and writing stops at the first piece that
/// does not fit (as formatting into a fixed-capacity string does).
pub open spec fn write_pieces(state: (Seq<char>, bool), pieces: Seq<Seq<char>>, capacity: nat) -> (
    Seq<char>,
    bool,
)
    decreases pieces.len(),
{
    if pieces.len() == 0 {
        state
    } else {
        write_step(write_pieces(state, pieces.drop_last(), capacity), pieces.last(), capacity)
    }
}

/// The pieces a zero padded number is written in: one `'0'` per missing
/// character, then its digits.
pub open spec fn padded_pieces(n: nat, width: nat) -> Seq<Seq<char>> {
    let digits = decimal_chars(n);
    let zeros = if digits.len() < width {
        (width - digits.len()) as nat
    } else {
        0nat
    };
    Seq::new(zeros, |i: int| seq!['0']).push(digits)
}

/// The pieces of the year, zero padded to four characters after its sign.
pub open spec fn year_pieces(year: int) -> Seq<Seq<char>> {
    if year < 0 {
        seq![seq!['-']] + padded_pieces((-year) as nat, 3)
    } else {
        padded_pieces(year as nat, 4)
    }
}

/// The pieces of one field after the year: its one-character separator,
/// then the number zero padded to two characters.
pub open spec fn field_pieces(separator: char, n: nat) -> Seq<Seq<char>> {
    seq![seq![separator]] + padded_pieces(n, 2)
}

/// The clock line: `year-month-day hour:minute:second` written piece by
/// piece into a text of `CLOCK_CAPACITY` bytes.
pub open spec fn clock_line(year: int, month: nat, day: nat, hour: nat, minute: nat, second: nat) -> Seq<
    char,
> {
    let cap = CLOCK_CAPACITY as nat;
    let with_year = write_pieces((Seq::empty(), true), year_pieces(year), cap);
    let with_month = write_pieces(with_year, field_pieces('-', month), cap);
    let with_day = write_pieces(with_month, field_pieces('-', day), cap);
    let with_hour = write_pieces(with_day, field_pieces(' ', hour), cap);
    let with_minute = write_pieces(with_hour, field_pieces(':', minute), cap);
    write_pieces(with_minute, field_pieces(':', second), cap).0
}

proof fn lemma_write_pieces_concat(
    state: (Seq<char>, bool),
    a: Seq<Seq<char>>,
    b: Seq<Seq<char>>,
    capacity: nat,
)
    ensures
        write_pieces(state, a + b, capacity) == write_pieces(
            write_pieces(state, a, capacity),
            b,
            capacity,
        ),
    decreases b.len(),
{
    if b.len() == 0 {
        assert(a + b =~= a);
    } else {
        lemma_write_pieces_concat(state, a, b.drop_last(), capacity);
        assert((a + b).drop_last() =~= a + b.drop_last());
        assert((a + b).last() == b.last());
    }
}

proof fn lemma_single_piece(state: (Seq<char>, bool), piece: Seq<char>, capacity: nat)
    ensures
        write_pieces(state, seq![piece], capacity) == write_step(state, piece, capacity),
{
    let pieces = seq![piece];
    assert(pieces.drop_last() =~= Seq::<Seq<char>>::empty());
    assert(write_pieces(state, Seq::<Seq<char>>::empty(), capacity) == state);
    assert(pieces.last() == piece);
}

/// Appends one piece to a fixed-capacity text being written.
fn write_piece(text: &mut String, open: &mut bool, piece: &str, capacity: usize)
    requires
        utf8_len(old(text)@) <= capacity,
    ensures
        (final(text)@, *final(open)) == write_step((old(text)@, *old(open)), piece@, capacity as nat),
        utf8_len(final(text)@) <= capacity,
{
    if *open {
        let used = byte_len(text.as_str());
        if byte_len(piece) <= capacity - used {
            text.append(piece);
            proof {
                lemma_encode_utf8_concat(old(text)@, piece@);
            }
        } else {
            *open = false;
        }
    }
}

/// Writes `n` zero padded to `width` characters, piece by piece.
fn write_padded(text: &mut String, open: &mut bool, n: u32, width: usize, capacity: usize)
    requires
        utf8_len(old(text)@) <= capacity,
        width <= 10,
    ensures
        (final(text)@, *final(open)) == write_pieces(
            (old(text)@, *old(open)),
            padded_pieces(n as nat, width as nat),
            capacity as nat,
        ),
        utf8_len(final(text)@) <= capacity,
{
    let mut digits = String::new();
    push_decimal(&mut digits, n);
    proof {
        lemma_decimal_chars(n as nat);
        lemma_ascii_utf8_len(digits@);
    }
    let count = byte_len(digits.as_str());
    let ghost zeros: nat = if count < width {
        (width - count) as nat
    } else {
        0nat
    };
    let ghost pieces = padded_pieces(n as nat, width as nat);
    let mut pad: usize = count;
    while pad < width
        invariant
            count == decimal_chars(n as nat).len(),
            digits@ == decimal_chars(n as nat),
            count <= pad,
            pad <= width || pad == count,
            zeros == if count < width { (width - count) as nat } else { 0nat },
            pieces == padded_pieces(n as nat, width as nat),
            (text@, *open) == write_pieces(
                (old(text)@, *old(open)),
                pieces.subrange(0, (pad - count) as int),
                capacity as nat,
            ),
            utf8_len(text@) <= capacity,
        decreases width - pad,
    {
        let ghost before = pieces.subrange(0, (pad - count) as int);
        proof {
            reveal_strlit("0");
            assert("0"@ == seq!['0']);
            assert(pieces[(pad - count) as int] == seq!['0']);
        }
        let ghost state = (text@, *open);
        write_piece(text, open, "0", capacity);
        proof {
            let after = pieces.subrange(0, (pad + 1 - count) as int);
            assert(after.drop_last() =~= before);
            assert(after.last() == seq!['0']);
            assert(write_pieces((old(text)@, *old(open)), after, capacity as nat) == write_step(
                state,
                seq!['0'],
                capacity as nat,
            ));
        }
        pad = pad + 1;
    }
    let ghost before = pieces.subrange(0, zeros as int);
    assert(pieces.subrange(0, (pad - count) as int) =~= before);
    write_piece(text, open, digits.as_str(), capacity);
    assert(pieces.drop_last() =~= before);
}

/// Writes a one-character separator and then `n` zero padded to two
/// characters.
fn write_field(text: &mut String, open: &mut bool, separator: &str, n: u8)
    requires
        utf8_len(old(text)@) <= CLOCK_CAPACITY,
        separator@.len() == 1,
    ensures
        (final(text)@, *final(open)) == write_pieces(
            (old(text)@, *old(open)),
            field_pieces(separator@[0], n as nat),
            CLOCK_CAPACITY as nat,
        ),
        utf8_len(final(text)@) <= CLOCK_CAPACITY,
{
    assert(seq![separator@[0]] =~= separator@);
    write_piece(text, open, separator, CLOCK_CAPACITY);
    proof {
        lemma_single_piece((old(text)@, *old(open)), separator@, CLOCK_CAPACITY as nat);
    }
    write_padded(text, open, n as u32, 2, CLOCK_CAPACITY);
    proof {
        lemma_write_pieces_concat(
            (old(text)@, *old(open)),
            seq![separator@],
            padded_pieces(n as nat, 2),
            CLOCK_CAPACITY as nat,
        );
    }
}

/// Writes the year, zero padded to four characters after its sign.
fn write_year(text: &mut String, open: &mut bool, year: i32)
    requires
        old(text)@ == Seq::<char>::empty(),
        *old(open),
    ensures
        (final(text)@, *final(open)) == write_pieces(
            (Seq::empty(), true),
            year_pieces(year as int),
            CLOCK_CAPACITY as nat,
        ),
        utf8_len(final(text)@) <= CLOCK_CAPACITY,
{
    proof {
        lemma_ascii_utf8_len(text@);
    }
    if year < 0 {
        let magnitude: u32 = (0i64 - year as i64) as u32;
        proof {
            reveal_strlit("-");
        }
        write_piece(text, open, "-", CLOCK_CAPACITY);
        proof {
            assert(magnitude == -year);
            assert("-"@ == seq!['-']);
            lemma_single_piece((Seq::empty(), true), seq!['-'], CLOCK_CAPACITY as nat);
        }
        write_padded(text, open, magnitude, 3, CLOCK_CAPACITY);
        proof {
            lemma_write_pieces_concat(
                (Seq::empty(), true),
                seq![seq!['-']],
                padded_pieces(magnitude as nat, 3),
                CLOCK_CAPACITY as nat,
            );
        }
    } else {
        write_padded(text, open, year as u32, 4, CLOCK_CAPACITY);
        assert(year_pieces(year as int) == padded_pieces(year as nat, 4));
    }
}

/// Formats a local date and time for the clock line, into a text of
/// `CLOCK_CAPACITY` bytes: the year zero padded to four characters after
/// its sign, every other field to two, and writing stops at the first piece
/// that does not fit.
pub fn format_clock(year: i32, month: u8, day: u8, hour: u8, minute: u8, second: u8) -> (text:
    String)
    ensures
        text@ == clock_line(
            year as int,
            month as nat,
            day as nat,
            hour as nat,
            minute as nat,
            second as nat,
        ),
        utf8_len(text@) <= CLOCK_CAPACITY,
{
    let mut text = String::new();
    let mut open = true;
    write_year(&mut text, &mut open, year);
    proof {
        reveal_strlit("-");
        reveal_strlit(" ");
        reveal_strlit(":");
    }
    write_field(&mut text, &mut open, "-", month);
    write_field(&mut text, &mut open, "-", day);
    write_field(&mut text, &mut open, " ", hour);
    write_field(&mut text, &mut open, ":", minute);
    write_field(&mut text, &mut open, ":", second);
    text
}

/// Joining the pieces of two runs is joining the pieces of each.
proof fn lemma_join_concat(a: Seq<Seq<char>>, b: Seq<Seq<char>>)
    ensures
        (a + b).flatten_alt() == a.flatten_alt() + b.flatten_alt(),
    decreases b.len(),
{
    if b.len() == 0 {
        assert(a + b =~= a);
        assert(a.flatten_alt() + b.flatten_alt() =~= a.flatten_alt());
    } else {
        lemma_join_concat(a, b.drop_last());
        assert((a + b).drop_last() =~= a + b.drop_last());
        assert((a + b).last() == b.last());
        assert((a + b).flatten_alt() =~= a.flatten_alt() + b.flatten_alt());
    }
}

/// One piece joined is that piece.
proof fn lemma_join_single(piece: Seq<char>)
    ensures
        seq![piece].flatten_alt() == piece,
{
    let pieces = seq![piece];
    assert(pieces.drop_last() =~= Seq::<Seq<char>>::empty());
    assert(Seq::<Seq<char>>::empty().flatten_alt() == Seq::<char>::empty());
    assert(Seq::<char>::empty() + piece =~= piece);
}

/// `count` one-character pieces `'0'` join to `count` zeros.
proof fn lemma_join_zeros(count: nat)
    ensures
        Seq::new(count, |i: int| seq!['0']).flatten_alt() == Seq::new(count, |i: int| '0'),
    decreases count,
{
    let pieces = Seq::new(count, |i: int| seq!['0']);
    if count == 0 {
        assert(Seq::new(count, |i: int| '0') =~= Seq::<char>::empty());
    } else {
        lemma_join_zeros((count - 1) as nat);
        assert(pieces.drop_last() =~= Seq::new((count - 1) as nat, |i: int| seq!['0']));
        assert(Seq::new((count - 1) as nat, |i: int| '0') + seq!['0'] =~= Seq::new(
            count,
            |i: int| '0',
        ));
    }
}

/// The pieces of a zero padded number join to the zero padded number.
proof fn lemma_join_padded(n: nat, width: nat)
    ensures
        padded_pieces(n, width).flatten_alt() == zero_padded(n, width),
{
    let digits = decimal_chars(n);
    let zeros: nat = if digits.len() < width {
        (width - digits.len()) as nat
    } else {
        0nat
    };
    let pieces = padded_pieces(n, width);
    lemma_join_zeros(zeros);
    assert(pieces.drop_last() =~= Seq::new(zeros, |i: int| seq!['0']));
    assert(pieces.last() == digits);
    if digits.len() >= width {
        assert(Seq::new(zeros, |i: int| '0') + digits =~= digits);
    }
}

/// Pieces that fit are written whole: the text becomes the old text
/// followed by the joined pieces, and writing stays open.
proof fn lemma_write_pieces_fit(state: (Seq<char>, bool), pieces: Seq<Seq<char>>, capacity: nat)
    requires
        state.1,
        utf8_len(state.0) + utf8_len(pieces.flatten_alt()) <= capacity,
    ensures
        write_pieces(state, pieces, capacity) == (state.0 + pieces.flatten_alt(), true),
    decreases pieces.len(),
{
    if pieces.len() == 0 {
        assert(state.0 + pieces.flatten_alt() =~= state.0);
    } else {
        let front = pieces.drop_last().flatten_alt();
        lemma_encode_utf8_concat(front, pieces.last());
        lemma_encode_utf8_concat(state.0, front);
        lemma_write_pieces_fit(state, pieces.drop_last(), capacity);
        assert(state.0 + front + pieces.last() =~= state.0 + pieces.flatten_alt());
    }
}

/// A field written after an ASCII text that leaves room for it.
proof fn lemma_field_fits(text: Seq<char>, separator: char, n: nat)
    requires
        ascii_only(text),
        text.len() + 3 <= CLOCK_CAPACITY,
        '\0' <= separator <= '\u{7f}',
        n < 100,
    ensures
        write_pieces((text, true), field_pieces(separator, n), CLOCK_CAPACITY as nat) == (
            text + (seq![separator] + zero_padded(n, 2)),
            true,
        ),
        ascii_only(text + (seq![separator] + zero_padded(n, 2))),
        (text + (seq![separator] + zero_padded(n, 2))).len() == text.len() + 3,
{
    let field = seq![separator] + zero_padded(n, 2);
    lemma_decimal_chars(n);
    lemma_zero_padded(n, 2);
    lemma_join_single(seq![separator]);
    lemma_join_padded(n, 2);
    lemma_join_concat(seq![seq![separator]], padded_pieces(n, 2));
    assert(ascii_only(seq![separator]));
    lemma_ascii_concat(seq![separator], zero_padded(n, 2));
    lemma_ascii_concat(text, field);
    lemma_ascii_utf8_len(text);
    lemma_ascii_utf8_len(field);
    lemma_write_pieces_fit((text, true), field_pieces(separator, n), CLOCK_CAPACITY as nat);
}

/// When every field fits its width (a year from -999 to 9999, and month,
/// day, hour, minute and second below 100), nothing is cut: the clock line
/// is the whole `YYYY-MM-DD hh:mm:ss`, nineteen characters long.
pub proof fn lemma_clock_line_complete(
    year: int,
    month: nat,
    day: nat,
    hour: nat,
    minute: nat,
    second: nat,
)
    requires
        -999 <= year <= 9999,
        month < 100,
        day < 100,
        hour < 100,
        minute < 100,
        second < 100,
    ensures
        clock_line(year, month, day, hour, minute, second) == signed_zero_padded(year, 4) + (seq![
            '-',
        ] + zero_padded(month, 2)) + (seq!['-'] + zero_padded(day, 2)) + (seq![' '] + zero_padded(
            hour,
            2,
        )) + (seq![':'] + zero_padded(minute, 2)) + (seq![':'] + zero_padded(second, 2)),
        clock_line(year, month, day, hour, minute, second).len() == 19,
{
    let cap = CLOCK_CAPACITY as nat;
    let year_text = signed_zero_padded(year, 4);
    if year < 0 {
        let magnitude = (-year) as nat;
        lemma_decimal_chars(magnitude);
        lemma_zero_padded(magnitude, 3);
        lemma_join_single(seq!['-']);
        lemma_join_padded(magnitude, 3);
        lemma_join_concat(seq![seq!['-']], padded_pieces(magnitude, 3));
        assert(ascii_only(seq!['-']));
        lemma_ascii_concat(seq!['-'], zero_padded(magnitude, 3));
    } else {
        lemma_decimal_chars(year as nat);
        lemma_zero_padded(year as nat, 4);
        lemma_join_padded(year as nat, 4);
    }
    assert(year_pieces(year).flatten_alt() == year_text);
    lemma_ascii_utf8_len(year_text);
    assert(Seq::<char>::empty() + year_text =~= year_text);
    lemma_write_pieces_fit((Seq::empty(), true), year_pieces(year), cap);
    let t1 = year_text;
    lemma_field_fits(t1, '-', month);
    let t2 = t1 + (seq!['-'] + zero_padded(month, 2));
    lemma_field_fits(t2, '-', day);
    let t3 = t2 + (seq!['-'] + zero_padded(day, 2));
    lemma_field_fits(t3, ' ', hour);
    let t4 = t3 + (seq![' '] + zero_padded(hour, 2));
    lemma_field_fits(t4, ':', minute);
    let t5 = t4 + (seq![':'] + zero_padded(minute, 2));
    lemma_field_fits(t5, ':', second);
}

} // verus!
