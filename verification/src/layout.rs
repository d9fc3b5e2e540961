//! The layout engine: column measurement, human-readable size formatting,
//! width-aware padding and the color-coded rendering of one row per entry.

use vstd::prelude::*;

use crate::entry::EntryKind;
use crate::entry::FileInfo;

verus! {

/// Bytes per kibibyte.
pub const KIB: u64 = 1024;

/// Bytes per mebibyte.
pub const MIB: u64 = 1024 * 1024;

/// Bytes per gibibyte.
pub const GIB: u64 = 1024 * 1024 * 1024;

/// Fixed width of the human-readable size column.
pub const SIZE_FIELD_WIDTH: usize = 6;

/// The decimal digit character for `d` (meaningful for `0 <= d <= 9`).
pub open spec fn digit_char(d: int) -> char {
    if d == 0 {
        '0'
    } else if d == 1 {
        '1'
    } else if d == 2 {
        '2'
    } else if d == 3 {
        '3'
    } else if d == 4 {
        '4'
    } else if d == 5 {
        '5'
    } else if d == 6 {
        '6'
    } else if d == 7 {
        '7'
    } else if d == 8 {
        '8'
    } else {
        '9'
    }
}

/// The decimal numeral of a nonnegative number, most significant digit
/// first, with no leading zeros (a lone `'0'` for zero).
pub open spec fn dec_str(n: int) -> Seq<char>
    decreases n,
{
    if n < 10 {
        seq![digit_char(n)]
    } else {
        dec_str(n / 10).push(digit_char(n % 10))
    }
}

/// A run of `n` spaces (empty when `n` is not positive).
pub open spec fn space_seq(n: int) -> Seq<char> {
    Seq::new(if n >= 0 { n as nat } else { 0 }, |i: int| ' ')
}

/// `s` left-padded with spaces to width `w`; a string already at or past
/// that width gets no padding.
pub open spec fn pad_left(s: Seq<char>, w: int) -> Seq<char> {
    space_seq(w - s.len()) + s
}

/// `s` right-padded with spaces to width `w`; a string already at or past
/// that width gets no padding and is never truncated.
pub open spec fn pad_right(s: Seq<char>, w: int) -> Seq<char> {
    s + space_seq(w - s.len())
}

/// The digit as a one-character string slice.
fn digit_str(d: u64) -> (r: &'static str)
    requires
        d < 10,
    ensures
        r@ == seq![digit_char(d as int)],
{
    proof {
        reveal_strlit("0");
        reveal_strlit("1");
        reveal_strlit("2");
        reveal_strlit("3");
        reveal_strlit("4");
        reveal_strlit("5");
        reveal_strlit("6");
        reveal_strlit("7");
        reveal_strlit("8");
        reveal_strlit("9");
    }
    match d {
        0 => "0",
        1 => "1",
        2 => "2",
        3 => "3",
        4 => "4",
        5 => "5",
        6 => "6",
        7 => "7",
        8 => "8",
        _ => "9",
    }
}

/// The decimal numeral of `n`.
fn dec_u64(n: u64) -> (r: String)
    ensures
        r@ == dec_str(n as int),
    decreases n,
{
    if n < 10 {
        let mut r = String::new();
        r.append(digit_str(n));
        r
    } else {
        let mut r = dec_u64(n / 10);
        r.append(digit_str(n % 10));
        proof {
            assert(dec_str((n / 10) as int).push(digit_char((n % 10) as int)) =~= dec_str(
                (n / 10) as int,
            ) + seq![digit_char((n % 10) as int)]);
        }
        r
    }
}

/// A string of `n` spaces.
pub fn spaces(n: usize) -> (r: String)
    ensures
        r@ == space_seq(n as int),
{
    let mut r = String::new();
    let mut i: usize = 0;
    proof {
        reveal_strlit(" ");
    }
    while i < n
        invariant
            i <= n,
            r@ == space_seq(i as int),
        decreases n - i,
    {
        r.append(" ");
        i = i + 1;
        proof {
            reveal_strlit(" ");
            assert(r@ =~= space_seq(i as int));
        }
    }
    r
}

/// Whole units and truncated hundredths of `size` in units of `unit`:
/// `<size/unit>.<two digits of (size%unit)*100/unit>`.
pub open spec fn two_dec(size: u64, unit: u64) -> Seq<char>
    recommends
        unit > 1,
{
    let frac = (size as int % unit as int) * 100 / unit as int;
    dec_str(size as int / unit as int) + seq!['.', digit_char(frac / 10), digit_char(frac % 10)]
}

/// The human-readable size text: two-decimal gibibytes for a gibibyte or
/// more, two-decimal mebibytes from a mebibyte up, whole kibibytes from a
/// kibibyte up, bytes below that. Scaling always divides the byte count by
/// the unit size.
pub open spec fn size_text(size: u64) -> Seq<char> {
    if size >= GIB {
        two_dec(size, GIB) + seq!['G', 'B']
    } else if size >= MIB {
        two_dec(size, MIB) + seq!['M', 'B']
    } else if size >= KIB {
        dec_str(size as int / KIB as int) + seq!['K', 'B']
    } else {
        dec_str(size as int) + seq!['B']
    }
}

/// Format `size / unit` with two truncated decimal places.
fn two_dec_exec(size: u64, unit: u64) -> (r: String)
    requires
        1 < unit <= GIB,
    ensures
        r@ == two_dec(size, unit),
{
    let whole = size / unit;
    let rem = size % unit;
    let frac = rem * 100 / unit;
    proof {
        assert((rem as int) * 100 / (unit as int) < 100) by (nonlinear_arith)
            requires
                0 <= rem < unit,
                unit > 1,
        ;
    }
    let mut r = dec_u64(whole);
    proof {
        reveal_strlit(".");
    }
    r.append(".");
    r.append(digit_str(frac / 10));
    r.append(digit_str(frac % 10));
    proof {
        assert(r@ =~= two_dec(size, unit));
    }
    r
}

/// Render `size` as human-readable text and left-pad it with spaces to
/// `length`; text already at or past `length` gets no padding.
pub fn readable_size(size: u64, length: usize) -> (r: String)
    ensures
        r@ == pad_left(size_text(size), length as int),
{
    let text = if size >= GIB {
        let mut t = two_dec_exec(size, GIB);
        proof {
            reveal_strlit("GB");
        }
        t.append("GB");
        t
    } else if size >= MIB {
        let mut t = two_dec_exec(size, MIB);
        proof {
            reveal_strlit("MB");
        }
        t.append("MB");
        t
    } else if size >= KIB {
        let mut t = dec_u64(size / KIB);
        proof {
            reveal_strlit("KB");
        }
        t.append("KB");
        t
    } else {
        let mut t = dec_u64(size);
        proof {
            reveal_strlit("B");
        }
        t.append("B");
        t
    };
    proof {
        assert(text@ =~= size_text(size));
    }
    let tlen = text.as_str().unicode_len();
    let mut r = if tlen < length {
        spaces(length - tlen)
    } else {
        spaces(0)
    };
    r.append(text.as_str());
    proof {
        assert(r@ =~= pad_left(size_text(size), length as int));
    }
    r
}

/// An ANSI 256-color background escape wrapped around `s`, reset at the
/// end: `ESC[48;5;<value>m<s>ESC[0m`.
pub open spec fn color_wrap(s: Seq<char>, value: u8) -> Seq<char> {
    seq!['\x1b', '[', '4', '8', ';', '5', ';'] + dec_str(value as int) + seq!['m'] + s + seq![
        '\x1b',
        '[',
        '0',
        'm',
    ]
}

/// Wrap `s` in the ANSI background-color escape for `value`, reset at the
/// end of the line.
pub fn set_background(s: String, value: u8) -> (r: String)
    ensures
        r@ == color_wrap(s@, value),
{
    proof {
        reveal_strlit("\x1b[48;5;");
        reveal_strlit("m");
        reveal_strlit("\x1b[0m");
    }
    let mut r = String::new();
    r.append("\x1b[48;5;");
    let code = dec_u64(value as u64);
    r.append(code.as_str());
    r.append("m");
    r.append(s.as_str());
    r.append("\x1b[0m");
    proof {
        assert(r@ =~= color_wrap(s@, value));
    }
    r
}

/// The widest `name` over the entries, 0 for an empty sequence.
pub open spec fn spec_name_width(s: Seq<FileInfo>) -> nat
    decreases s.len(),
{
    if s.len() == 0 {
        0
    } else if spec_name_width(s.drop_last()) >= s.last().name@.len() {
        spec_name_width(s.drop_last())
    } else {
        s.last().name@.len()
    }
}

/// The widest extension over the entries, an absent one counting as 0.
pub open spec fn spec_suffix_width(s: Seq<FileInfo>) -> nat
    decreases s.len(),
{
    if s.len() == 0 {
        0
    } else if spec_suffix_width(s.drop_last()) >= s.last().spec_suffix_len() {
        spec_suffix_width(s.drop_last())
    } else {
        s.last().spec_suffix_len()
    }
}

/// The name-width column measure bounds every name.
pub proof fn lemma_name_width_bounds(s: Seq<FileInfo>)
    ensures
        forall|k: int| 0 <= k < s.len() ==> s[k].name@.len() <= spec_name_width(s),
        forall|k: int| 0 <= k < s.len() ==> s[k].spec_suffix_len() <= spec_suffix_width(s),
    decreases s.len(),
{
    if s.len() > 0 {
        lemma_name_width_bounds(s.drop_last());
        assert(forall|k: int| 0 <= k < s.len() - 1 ==> s[k] == s.drop_last()[k]);
    }
}

/// Measure the name column: the longest entry name.
pub fn name_width(entries: &Vec<FileInfo>) -> (r: usize)
    ensures
        r == spec_name_width(entries@),
{
    let mut r: usize = 0;
    let mut i: usize = 0;
    while i < entries.len()
        invariant
            i <= entries@.len(),
            r == spec_name_width(entries@.take(i as int)),
        decreases entries@.len() - i,
    {
        let l = entries[i].name.as_str().unicode_len();
        if l > r {
            r = l;
        }
        proof {
            assert(entries@.take(i + 1).drop_last() =~= entries@.take(i as int));
        }
        i = i + 1;
    }
    proof {
        assert(entries@.take(entries@.len() as int) =~= entries@);
    }
    r
}

/// Measure the extension column: the longest extension, absent ones
/// counting as empty.
pub fn suffix_width(entries: &Vec<FileInfo>) -> (r: usize)
    ensures
        r == spec_suffix_width(entries@),
{
    let mut r: usize = 0;
    let mut i: usize = 0;
    while i < entries.len()
        invariant
            i <= entries@.len(),
            r == spec_suffix_width(entries@.take(i as int)),
        decreases entries@.len() - i,
    {
        let l = entries[i].get_suffix_len();
        if l > r {
            r = l;
        }
        proof {
            assert(entries@.take(i + 1).drop_last() =~= entries@.take(i as int));
        }
        i = i + 1;
    }
    proof {
        assert(entries@.take(entries@.len() as int) =~= entries@);
    }
    r
}

/// One row's content before terminal-width padding: the name right-padded
/// to the name column, the literal `" |"`, the extension right-padded to
/// its column, the literal `"|"`, and the size text left-padded to the
/// fixed size field.
pub open spec fn line_content(e: FileInfo, name_w: int, suffix_w: int) -> Seq<char> {
    pad_right(e.name@, name_w) + seq![' ', '|'] + pad_right(e.spec_suffix_chars(), suffix_w)
        + seq!['|'] + pad_left(size_text(e.size), SIZE_FIELD_WIDTH as int)
}

/// Background color for a row: a 2-by-2 table keyed by the entry's kind
/// and the rendered row's parity.
pub open spec fn color_code(kind: EntryKind, even: bool) -> u8 {
    match kind {
        EntryKind::Directory => if even {
            244
        } else {
            243
        },
        EntryKind::File => if even {
            140
        } else {
            146
        },
    }
}

/// One fully rendered row: the content padded with spaces to the terminal
/// width (never truncated), wrapped whole in the background color chosen
/// by kind and row parity.
pub open spec fn rendered_line(e: FileInfo, name_w: int, suffix_w: int, width: int, even: bool)
    -> Seq<char> {
    color_wrap(pad_right(line_content(e, name_w, suffix_w), width), color_code(e.kind, even))
}

/// When the name, the extension and the size text each fit their column,
/// a row's content before terminal padding is exactly the name column,
/// the two-character separator, the extension column, the one-character
/// separator and the size field.
pub proof fn lemma_line_content_len(e: FileInfo, name_w: int, suffix_w: int)
    requires
        e.name@.len() <= name_w,
        e.spec_suffix_len() <= suffix_w,
        size_text(e.size).len() <= SIZE_FIELD_WIDTH,
    ensures
        line_content(e, name_w, suffix_w).len() == name_w + 2 + suffix_w + 1 + SIZE_FIELD_WIDTH,
{
}

/// Render one entry as a colored, fixed-width row.
pub fn render_line(e: &FileInfo, name_w: usize, suffix_w: usize, width: usize, even: bool) -> (r:
    String)
    ensures
        r@ == rendered_line(*e, name_w as int, suffix_w as int, width as int, even),
{
    let mut line = String::new();
    line.append(e.name.as_str());
    let nlen = e.name.as_str().unicode_len();
    let npad = spaces(if nlen < name_w {
        name_w - nlen
    } else {
        0
    });
    line.append(npad.as_str());
    proof {
        reveal_strlit(" |");
        reveal_strlit("|");
    }
    line.append(" |");
    match &e.suffix {
        Some(s) => line.append(s.as_str()),
        None => (),
    }
    let slen = e.get_suffix_len();
    let spad = spaces(if slen < suffix_w {
        suffix_w - slen
    } else {
        0
    });
    line.append(spad.as_str());
    line.append("|");
    let size_s = readable_size(e.size, SIZE_FIELD_WIDTH);
    line.append(size_s.as_str());
    proof {
        assert(line@ =~= line_content(*e, name_w as int, suffix_w as int));
    }
    let clen = line.as_str().unicode_len();
    let tpad = spaces(if clen < width {
        width - clen
    } else {
        0
    });
    line.append(tpad.as_str());
    proof {
        assert(line@ =~= pad_right(
            line_content(*e, name_w as int, suffix_w as int),
            width as int,
        ));
    }
    let code: u8 = match (e.is_dir(), even) {
        (true, true) => 244,
        (true, false) => 243,
        (false, true) => 140,
        (false, false) => 146,
    };
    set_background(line, code)
}

/// Render every entry, one row per entry in sequence order, measuring the
/// name and extension columns over the whole set. Row parity alternates by
/// rendered position, the first row counting as even, so the coloring
/// follows the final order, not any earlier one.
pub fn render(entries: &Vec<FileInfo>, width: usize) -> (r: Vec<String>)
    ensures
        r@.len() == entries@.len(),
        forall|i: int|
            0 <= i < r@.len() ==> r@[i]@ == rendered_line(
                entries@[i],
                spec_name_width(entries@) as int,
                spec_suffix_width(entries@) as int,
                width as int,
                i % 2 == 0,
            ),
{
    let name_w = name_width(entries);
    let suffix_w = suffix_width(entries);
    let mut r: Vec<String> = Vec::new();
    let mut i: usize = 0;
    while i < entries.len()
        invariant
            i <= entries@.len(),
            r@.len() == i,
            name_w == spec_name_width(entries@),
            suffix_w == spec_suffix_width(entries@),
            forall|j: int|
                0 <= j < i ==> r@[j]@ == rendered_line(
                    entries@[j],
                    spec_name_width(entries@) as int,
                    spec_suffix_width(entries@) as int,
                    width as int,
                    j % 2 == 0,
                ),
        decreases entries@.len() - i,
    {
        let even = i % 2 == 0;
        let line = render_line(&entries[i], name_w, suffix_w, width, even);
        r.push(line);
        i = i + 1;
    }
    r
}

} // verus!
