//! Byte streams that stand for typical output of a shell: a coloured file
//! listing, a flood of numbered lines, and a cleared screen with a prompt.
//! They feed the terminal where its speed is measured.

use vstd::prelude::*;
use vstd::string::*;
use vstd::utf8::encode_utf8;
use crate::color::push_char;
use crate::text::{append_decimal, decimal_digits};

verus! {

/// The lower-case character of a hexadecimal digit.
pub open spec fn hex_char(d: nat) -> char
    recommends
        d < 16,
{
    if d < 10 {
        ((d + 48) as u8) as char
    } else {
        ((d + 87) as u8) as char
    }
}

/// The hexadecimal notation of `n` in lower case, without leading zeros.
pub open spec fn hex_digits(n: nat) -> Seq<char>
    decreases n,
{
    if n < 16 {
        seq![hex_char(n)]
    } else {
        hex_digits(n / 16).push(hex_char(n % 16))
    }
}

/// A text filled up at the front with `pad` to `width` characters; a longer
/// text stays as it is.
pub open spec fn padded(s: Seq<char>, width: nat, pad: char) -> Seq<char> {
    if s.len() >= width {
        s
    } else {
        Seq::new((width - s.len()) as nat, |i: int| pad) + s
    }
}

/// The short name of one of the first six months.
pub open spec fn month_name(m: nat) -> Seq<char> {
    if m == 0 {
        "Jan"@
    } else if m == 1 {
        "Feb"@
    } else if m == 2 {
        "Mar"@
    } else if m == 3 {
        "Apr"@
    } else if m == 4 {
        "May"@
    } else {
        "Jun"@
    }
}

/// One line of a file listing: every fifth entry is a directory and is
/// coloured blue; size, day and name follow from the number of the entry.
pub open spec fn ls_line(n: nat) -> Seq<char> {
    let directory = n % 5 == 0;
    (if directory {
        "\x1b[34m"@
    } else {
        "\x1b[0m"@
    }) + seq![
        if directory {
            'd'
        } else {
            '-'
        },
    ] + "rw-r--r--  1 user  staff "@ + padded(decimal_digits(1024 + (n * 37) % 2_000_000), 8, ' ')
        + " "@ + month_name(n % 6) + " "@ + padded(decimal_digits(n % 28 + 1), 2, ' ')
        + " 12:34 file_"@ + padded(decimal_digits(n), 5, '0') + ".txt\x1b[0m\r\n"@
}

/// The first `upto` lines of the listing that starts with entry `first`.
pub open spec fn ls_lines(first: nat, upto: nat) -> Seq<char>
    decreases upto,
{
    if upto == 0 {
        Seq::empty()
    } else {
        ls_lines(first, (upto - 1) as nat) + ls_line((first + upto - 1) as nat)
    }
}

/// A number as it wraps in 64 bits.
pub open spec fn wrapped(n: nat) -> nat {
    n % 0x1_0000_0000_0000_0000
}

/// One line of a flood: the number of the line and four of its multiples in
/// hexadecimal, each wrapped to 64 bits.
pub open spec fn flood_line(n: nat) -> Seq<char> {
    "line "@ + padded(decimal_digits(n), 6, '0') + " | "@ + padded(hex_digits(wrapped(n * 17)), 8, '0')
        + " "@ + padded(hex_digits(wrapped(n * 29)), 8, '0') + " "@ + padded(
        hex_digits(wrapped(n * 43)),
        8,
        '0',
    ) + " "@ + padded(hex_digits(wrapped(n * 59)), 8, '0') + "\r\n"@
}

/// The first `upto` lines of the flood that starts with line `first`.
pub open spec fn flood_lines(first: nat, upto: nat) -> Seq<char>
    decreases upto,
{
    if upto == 0 {
        Seq::empty()
    } else {
        flood_lines(first, (upto - 1) as nat) + flood_line((first + upto - 1) as nat)
    }
}

/// The cursor goes home, screen and scrollback are cleared, attributes are
/// reset, and a prompt line with the number follows.
pub open spec fn clear_payload(seed: nat) -> Seq<char> {
    "\x1b[H\x1b[2J\x1b[3J\x1b[0muser@host ~/workdir % echo "@ + decimal_digits(seed) + "\r\n"@
}

fn append_hex(s: &mut String, n: u64)
    ensures
        final(s)@ == old(s)@ + hex_digits(n as nat),
    decreases n,
{
    if n >= 16 {
        append_hex(s, n / 16);
    }
    let d: u8 = (n % 16) as u8;
    let c: u8 = if d < 10 {
        d + 48
    } else {
        d + 87
    };
    push_char(s, c as char);
    assert(s@ =~= old(s)@ + hex_digits(n as nat));
}

fn append_padded(out: &mut String, body: &str, width: usize, pad: char)
    ensures
        final(out)@ == old(out)@ + padded(body@, width as nat, pad),
{
    let len = body.unicode_len();
    let mut k: usize = len;
    while k < width
        invariant
            len <= k,
            k <= width || k == len,
            len == body@.len(),
            out@ == old(out)@ + Seq::new((k - len) as nat, |i: int| pad),
        decreases width - k,
    {
        push_char(out, pad);
        assert(out@ =~= old(out)@ + Seq::new((k + 1 - len) as nat, |i: int| pad));
        k += 1;
    }
    out.append(body);
    assert(out@ =~= old(out)@ + padded(body@, width as nat, pad));
}

fn append_padded_decimal(out: &mut String, n: u64, width: usize, pad: char)
    ensures
        final(out)@ == old(out)@ + padded(decimal_digits(n as nat), width as nat, pad),
{
    let mut digits = String::new();
    append_decimal(&mut digits, n);
    assert(digits@ =~= decimal_digits(n as nat));
    append_padded(out, digits.as_str(), width, pad);
}

fn append_padded_hex(out: &mut String, n: u64)
    ensures
        final(out)@ == old(out)@ + padded(hex_digits(n as nat), 8, '0'),
{
    let mut digits = String::new();
    append_hex(&mut digits, n);
    assert(digits@ =~= hex_digits(n as nat));
    append_padded(out, digits.as_str(), 8, '0');
}

fn times_wrapped(n: u64, factor: u64) -> (r: u64)
    requires
        factor < 64,
    ensures
        r == wrapped(n as nat * factor as nat),
{
    assert(n as u128 * factor as u128 <= 0xffff_ffff_ffff_ffff * 64) by (nonlinear_arith)
        requires
            n <= 0xffff_ffff_ffff_ffff,
            factor < 64,
    ;
    let wide: u128 = n as u128 * factor as u128;
    (wide % 0x1_0000_0000_0000_0000) as u64
}

fn append_ls_line(out: &mut String, n: u64)
    ensures
        final(out)@ == old(out)@ + ls_line(n as nat),
{
    let directory = n % 5 == 0;
    if directory {
        out.append("\x1b[34m");
        push_char(out, 'd');
    } else {
        out.append("\x1b[0m");
        push_char(out, '-');
    }
    out.append("rw-r--r--  1 user  staff ");
    assert(n as u128 * 37 <= 0xffff_ffff_ffff_ffff * 37) by (nonlinear_arith)
        requires
            n <= 0xffff_ffff_ffff_ffff,
    ;
    let size: u64 = 1024 + ((n as u128 * 37) % 2_000_000) as u64;
    append_padded_decimal(out, size, 8, ' ');
    out.append(" ");
    let m = n % 6;
    if m == 0 {
        out.append("Jan");
    } else if m == 1 {
        out.append("Feb");
    } else if m == 2 {
        out.append("Mar");
    } else if m == 3 {
        out.append("Apr");
    } else if m == 4 {
        out.append("May");
    } else {
        out.append("Jun");
    }
    out.append(" ");
    append_padded_decimal(out, n % 28 + 1, 2, ' ');
    out.append(" 12:34 file_");
    append_padded_decimal(out, n, 5, '0');
    out.append(".txt\x1b[0m\r\n");
    assert(out@ =~= old(out)@ + ls_line(n as nat));
}

fn append_flood_line(out: &mut String, n: u64)
    ensures
        final(out)@ == old(out)@ + flood_line(n as nat),
{
    out.append("line ");
    append_padded_decimal(out, n, 6, '0');
    out.append(" | ");
    append_padded_hex(out, times_wrapped(n, 17));
    out.append(" ");
    append_padded_hex(out, times_wrapped(n, 29));
    out.append(" ");
    append_padded_hex(out, times_wrapped(n, 43));
    out.append(" ");
    append_padded_hex(out, times_wrapped(n, 59));
    out.append("\r\n");
    assert(out@ =~= old(out)@ + flood_line(n as nat));
}

/// The bytes of `lines` lines of a coloured file listing, the `seed`th such
/// burst: its entries are numbered from `seed * lines`.
pub fn generate_ls_like_burst(seed: usize, lines: usize) -> (bytes: Vec<u8>)
    requires
        seed * lines + lines <= u64::MAX,
    ensures
        bytes@ == encode_utf8(ls_lines((seed * lines) as nat, lines as nat)),
{
    assert(seed * lines <= u64::MAX) by (nonlinear_arith)
        requires
            seed * lines + lines <= u64::MAX,
            lines >= 0,
    ;
    let first: u64 = (seed as u64) * (lines as u64);
    let mut out = String::new();
    let mut i: usize = 0;
    assert(out@ =~= ls_lines(first as nat, 0));
    while i < lines
        invariant
            i <= lines,
            first == seed * lines,
            first + lines <= u64::MAX,
            out@ == ls_lines(first as nat, i as nat),
        decreases lines - i,
    {
        append_ls_line(&mut out, first + i as u64);
        i += 1;
    }
    out.as_str().as_bytes_vec()
}

/// The bytes of `lines` numbered lines, the first with the number
/// `start_idx`.
pub fn generate_line_flood(start_idx: usize, lines: usize) -> (bytes: Vec<u8>)
    requires
        start_idx + lines <= u64::MAX,
    ensures
        bytes@ == encode_utf8(flood_lines(start_idx as nat, lines as nat)),
{
    let first: u64 = start_idx as u64;
    let mut out = String::new();
    let mut i: usize = 0;
    assert(out@ =~= flood_lines(first as nat, 0));
    while i < lines
        invariant
            i <= lines,
            first == start_idx,
            first + lines <= u64::MAX,
            out@ == flood_lines(first as nat, i as nat),
        decreases lines - i,
    {
        append_flood_line(&mut out, first + i as u64);
        i += 1;
    }
    out.as_str().as_bytes_vec()
}

/// The bytes that clear the screen and print a prompt line with `seed`.
pub fn generate_ctrl_l_clear_payload(seed: usize) -> (bytes: Vec<u8>)
    ensures
        bytes@ == encode_utf8(clear_payload(seed as nat)),
{
    let mut out = String::from_str("\x1b[H\x1b[2J\x1b[3J\x1b[0muser@host ~/workdir % echo ");
    append_decimal(&mut out, seed as u64);
    out.append("\r\n");
    out.as_str().as_bytes_vec()
}

} // verus!
