use vstd::prelude::*;
use crate::text::push_text;

verus! {

/// The character of a decimal digit.
pub open spec fn digit_char(d: nat) -> char {
    if d == 0 { '0' } else if d == 1 { '1' } else if d == 2 { '2' } else if d == 3 { '3' } else if d == 4 {
        '4'
    } else if d == 5 { '5' } else if d == 6 { '6' } else if d == 7 { '7' } else if d == 8 { '8' } else { '9' }
}

/// The decimal notation of `n`, without leading zeros.
pub open spec fn decimal(n: nat) -> Seq<char>
    decreases n,
{
    if n < 10 {
        seq![digit_char(n)]
    } else {
        decimal(n / 10).push(digit_char(n % 10))
    }
}

/// `s` followed by spaces up to `width` characters.
pub open spec fn padded(s: Seq<char>, width: nat) -> Seq<char> {
    if s.len() >= width { s } else { s + Seq::new((width - s.len()) as nat, |i: int| ' ') }
}

fn digit_text(d: u32) -> (r: &'static str)
    requires
        d < 10,
    ensures
        r@ == seq![digit_char(d as nat)],
{
    proof {
        reveal_strlit("0"); reveal_strlit("1"); reveal_strlit("2"); reveal_strlit("3"); reveal_strlit("4");
        reveal_strlit("5"); reveal_strlit("6"); reveal_strlit("7"); reveal_strlit("8"); reveal_strlit("9");
    }
    if d == 0 { "0" } else if d == 1 { "1" } else if d == 2 { "2" } else if d == 3 { "3" } else if d == 4 {
        "4"
    } else if d == 5 { "5" } else if d == 6 { "6" } else if d == 7 { "7" } else if d == 8 { "8" } else { "9" }
}

/// Appends the decimal notation of `n` to `out`.
pub fn push_decimal(out: &mut String, n: u32)
    ensures
        final(out)@ == old(out)@ + decimal(n as nat),
    decreases n,
{
    if n >= 10 {
        push_decimal(out, n / 10);
    }
    push_text(out, digit_text(n % 10));
    proof {
        if n >= 10 {
            assert(decimal(n as nat) == decimal((n / 10) as nat).push(digit_char((n % 10) as nat)));
        }
    }
}

/// Appends `s` and then spaces up to `width` characters.
pub fn push_padded(out: &mut String, s: &str, width: usize)
    ensures
        final(out)@ == old(out)@ + padded(s@, width as nat),
{
    push_text(out, s);
    let n = s.unicode_len();
    let ghost base = old(out)@ + s@;
    assert(out@ =~= base + Seq::new(0, |i: int| ' '));
    if n < width {
        let mut k: usize = n;
        while k < width
            invariant
                n <= k <= width,
                n == s@.len(),
                out@ == base + Seq::new((k - n) as nat, |i: int| ' '),
            decreases width - k,
        {
            proof { reveal_strlit(" "); }
            push_text(out, " ");
            k = k + 1;
            assert(out@ =~= base + Seq::new((k - n) as nat, |i: int| ' '));
        }
    }
    assert(final(out)@ =~= old(out)@ + padded(s@, width as nat));
}

pub const START_FILE: &'static str = "--- START FILE: ";
pub const END_FILE: &'static str = "--- END FILE: ";
pub const FILE_MARK_END: &'static str = " ---\n";
pub const SKIPPED_BINARY: &'static str = "[Skipped binary file]";
pub const LINE_END: &'static str = "\n";

/// The section of a file in a concatenated listing: its text, or a note when
/// it is not text, between a start and an end line.
pub open spec fn file_section(path: Seq<char>, content: Option<Seq<char>>) -> Seq<char> {
    let body = match content {
        Some(c) => c,
        None => SKIPPED_BINARY@,
    };
    START_FILE@ + path + FILE_MARK_END@ + body + LINE_END@ + END_FILE@ + path + FILE_MARK_END@ + LINE_END@
}

/// Appends the section of the file at `relative_path`, whose content is
/// `content` when it reads as text.
pub fn append_file_content(relative_path: &str, content: Option<&str>, output: &mut String)
    ensures
        final(output)@ == old(output)@ + file_section(relative_path@, match content {
            Some(c) => Some(c@),
            None => None,
        }),
{
    push_text(output, START_FILE);
    push_text(output, relative_path);
    push_text(output, FILE_MARK_END);
    match content {
        Some(c) => push_text(output, c),
        None => push_text(output, SKIPPED_BINARY),
    }
    push_text(output, LINE_END);
    push_text(output, END_FILE);
    push_text(output, relative_path);
    push_text(output, FILE_MARK_END);
    push_text(output, LINE_END);
}

} // verus!
