use vstd::prelude::*;
use crate::source::source_file::SourceFile;
use crate::text::{decimal, push_decimal, push_repeated, push_str_chars, repeat_char, string_from_chars, usize_to_decimal, utf8_len};

verus! {

/// A position in a source file: a line index and the byte offset (in
/// UTF-8) of a character in that line, both counted from 0.
#[derive(Debug, Copy, Clone, PartialEq, Eq, Structural)]
pub struct SourceLocation {
    pub line_index: usize,
    pub char_index: usize,
}

impl SourceLocation {
    pub fn new(line_index: usize, char_index: usize) -> (r: Self)
        ensures
            r.line_index == line_index,
            r.char_index == char_index,
    {
        Self { line_index, char_index }
    }

    /// The location one byte further right on the same line.
    pub fn shift_right(&self) -> (r: Self)
        requires
            self.char_index < usize::MAX,
        ensures
            r.line_index == self.line_index,
            r.char_index == self.char_index + 1,
    {
        Self { line_index: self.line_index, char_index: self.char_index + 1 }
    }
}

/// A range of source text from `start` (inclusive) to `end` (exclusive).
#[derive(Debug, Copy, Clone, PartialEq, Eq, Structural)]
pub struct SourceSpan {
    pub start: SourceLocation,
    pub end: SourceLocation,
}

impl SourceSpan {
    /// The span of the bytes `start..end` of one line.
    pub fn single_line(line_index: usize, start: usize, end: usize) -> (r: Self)
        ensures
            r.start == (SourceLocation { line_index, char_index: start }),
            r.end == (SourceLocation { line_index, char_index: end }),
    {
        Self { start: SourceLocation::new(line_index, start), end: SourceLocation::new(line_index, end) }
    }

    pub fn new(start: SourceLocation, end: SourceLocation) -> (r: Self)
        ensures
            r.start == start,
            r.end == end,
    {
        Self { start, end }
    }
}

/// The length of a line in bytes, in UTF-8, as a `usize` (what `str::len`
/// gives).
pub open spec fn byte_len(line: Seq<char>) -> usize {
    utf8_len(line) as usize
}

/// `n` in decimal, right-aligned with spaces to `width` characters.
pub open spec fn padded_decimal(n: nat, width: nat) -> Seq<char> {
    if decimal(n).len() < width {
        repeat_char(' ', (width - decimal(n).len()) as nat) + decimal(n)
    } else {
        decimal(n)
    }
}

/// One quoted line: its number, a bar and its text, then, under the text,
/// the underline.
pub open spec fn line_block(number: Seq<char>, content: Seq<char>, width: nat, underline: Seq<char>) -> Seq<char> {
    number + " | "@ + content + "\n"@ + repeat_char(' ', width) + " | "@ + underline + "\n"@
}

/// The fully underlined lines `from..to` of a multi-line span.
pub open spec fn middle_blocks(lines: Seq<Seq<char>>, from: int, to: int, width: nat) -> Seq<char>
    decreases to - from,
{
    if from >= to {
        Seq::empty()
    } else {
        line_block(padded_decimal((from + 1) as nat, width), lines[from], width, repeat_char('^', byte_len(lines[from]) as nat))
            + middle_blocks(lines, from + 1, to, width)
    }
}

/// A span shown in its source: a header with the file, line and column,
/// then each line of the span with the spanned text underlined.
pub open spec fn span_format(span: SourceSpan, path: Seq<char>, lines: Seq<Seq<char>>) -> Seq<char> {
    let width = decimal((span.end.line_index + 1) as nat).len();
    let first = lines[span.start.line_index as int];
    let single = span.start.line_index == span.end.line_index;
    let end_char = if single {
        span.end.char_index as int
    } else {
        byte_len(first) as int
    };
    let header = "File:  "@ + path + ":"@ + decimal((span.start.line_index + 1) as nat) + ":"@ + decimal(
        span.start.char_index as nat,
    ) + "\n"@;
    let first_block = line_block(
        padded_decimal((span.start.line_index + 1) as nat, width),
        first,
        width,
        repeat_char(' ', span.start.char_index as nat) + repeat_char('^', (end_char - span.start.char_index) as nat),
    );
    if single {
        header + first_block
    } else {
        let last = lines[span.end.line_index as int];
        header + first_block + middle_blocks(lines, span.start.line_index + 1, span.end.line_index as int, width)
            + line_block(
            decimal((span.end.line_index + 1) as nat),
            last,
            width,
            repeat_char('^', span.end.char_index as nat) + repeat_char(' ', (byte_len(last) - span.end.char_index) as nat),
        )
    }
}

/// Appends `n` in decimal, right-aligned to `width` characters.
fn push_padded_decimal(out: &mut Vec<char>, n: usize, width: usize)
    ensures
        final(out)@ == old(out)@ + padded_decimal(n as nat, width as nat),
{
    let digits = usize_to_decimal(n);
    if digits.len() < width {
        push_repeated(out, ' ', width - digits.len());
    }
    let ghost mid = out@;
    let mut i: usize = 0;
    while i < digits.len()
        invariant
            i <= digits@.len(),
            out@ == mid + digits@.subrange(0, i as int),
        decreases digits@.len() - i,
    {
        out.push(digits[i]);
        i += 1;
        assert(out@ =~= mid + digits@.subrange(0, i as int));
    }
    assert(digits@.subrange(0, digits@.len() as int) =~= digits@);
    assert(out@ =~= old(out)@ + padded_decimal(n as nat, width as nat));
}

/// Appends one quoted line whose underline is `c1` `n1` times, then `c2`
/// `n2` times.
fn push_line_block(out: &mut Vec<char>, number: &Vec<char>, content: &str, width: usize, c1: char, n1: usize, c2: char, n2: usize)
    ensures
        final(out)@ == old(out)@ + line_block(
            number@,
            content@,
            width as nat,
            repeat_char(c1, n1 as nat) + repeat_char(c2, n2 as nat),
        ),
{
    let ghost start = out@;
    let mut i: usize = 0;
    while i < number.len()
        invariant
            i <= number@.len(),
            out@ == start + number@.subrange(0, i as int),
        decreases number@.len() - i,
    {
        out.push(number[i]);
        i += 1;
        assert(out@ =~= start + number@.subrange(0, i as int));
    }
    assert(number@.subrange(0, number@.len() as int) =~= number@);
    push_str_chars(out, " | ");
    push_str_chars(out, content);
    push_str_chars(out, "\n");
    push_repeated(out, ' ', width);
    push_str_chars(out, " | ");
    push_repeated(out, c1, n1);
    push_repeated(out, c2, n2);
    push_str_chars(out, "\n");
    assert(out@ =~= start + line_block(number@, content@, width as nat, repeat_char(c1, n1 as nat) + repeat_char(c2, n2 as nat)));
}

impl SourceSpan {
    /// The span's lines are lines of `lines`, and its columns lie within
    /// them: it can be shown in them.
    pub open spec fn fits(&self, lines: Seq<Seq<char>>) -> bool {
        &&& self.start.line_index < lines.len()
        &&& self.end.line_index < lines.len()
        &&& self.start.line_index == self.end.line_index ==> self.start.char_index <= self.end.char_index
        &&& self.start.line_index != self.end.line_index ==> self.start.char_index <= byte_len(lines[self.start.line_index as int])
            && self.end.char_index <= byte_len(lines[self.end.line_index as int])
    }

    /// Whether the span lies within the lines of `source` (see `fits`).
    pub fn fits_source(&self, source: &SourceFile) -> (r: bool)
        ensures
            r == self.fits(source.lines_view()),
    {
        let n = source.line_count();
        if !(self.start.line_index < n && self.end.line_index < n) {
            return false;
        }
        if self.start.line_index == self.end.line_index {
            self.start.char_index <= self.end.char_index
        } else {
            self.start.char_index <= source.get_line(self.start.line_index).len()
                && self.end.char_index <= source.get_line(self.end.line_index).len()
        }
    }

    /// The span shown in its source file (see `span_format`).
    pub fn format(&self, source: &SourceFile) -> (r: String)
        requires
            self.fits(source.lines_view()),
        ensures
            r@ == span_format(*self, source.path@, source.lines_view()),
    {
        let ghost lines = source.lines_view();
        let line_count = source.line_count();
        assert(self.end.line_index < line_count);
        let width = usize_to_decimal(self.end.line_index + 1).len();
        let mut out: Vec<char> = Vec::new();
        push_str_chars(&mut out, "File:  ");
        push_str_chars(&mut out, source.path_display());
        push_str_chars(&mut out, ":");
        push_decimal(&mut out, self.start.line_index + 1);
        push_str_chars(&mut out, ":");
        push_decimal(&mut out, self.start.char_index);
        push_str_chars(&mut out, "\n");
        let ghost header = out@;
        let start_char_index = self.start.char_index;
        let first_line_str = source.get_line(self.start.line_index);
        let single_line = self.start.line_index == self.end.line_index;
        let end_char_index = if single_line {
            self.end.char_index
        } else {
            first_line_str.len()
        };
        let mut number: Vec<char> = Vec::new();
        push_padded_decimal(&mut number, self.start.line_index + 1, width);
        assert(number@ =~= Seq::<char>::empty() + padded_decimal((self.start.line_index + 1) as nat, width as nat));
        push_line_block(&mut out, &number, first_line_str, width, ' ', start_char_index, '^', end_char_index - start_char_index);
        if !single_line {
            let ghost before_middle = out@;
            let mut line_num = self.start.line_index + 1;
            while line_num < self.end.line_index
                invariant
                    self.start.line_index < line_num,
                    line_num <= self.end.line_index || line_num == self.start.line_index + 1,
                    self.end.line_index < source.lines@.len(),
                    lines == source.lines_view(),
                    width as nat == decimal((self.end.line_index + 1) as nat).len(),
                    out@ + middle_blocks(lines, line_num as int, self.end.line_index as int, width as nat)
                        == before_middle + middle_blocks(lines, self.start.line_index + 1, self.end.line_index as int, width as nat),
                decreases self.end.line_index - line_num,
            {
                let line_content = source.get_line(line_num);
                let mut num: Vec<char> = Vec::new();
                push_padded_decimal(&mut num, line_num + 1, width);
                assert(num@ =~= Seq::<char>::empty() + padded_decimal((line_num + 1) as nat, width as nat));
                let ghost before = out@;
                push_line_block(&mut out, &num, line_content, width, '^', line_content.len(), '^', 0);
                proof {
                    assert(repeat_char('^', byte_len(line_content@) as nat) + repeat_char('^', 0) =~= repeat_char('^', byte_len(line_content@) as nat));
                    assert(out@ + middle_blocks(lines, line_num + 1, self.end.line_index as int, width as nat)
                        =~= before + middle_blocks(lines, line_num as int, self.end.line_index as int, width as nat));
                }
                line_num += 1;
            }
            let end_line_str = source.get_line(self.end.line_index);
            let end_number = usize_to_decimal(self.end.line_index + 1);
            push_line_block(
                &mut out,
                &end_number,
                end_line_str,
                width,
                '^',
                self.end.char_index,
                ' ',
                end_line_str.len() - self.end.char_index,
            );
            proof {
                assert(out@ =~= span_format(*self, source.path@, lines));
            }
        } else {
            proof {
                assert(out@ =~= span_format(*self, source.path@, lines));
            }
        }
        string_from_chars(&out)
    }
}

} // verus!
