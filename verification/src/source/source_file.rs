use vstd::prelude::*;
use crate::text::{str_to_chars, string_from_chars};

verus! {

/// Index of the first line feed in `s`, or the length of `s` if it has none.
pub open spec fn first_newline(s: Seq<char>) -> nat
    decreases s.len(),
{
    if s.len() == 0 {
        0
    } else if s[0] == '\n' {
        0
    } else {
        1 + first_newline(s.drop_first())
    }
}

/// A line without its carriage return, if it ends in one.
pub open spec fn strip_carriage_return(line: Seq<char>) -> Seq<char> {
    if line.len() > 0 && line.last() == '\r' {
        line.drop_last()
    } else {
        line
    }
}

/// The lines of a text: the pieces between line feeds, each without a final
/// carriage return. A line feed at the very end starts no further line, and an
/// empty text has no line.
pub open spec fn split_lines(s: Seq<char>) -> Seq<Seq<char>>
    decreases s.len(),
{
    if s.len() == 0 {
        Seq::empty()
    } else {
        let k = first_newline(s);
        let line = strip_carriage_return(s.subrange(0, k as int));
        if k < s.len() {
            seq![line] + split_lines(s.subrange((k + 1) as int, s.len() as int))
        } else {
            seq![line]
        }
    }
}

proof fn lemma_first_newline(s: Seq<char>)
    ensures
        first_newline(s) <= s.len(),
        first_newline(s) < s.len() ==> s[first_newline(s) as int] == '\n',
        forall|j: int| 0 <= j < first_newline(s) ==> s[j] != '\n',
    decreases s.len(),
{
    if s.len() > 0 && s[0] != '\n' {
        lemma_first_newline(s.drop_first());
        assert forall|j: int| 0 <= j < first_newline(s) implies s[j] != '\n' by {
            if j > 0 {
                assert(s[j] == s.drop_first()[j - 1]);
            }
        }
    }
}

proof fn lemma_first_newline_is(s: Seq<char>, k: nat)
    requires
        k <= s.len(),
        k < s.len() ==> s[k as int] == '\n',
        forall|j: int| 0 <= j < k ==> s[j] != '\n',
    ensures
        first_newline(s) == k,
    decreases s.len(),
{
    if s.len() > 0 && k > 0 {
        assert(s[0] != '\n');
        let t = s.drop_first();
        assert forall|j: int| 0 <= j < k - 1 implies t[j] != '\n' by {
            assert(t[j] == s[j + 1]);
        }
        lemma_first_newline_is(t, (k - 1) as nat);
    }
}

/// A source file: its path and its lines.
#[derive(Debug)]
pub struct SourceFile {
    pub path: String,
    pub lines: Vec<String>,
}

impl SourceFile {
    /// The lines of the file as character sequences.
    pub open spec fn lines_view(&self) -> Seq<Seq<char>> {
        Seq::new(self.lines@.len(), |i: int| self.lines@[i]@)
    }

    /// A source file with the given path whose lines are those of `text`.
    pub fn from_text(path: &str, text: &str) -> (r: SourceFile)
        ensures
            r.path@ == path@,
            r.lines_view() == split_lines(text@),
    {
        let chars = str_to_chars(text);
        let n = chars.len();
        let mut lines: Vec<String> = Vec::new();
        let mut pos: usize = 0;
        let ghost s = chars@;
        assert(s.subrange(0, n as int) =~= s);
        assert(Seq::new(lines@.len(), |i: int| lines@[i]@) =~= Seq::<Seq<char>>::empty());
        assert(Seq::<Seq<char>>::empty() + split_lines(s) =~= split_lines(s));
        while pos < n
            invariant
                n == s.len(),
                s == chars@,
                s == text@,
                pos <= n,
                Seq::new(lines@.len(), |i: int| lines@[i]@) + split_lines(s.subrange(pos as int, n as int))
                    == split_lines(s),
            decreases n - pos,
        {
            let ghost rest = s.subrange(pos as int, n as int);
            let mut end = pos;
            while end < n && chars[end] != '\n'
                invariant
                    pos <= end <= n,
                    n == chars@.len(),
                    forall|j: int| pos <= j < end ==> chars@[j] != '\n',
                decreases n - end,
            {
                end += 1;
            }
            let mut line_end = end;
            if line_end > pos && chars[line_end - 1] == '\r' {
                line_end -= 1;
            }
            let mut line_chars: Vec<char> = Vec::new();
            let mut i = pos;
            while i < line_end
                invariant
                    pos <= i <= line_end <= n,
                    n == chars@.len(),
                    line_chars@ == chars@.subrange(pos as int, i as int),
                decreases line_end - i,
            {
                line_chars.push(chars[i]);
                i += 1;
                assert(line_chars@ =~= chars@.subrange(pos as int, i as int));
            }
            proof {
                let k = (end - pos) as nat;
                assert forall|j: int| 0 <= j < k implies rest[j] != '\n' by {
                    assert(rest[j] == s[pos + j]);
                }
                if end < n {
                    assert(rest[k as int] == s[end as int]);
                }
                lemma_first_newline_is(rest, k);
                assert(rest.subrange(0, k as int) =~= s.subrange(pos as int, end as int));
                assert(strip_carriage_return(rest.subrange(0, k as int)) =~= line_chars@);
                if end < n {
                    assert(rest.subrange((k + 1) as int, rest.len() as int) =~= s.subrange(end + 1, n as int));
                }
            }
            let line = string_from_chars(&line_chars);
            let ghost old_lines = Seq::new(lines@.len(), |i: int| lines@[i]@);
            lines.push(line);
            assert(Seq::new(lines@.len(), |i: int| lines@[i]@) =~= old_lines.push(line_chars@));
            if end < n {
                pos = end + 1;
            } else {
                pos = n;
                assert(s.subrange(pos as int, n as int) =~= Seq::<char>::empty());
            }
            proof {
                assert(split_lines(rest) == seq![line_chars@] + split_lines(s.subrange(pos as int, n as int)));
                assert(old_lines.push(line_chars@) + split_lines(s.subrange(pos as int, n as int))
                    =~= old_lines + split_lines(rest));
            }
        }
        assert(s.subrange(pos as int, n as int) =~= Seq::<char>::empty());
        assert(split_lines(Seq::<char>::empty()) =~= Seq::<Seq<char>>::empty());
        assert(Seq::new(lines@.len(), |i: int| lines@[i]@) + Seq::<Seq<char>>::empty()
            =~= Seq::new(lines@.len(), |i: int| lines@[i]@));
        SourceFile { path: string_from_chars(&str_to_chars(path)), lines }
    }

    /// The line with the given index.
    pub fn get_line(&self, line_index: usize) -> (r: &str)
        requires
            line_index < self.lines@.len(),
        ensures
            r@ == self.lines_view()[line_index as int],
    {
        self.lines[line_index].as_str()
    }

    /// The path of the file as it is displayed in messages.
    pub fn path_display(&self) -> (r: &str)
        ensures
            r@ == self.path@,
    {
        self.path.as_str()
    }

    /// Number of lines.
    pub fn line_count(&self) -> (r: usize)
        ensures
            r == self.lines@.len(),
    {
        self.lines.len()
    }
}

} // verus!
