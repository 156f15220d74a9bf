//! An indenting text writer and its mathematical model.
//!
//! The model of a writer is a [`WriterState`]: the text written so far, the
//! indentation that is put in front of every non-empty line, and whether the
//! next character starts a line.  Emitters are specified as a sequence of
//! [`Piece`]s that is [`run`] on the state of the writer.
use vstd::prelude::*;
use vstd::string::*;

verus! {

/// The abstract state of an [`IndentedWriter`].
pub struct WriterState {
    pub text: Seq<char>,
    pub indent: Seq<char>,
    pub at_line_start: bool,
}

/// One step of a document: some text, or a change of indentation.
pub enum Piece {
    Text(Seq<char>),
    Indent,
    Unindent,
}

/// One level of indentation: four spaces.
pub open spec fn indent_unit() -> Seq<char> {
    seq![' ', ' ', ' ', ' ']
}

/// The state of a fresh writer.
pub open spec fn empty_state() -> WriterState {
    WriterState { text: Seq::empty(), indent: Seq::empty(), at_line_start: true }
}

/// Writing one character: a newline ends the line; any other character that
/// starts a line is preceded by the current indentation.
pub open spec fn put_char(st: WriterState, c: char) -> WriterState {
    if c == '\n' {
        WriterState { text: st.text.push('\n'), indent: st.indent, at_line_start: true }
    } else if st.at_line_start {
        WriterState { text: (st.text + st.indent).push(c), indent: st.indent, at_line_start: false }
    } else {
        WriterState { text: st.text.push(c), indent: st.indent, at_line_start: false }
    }
}

/// Writing a string, one character after the other.
pub open spec fn put_str(st: WriterState, s: Seq<char>) -> WriterState
    decreases s.len(),
{
    if s.len() == 0 {
        st
    } else {
        put_char(put_str(st, s.drop_last()), s.last())
    }
}

/// The indentation after one level is removed (none is left when there is
/// less than one level).
pub open spec fn dedent(indent: Seq<char>) -> Seq<char> {
    if indent.len() >= 4 {
        indent.take(indent.len() - 4)
    } else {
        Seq::empty()
    }
}

/// Running one piece.
pub open spec fn step(st: WriterState, p: Piece) -> WriterState {
    match p {
        Piece::Text(s) => put_str(st, s),
        Piece::Indent => WriterState {
            text: st.text,
            indent: st.indent + indent_unit(),
            at_line_start: st.at_line_start,
        },
        Piece::Unindent => WriterState {
            text: st.text,
            indent: dedent(st.indent),
            at_line_start: st.at_line_start,
        },
    }
}

/// Running a document, piece after piece.
#[verifier::opaque]
pub open spec fn run(st: WriterState, doc: Seq<Piece>) -> WriterState
    decreases doc.len(),
{
    if doc.len() == 0 {
        st
    } else {
        step(run(st, doc.drop_last()), doc.last())
    }
}

/// A document made of one piece of text.
pub open spec fn txt(s: Seq<char>) -> Seq<Piece> {
    seq![Piece::Text(s)]
}

/// A document made of one line of text.
pub open spec fn line(s: Seq<char>) -> Seq<Piece> {
    seq![Piece::Text(s.push('\n'))]
}

/// Opening a block: `{`, a newline, one more level of indentation.
pub open spec fn open_block() -> Seq<Piece> {
    seq![Piece::Text(seq!['{', '\n']), Piece::Indent]
}

/// Opening a block whose first line goes on: `{` and one more level.
pub open spec fn open_block_inline() -> Seq<Piece> {
    seq![Piece::Text(seq!['{']), Piece::Indent]
}

/// Closing a block: one level less, `}` and a newline.
pub open spec fn close_block() -> Seq<Piece> {
    seq![Piece::Unindent, Piece::Text(seq!['}', '\n'])]
}

/// The decimal digit of `d` (for `d < 10`).
pub open spec fn digit(d: nat) -> char {
    ((48 + d) as u32) as char
}

/// The decimal representation of `n`, without leading zeros.
pub open spec fn decimal(n: nat) -> Seq<char>
    decreases n,
{
    if n < 10 {
        seq![digit(n)]
    } else {
        decimal(n / 10).push(digit(n % 10))
    }
}

/// Writing `a` and then `b` is writing `a + b`.
pub proof fn lemma_put_str_concat(st: WriterState, a: Seq<char>, b: Seq<char>)
    ensures
        put_str(st, a + b) == put_str(put_str(st, a), b),
    decreases b.len(),
{
    if b.len() == 0 {
        assert(a + b =~= a);
    } else {
        assert((a + b).drop_last() =~= a + b.drop_last());
        assert((a + b).last() == b.last());
        lemma_put_str_concat(st, a, b.drop_last());
    }
}

/// Running `a` and then `b` is running `a + b`.
pub proof fn lemma_run_concat(st: WriterState, a: Seq<Piece>, b: Seq<Piece>)
    ensures
        run(st, a + b) == run(run(st, a), b),
    decreases b.len(),
{
    reveal(run);
    if b.len() == 0 {
        assert(a + b =~= a);
    } else {
        assert((a + b).drop_last() =~= a + b.drop_last());
        assert((a + b).last() == b.last());
        lemma_run_concat(st, a, b.drop_last());
    }
}

/// Running nothing changes nothing.
pub proof fn lemma_run_empty(st: WriterState)
    ensures
        run(st, Seq::empty()) == st,
{
    reveal(run);
}

/// Running a single piece is one step.
pub proof fn lemma_run_one(st: WriterState, p: Piece)
    ensures
        run(st, seq![p]) == step(st, p),
{
    reveal(run);
    assert(seq![p].drop_last() =~= Seq::<Piece>::empty());
    assert(run(st, seq![p].drop_last()) == st);
}

/// Writing one more character.
pub proof fn lemma_put_str_push(st: WriterState, s: Seq<char>, c: char)
    ensures
        put_str(st, s.push(c)) == put_char(put_str(st, s), c),
{
    assert(s.push(c).drop_last() =~= s);
}

/// Writing a single character.
pub proof fn lemma_put_str_one(st: WriterState, c: char)
    ensures
        put_str(st, seq![c]) == put_char(st, c),
{
    assert(seq![c].drop_last() =~= Seq::<char>::empty());
    assert(put_str(st, seq![c].drop_last()) == st);
}

/// Writing two characters.
pub proof fn lemma_put_str_two(st: WriterState, c: char, d: char)
    ensures
        put_str(st, seq![c, d]) == put_char(put_char(st, c), d),
{
    assert(seq![c, d] =~= seq![c].push(d));
    lemma_put_str_push(st, seq![c], d);
    lemma_put_str_one(st, c);
}

/// Running one more piece.
pub proof fn lemma_run_push(st: WriterState, a: Seq<Piece>, p: Piece)
    ensures
        run(st, a.push(p)) == step(run(st, a), p),
{
    reveal(run);
    assert(a.push(p).drop_last() =~= a);
}

/// Writing any text leaves the indentation alone, and keeps what was there.
pub proof fn lemma_put_str_extends(st: WriterState, s: Seq<char>)
    ensures
        put_str(st, s).indent == st.indent,
        st.text.is_prefix_of(put_str(st, s).text),
        s.len() > 0 ==> put_str(st, s).at_line_start == (s.last() == '\n'),
        s.len() == 0 ==> put_str(st, s) == st,
    decreases s.len(),
{
    if s.len() > 0 {
        lemma_put_str_extends(st, s.drop_last());
        let mid = put_str(st, s.drop_last());
        assert(mid.text.is_prefix_of(put_str(st, s).text)) by {
            if s.last() != '\n' && mid.at_line_start {
                assert((mid.text + mid.indent).push(s.last()).take(mid.text.len() as int)
                    =~= mid.text);
            } else {
                assert(mid.text.push(s.last()).take(mid.text.len() as int) =~= mid.text);
            }
        }
    }
}

/// Writes `c` at the end of `s`.
///
/// Trusted: calls `String::push`, whose documentation says that it appends
/// the given char to the end of the string.
#[verifier::external_body]
fn push_char(s: &mut String, c: char)
    ensures
        final(s)@ == old(s)@.push(c),
{
    s.push(c)
}

/// The decimal representation of `n` as a string.
pub fn decimal_string(n: u64) -> (s: String)
    ensures
        s@ == decimal(n as nat),
    decreases n,
{
    let mut s = if n >= 10 {
        decimal_string(n / 10)
    } else {
        String::new()
    };
    let d = (n % 10) as u8;
    let c = (48u8 + d) as char;
    assert(c == digit((n % 10) as nat));
    push_char(&mut s, c);
    proof {
        if n < 10 {
            assert(s@ =~= seq![c]);
        }
    }
    s
}

/// `a` followed by `b`, as a new string.
pub fn joined(a: &str, b: &str) -> (s: String)
    ensures
        s@ == a@ + b@,
{
    let mut s = a.to_owned();
    s.append(b);
    s
}

/// A text writer that indents every non-empty line by the current
/// indentation, four spaces a level.
pub struct IndentedWriter {
    out: String,
    indent: String,
    at_line_start: bool,
}

impl View for IndentedWriter {
    type V = WriterState;

    closed spec fn view(&self) -> WriterState {
        WriterState { text: self.out@, indent: self.indent@, at_line_start: self.at_line_start }
    }
}

impl IndentedWriter {
    /// A writer with no text and no indentation.
    pub fn new() -> (w: Self)
        ensures
            w@ == empty_state(),
    {
        let w = IndentedWriter { out: String::new(), indent: String::new(), at_line_start: true };
        assert(w@ == empty_state());
        w
    }

    /// The text written so far.
    pub fn as_str(&self) -> (s: &str)
        ensures
            s@ == self@.text,
    {
        self.out.as_str()
    }

    /// The text written, taking the writer.
    pub fn into_string(self) -> (s: String)
        ensures
            s@ == self@.text,
    {
        self.out
    }

    /// Writes one character.
    pub fn write_char(&mut self, c: char)
        ensures
            final(self)@ == put_char(old(self)@, c),
    {
        if c == '\n' {
            push_char(&mut self.out, '\n');
            self.at_line_start = true;
        } else {
            if self.at_line_start {
                self.out.append(self.indent.as_str());
                self.at_line_start = false;
            }
            push_char(&mut self.out, c);
        }
    }

    /// Writes a string.
    pub fn write_str(&mut self, s: &str)
        ensures
            final(self)@ == put_str(old(self)@, s@),
    {
        let n = s.unicode_len();
        let mut i: usize = 0;
        while i < n
            invariant
                n == s@.len(),
                0 <= i <= n,
                self@ == put_str(old(self)@, s@.take(i as int)),
            decreases n - i,
        {
            let c = s.get_char(i);
            self.write_char(c);
            assert(s@.take(i + 1).drop_last() =~= s@.take(i as int));
            i = i + 1;
        }
        assert(s@.take(n as int) =~= s@);
    }

    /// Writes a string followed by a newline.
    pub fn write_line(&mut self, s: &str)
        ensures
            final(self)@ == run(old(self)@, line(s@)),
    {
        self.write_str(s);
        self.write_char('\n');
        proof {
            lemma_run_one(old(self)@, Piece::Text(s@.push('\n')));
            lemma_put_str_push(old(self)@, s@, '\n');
        }
    }

    /// Writes a string as a document of one piece.
    pub fn write_txt(&mut self, s: &str)
        ensures
            final(self)@ == run(old(self)@, txt(s@)),
    {
        self.write_str(s);
        proof {
            lemma_run_one(old(self)@, Piece::Text(s@));
        }
    }

    /// Writes three strings one after the other.
    pub fn write3(&mut self, a: &str, b: &str, c: &str)
        ensures
            final(self)@ == run(old(self)@, txt(a@ + b@ + c@)),
    {
        self.write_str(a);
        self.write_str(b);
        self.write_str(c);
        proof {
            let st = old(self)@;
            lemma_put_str_concat(st, a@, b@);
            lemma_put_str_concat(st, a@ + b@, c@);
            lemma_run_one(st, Piece::Text(a@ + b@ + c@));
        }
    }

    /// Writes three strings and ends the line.
    pub fn write3_line(&mut self, a: &str, b: &str, c: &str)
        ensures
            final(self)@ == run(old(self)@, line(a@ + b@ + c@)),
    {
        self.write3(a, b, c);
        self.write_char('\n');
        proof {
            let st = old(self)@;
            lemma_run_one(st, Piece::Text(a@ + b@ + c@));
            lemma_put_str_push(st, a@ + b@ + c@, '\n');
            lemma_run_one(st, Piece::Text((a@ + b@ + c@).push('\n')));
        }
    }

    /// Ends the current line, as a document.
    pub fn end_line(&mut self)
        ensures
            final(self)@ == run(old(self)@, txt(seq!['\n'])),
    {
        self.write_char('\n');
        proof {
            lemma_put_str_one(old(self)@, '\n');
            lemma_run_one(old(self)@, Piece::Text(seq!['\n']));
        }
    }

    /// Writes a number in decimal.
    pub fn write_decimal(&mut self, n: u64)
        ensures
            final(self)@ == put_str(old(self)@, decimal(n as nat)),
        decreases n,
    {
        if n >= 10 {
            self.write_decimal(n / 10);
        }
        let d = (n % 10) as u8;
        let c = (48u8 + d) as char;
        assert(c == digit((n % 10) as nat));
        self.write_char(c);
        proof {
            if n >= 10 {
                lemma_put_str_push(old(self)@, decimal((n / 10) as nat), c);
            } else {
                lemma_put_str_one(old(self)@, c);
            }
        }
    }

    /// One more level of indentation.
    pub fn indent(&mut self)
        ensures
            final(self)@ == run(old(self)@, seq![Piece::Indent]),
    {
        self.indent.append("    ");
        proof {
            reveal_strlit("    ");
            assert("    "@ =~= indent_unit());
            lemma_run_one(old(self)@, Piece::Indent);
        }
    }

    /// One level of indentation less.
    pub fn unindent(&mut self)
        ensures
            final(self)@ == run(old(self)@, seq![Piece::Unindent]),
    {
        proof {
            lemma_run_one(old(self)@, Piece::Unindent);
        }
        let n = self.indent.as_str().unicode_len();
        if n >= 4 {
            let kept = self.indent.as_str().substring_char(0, n - 4).to_owned();
            self.indent = kept;
        } else {
            self.indent = String::new();
        }
    }

    /// Opens a block: writes `{`, ends the line and indents.
    pub fn start_block(&mut self)
        ensures
            final(self)@ == run(old(self)@, open_block()),
    {
        self.write_char('{');
        self.write_char('\n');
        self.indent();
        proof {
            let st = old(self)@;
            lemma_put_str_two(st, '{', '\n');
            assert(open_block() =~= seq![Piece::Text(seq!['{', '\n'])].push(Piece::Indent));
            lemma_run_push(st, seq![Piece::Text(seq!['{', '\n'])], Piece::Indent);
            lemma_run_one(st, Piece::Text(seq!['{', '\n']));
            lemma_run_one(put_str(st, seq!['{', '\n']), Piece::Indent);
        }
    }

    /// Opens a block whose first line goes on: writes `{` and indents.
    pub fn start_block_no_newline(&mut self)
        ensures
            final(self)@ == run(old(self)@, open_block_inline()),
    {
        self.write_char('{');
        self.indent();
        proof {
            let st = old(self)@;
            lemma_put_str_one(st, '{');
            assert(open_block_inline() =~= seq![Piece::Text(seq!['{'])].push(Piece::Indent));
            lemma_run_push(st, seq![Piece::Text(seq!['{'])], Piece::Indent);
            lemma_run_one(st, Piece::Text(seq!['{']));
            lemma_run_one(put_str(st, seq!['{']), Piece::Indent);
        }
    }

    /// Closes a block: unindents, writes `}` and ends the line.
    pub fn end_block(&mut self)
        ensures
            final(self)@ == run(old(self)@, close_block()),
    {
        self.unindent();
        self.write_char('}');
        self.write_char('\n');
        proof {
            let st = old(self)@;
            let mid = step(st, Piece::Unindent);
            lemma_put_str_two(mid, '}', '\n');
            assert(close_block() =~= seq![Piece::Unindent].push(Piece::Text(seq!['}', '\n'])));
            lemma_run_push(st, seq![Piece::Unindent], Piece::Text(seq!['}', '\n']));
            lemma_run_one(st, Piece::Unindent);
        }
    }

    /// Writes an empty block, `{}`, and ends the line.
    pub fn empty_block(&mut self)
        ensures
            final(self)@ == run(old(self)@, txt("{}\n"@)),
    {
        self.write_txt("{}\n");
    }
}

} // verus!
