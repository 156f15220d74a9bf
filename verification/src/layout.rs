//! The text that a document gives on a fresh writer, and how the same
//! document reads when it is written at a deeper indentation or after other
//! text.
use vstd::prelude::*;

use crate::laws::{blank_like, ends_line, keeps_indent, law_output_independent_of_prior_text};
use crate::text::{
    dedent, empty_state, indent_unit, lemma_put_str_concat, lemma_put_str_extends,
    lemma_put_str_one, lemma_put_str_push, lemma_run_concat, lemma_run_empty, lemma_run_one,
    lemma_run_push, put_char, put_str, run, step, Piece, WriterState,
};

verus! {

/// The text that a fresh writer holds after running `d`.
pub open spec fn fresh_text(d: Seq<Piece>) -> Seq<char> {
    run(empty_state(), d).text
}

/// `s` with `pad` in front of every line that is not empty.
pub open spec fn shifted(pad: Seq<char>, s: Seq<char>) -> Seq<char>
    decreases s.len(),
{
    if s.len() == 0 {
        Seq::empty()
    } else if s.last() != '\n' && (s.drop_last().len() == 0 || s.drop_last().last() == '\n') {
        shifted(pad, s.drop_last()) + pad + seq![s.last()]
    } else {
        shifted(pad, s.drop_last()).push(s.last())
    }
}

/// No character of `s` ends a line.
pub open spec fn one_line(s: Seq<char>) -> bool {
    forall|i: int| 0 <= i < s.len() ==> s[i] != '\n'
}

/// `d` begins with some text.
pub open spec fn starts_with_text(d: Seq<Piece>) -> bool {
    d.len() > 0 && (d[0] matches Piece::Text(s) && s.len() > 0)
}

/// Running `d` from `st` never takes away a level of indentation that is
/// not there.
pub open spec fn clamp_free(st: WriterState, d: Seq<Piece>) -> bool {
    forall|k: int|
        #![trigger d[k]]
        0 <= k < d.len() && d[k] == Piece::Unindent ==> run(st, d.take(k)).indent.len() >= 4
}

/// A line that starts after the end of `t` is shifted as a whole.
proof fn lemma_shifted_start(pad: Seq<char>, t: Seq<char>, w: Seq<char>)
    requires
        t.len() == 0 || t.last() == '\n',
        w.len() > 0,
        one_line(w),
    ensures
        shifted(pad, t + w) == shifted(pad, t) + pad + w,
    decreases w.len(),
{
    if w.len() == 1 {
        assert((t + w).drop_last() =~= t);
        assert(shifted(pad, t) + pad + seq![w[0]] =~= shifted(pad, t) + pad + w);
    } else {
        lemma_shifted_start(pad, t, w.drop_last());
        assert((t + w).drop_last() =~= t + w.drop_last());
        assert((t + w.drop_last()).last() == w[w.len() - 2]);
        assert((shifted(pad, t) + pad + w.drop_last()).push(w.last()) =~= shifted(pad, t) + pad
            + w);
    }
}

/// `a` is `b` written at the indentation `pad`.
pub open spec fn deeper(pad: Seq<char>, a: WriterState, b: WriterState) -> bool {
    &&& a.indent == pad + b.indent
    &&& a.at_line_start == b.at_line_start
    &&& a.text == shifted(pad, b.text)
    &&& b.at_line_start == (b.text.len() == 0 || b.text.last() == '\n')
    &&& one_line(b.indent)
}

proof fn lemma_deeper_char(pad: Seq<char>, a: WriterState, b: WriterState, c: char)
    requires
        deeper(pad, a, b),
    ensures
        deeper(pad, put_char(a, c), put_char(b, c)),
{
    let a1 = put_char(a, c);
    let b1 = put_char(b, c);
    assert(b1.text.drop_last() == (if c != '\n' && b.at_line_start {
        b.text + b.indent
    } else {
        b.text
    })) by {
        if c != '\n' && b.at_line_start {
            assert((b.text + b.indent).push(c).drop_last() =~= b.text + b.indent);
        } else {
            assert(b.text.push(c).drop_last() =~= b.text);
        }
    }
    if c == '\n' {
        assert(b1.text.drop_last() =~= b.text);
    } else if b.at_line_start {
        lemma_shifted_start(pad, b.text, b.indent.push(c));
        assert(b.text + b.indent.push(c) =~= (b.text + b.indent).push(c));
        assert(a1.text =~= shifted(pad, b.text) + pad + b.indent.push(c));
    } else {
        assert(b1.text.drop_last() =~= b.text);
    }
}

proof fn lemma_deeper_str(pad: Seq<char>, a: WriterState, b: WriterState, s: Seq<char>)
    requires
        deeper(pad, a, b),
    ensures
        deeper(pad, put_str(a, s), put_str(b, s)),
    decreases s.len(),
{
    if s.len() > 0 {
        lemma_deeper_str(pad, a, b, s.drop_last());
        lemma_deeper_char(pad, put_str(a, s.drop_last()), put_str(b, s.drop_last()), s.last());
    }
}

proof fn lemma_deeper_step(pad: Seq<char>, a: WriterState, b: WriterState, p: Piece)
    requires
        deeper(pad, a, b),
        p == Piece::Unindent ==> b.indent.len() >= 4,
    ensures
        deeper(pad, step(a, p), step(b, p)),
{
    match p {
        Piece::Text(s) => lemma_deeper_str(pad, a, b, s),
        Piece::Indent => {
            assert(pad + b.indent + indent_unit() =~= pad + (b.indent + indent_unit()));
        },
        Piece::Unindent => {
            assert(dedent(pad + b.indent) =~= pad + dedent(b.indent));
        },
    }
}

proof fn lemma_deeper_run(pad: Seq<char>, d: Seq<Piece>, k: int)
    requires
        clamp_free(empty_state(), d),
        0 <= k <= d.len(),
    ensures
        deeper(
            pad,
            run(WriterState { text: Seq::empty(), indent: pad, at_line_start: true }, d.take(k)),
            run(empty_state(), d.take(k)),
        ),
    decreases k,
{
    let a0 = WriterState { text: Seq::empty(), indent: pad, at_line_start: true };
    if k == 0 {
        assert(d.take(0) =~= Seq::<Piece>::empty());
        lemma_run_empty(a0);
        lemma_run_empty(empty_state());
        assert(pad + Seq::<char>::empty() =~= pad);
    } else {
        lemma_deeper_run(pad, d, k - 1);
        assert(d.take(k) =~= d.take(k - 1).push(d[k - 1]));
        lemma_run_push(a0, d.take(k - 1), d[k - 1]);
        lemma_run_push(empty_state(), d.take(k - 1), d[k - 1]);
        lemma_deeper_step(
            pad,
            run(a0, d.take(k - 1)),
            run(empty_state(), d.take(k - 1)),
            d[k - 1],
        );
    }
}

/// The length of the indentation after one more piece.
proof fn lemma_step_indent_len(st: WriterState, p: Piece)
    ensures
        step(st, p).indent.len() == match p {
            Piece::Text(_) => st.indent.len() as int,
            Piece::Indent => st.indent.len() + 4int,
            Piece::Unindent => if st.indent.len() >= 4 {
                st.indent.len() - 4int
            } else {
                0int
            },
        },
{
    if let Piece::Text(s) = p {
        lemma_put_str_extends(st, s);
    }
}

/// From a state `4 * d.len()` spaces deep and from a state with no
/// indentation, the difference of the indentations only shrinks, and it
/// shrinks where the shallow run takes away a level that is not there.
proof fn lemma_depths(d: Seq<Piece>, deep: WriterState, flat: WriterState, k: int)
    requires
        deep.indent.len() == 4 * d.len(),
        flat.indent.len() == 0,
        0 <= k <= d.len(),
    ensures
        run(deep, d.take(k)).indent.len() >= 4 * (d.len() - k),
        run(deep, d.take(k)).indent.len() - run(flat, d.take(k)).indent.len() <= 4 * d.len(),
        (forall|j: int|
            #![trigger d[j]]
            0 <= j < k && d[j] == Piece::Unindent ==> run(flat, d.take(j)).indent.len() >= 4) || run(
            deep,
            d.take(k),
        ).indent.len() - run(flat, d.take(k)).indent.len() < 4 * d.len(),
    decreases k,
{
    if k == 0 {
        assert(d.take(0) =~= Seq::<Piece>::empty());
        lemma_run_empty(deep);
        lemma_run_empty(flat);
    } else {
        lemma_depths(d, deep, flat, k - 1);
        assert(d.take(k) =~= d.take(k - 1).push(d[k - 1]));
        lemma_run_push(deep, d.take(k - 1), d[k - 1]);
        lemma_run_push(flat, d.take(k - 1), d[k - 1]);
        lemma_step_indent_len(run(deep, d.take(k - 1)), d[k - 1]);
        lemma_step_indent_len(run(flat, d.take(k - 1)), d[k - 1]);
    }
}

/// A document that leaves the indentation as it found it never takes away a
/// level that is not there.
pub proof fn lemma_keeps_clamp_free(d: Seq<Piece>)
    requires
        keeps_indent(d),
    ensures
        clamp_free(empty_state(), d),
{
    let n = d.len();
    let deep = WriterState {
        text: Seq::empty(),
        indent: Seq::new((4 * n) as nat, |i: int| ' '),
        at_line_start: true,
    };
    lemma_depths(d, deep, empty_state(), n as int);
    assert(d.take(n as int) =~= d);
    assert(run(deep, d).indent == deep.indent);
    assert(run(empty_state(), d).indent == empty_state().indent);
    assert forall|k: int|
        #![trigger d[k]]
        0 <= k < d.len() && d[k] == Piece::Unindent implies run(
            empty_state(),
            d.take(k),
        ).indent.len() >= 4 by {
        lemma_depths(d, deep, empty_state(), n as int);
    }
}

/// Law: a balanced document written at the start of a line, at any
/// indentation, adds its text on a fresh writer with that indentation in
/// front of every line that is not empty.
pub proof fn law_text_at_depth(st: WriterState, d: Seq<Piece>)
    requires
        keeps_indent(d),
        st.at_line_start,
    ensures
        run(st, d).text == st.text + shifted(st.indent, fresh_text(d)),
{
    law_output_independent_of_prior_text(st, d);
    lemma_keeps_clamp_free(d);
    lemma_deeper_run(st.indent, d, d.len() as int);
    assert(d.take(d.len() as int) =~= d);
    assert(blank_like(st) == WriterState {
        text: Seq::empty(),
        indent: st.indent,
        at_line_start: true,
    });
}

/// Writing a first character with no indentation does not depend on
/// whether a line has begun.
pub(crate) proof fn lemma_line_start_irrelevant(t: Seq<char>, d: Seq<Piece>, ls: bool)
    requires
        starts_with_text(d),
    ensures
        run(WriterState { text: t, indent: Seq::empty(), at_line_start: ls }, d) == run(
            WriterState { text: t, indent: Seq::empty(), at_line_start: true },
            d,
        ),
{
    let x = WriterState { text: t, indent: Seq::empty(), at_line_start: ls };
    let y = WriterState { text: t, indent: Seq::empty(), at_line_start: true };
    let s = match d[0] {
        Piece::Text(s) => s,
        _ => Seq::empty(),
    };
    assert(d =~= seq![d[0]] + d.drop_first());
    lemma_run_concat(x, seq![d[0]], d.drop_first());
    lemma_run_concat(y, seq![d[0]], d.drop_first());
    lemma_run_one(x, d[0]);
    lemma_run_one(y, d[0]);
    assert(s =~= seq![s[0]] + s.drop_first());
    lemma_put_str_concat(x, seq![s[0]], s.drop_first());
    lemma_put_str_concat(y, seq![s[0]], s.drop_first());
    lemma_put_str_one(x, s[0]);
    lemma_put_str_one(y, s[0]);
    assert(t + Seq::<char>::empty() =~= t);
    assert(put_char(x, s[0]) == put_char(y, s[0]));
}

/// On a fresh writer, a balanced document followed by another gives the
/// texts of the two one after the other, when the first ends its line or
/// the second begins with text.
pub proof fn lemma_fresh_concat(a: Seq<Piece>, b: Seq<Piece>)
    requires
        keeps_indent(a),
        ends_line(a) || starts_with_text(b),
    ensures
        fresh_text(a + b) == fresh_text(a) + fresh_text(b),
{
    lemma_run_concat(empty_state(), a, b);
    let mid = run(empty_state(), a);
    assert(mid.indent == empty_state().indent);
    law_output_independent_of_prior_text(mid, b);
    let blank = blank_like(mid);
    if !ends_line(a) {
        lemma_line_start_irrelevant(Seq::empty(), b, mid.at_line_start);
    } else {
        assert(mid.at_line_start);
    }
    assert(blank == empty_state() || run(blank, b) == run(empty_state(), b));
}

/// Text of a single piece on a fresh writer, and of a line.
pub proof fn lemma_fresh_put_str(st: WriterState, s: Seq<char>)
    requires
        st.indent.len() == 0,
    ensures
        put_str(st, s).text == st.text + s,
        put_str(st, s).indent.len() == 0,
    decreases s.len(),
{
    if s.len() == 0 {
        assert(st.text + s =~= st.text);
    } else {
        lemma_fresh_put_str(st, s.drop_last());
        let m = put_str(st, s.drop_last());
        assert(m.text + m.indent =~= m.text);
        assert((st.text + s.drop_last()).push(s.last()) =~= st.text + s);
    }
}

/// The text ends with the last text piece when that ends a line.
pub proof fn lemma_text_ends_with(st: WriterState, a: Seq<Piece>, s: Seq<char>)
    requires
        s.len() > 0,
        s.last() == '\n',
    ensures
        run(st, a + seq![Piece::Text(s)]).text.len() >= s.len(),
        run(st, a + seq![Piece::Text(s)]).text.last() == '\n',
        run(st, a + seq![Piece::Text(s)]).at_line_start,
{
    lemma_run_concat(st, a, seq![Piece::Text(s)]);
    lemma_run_one(run(st, a), Piece::Text(s));
    lemma_put_str_push(run(st, a), s.drop_last(), '\n');
    assert(s.drop_last().push('\n') =~= s);
    lemma_put_str_len(run(st, a), s);
}

/// Writing adds at least as many characters as it is given.
proof fn lemma_put_str_len(st: WriterState, s: Seq<char>)
    ensures
        put_str(st, s).text.len() >= st.text.len() + s.len(),
    decreases s.len(),
{
    if s.len() > 0 {
        lemma_put_str_len(st, s.drop_last());
    }
}

} // verus!

verus! {

/// Two pieces of text without line breaks make one.
pub proof fn lemma_one_line_concat(a: Seq<char>, b: Seq<char>)
    requires
        one_line(a),
        one_line(b),
    ensures
        one_line(a + b),
{
    assert forall|i: int| 0 <= i < (a + b).len() implies (a + b)[i] != '\n' by {
        if i < a.len() {
            assert((a + b)[i] == a[i]);
        } else {
            assert((a + b)[i] == b[i - a.len()]);
        }
    }
}

/// A number has no line break.
pub proof fn lemma_decimal_one_line(n: nat)
    ensures
        one_line(crate::text::decimal(n)),
    decreases n,
{
    let d = crate::text::digit(n % 10);
    assert(d != '\n') by {
        assert(((48 + n % 10) as u32) as char != '\n');
    }
    if n >= 10 {
        lemma_decimal_one_line(n / 10);
    }
}

} // verus!
