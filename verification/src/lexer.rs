//! Splitting script lines into tokens.
use vstd::prelude::*;

use crate::error::WemError;
use crate::structure::texts;
use crate::text::{chars_of, contains_char, has_char, push_char, string_of, trim, trim_text};

verus! {

/// The characters that stand as tokens of their own outside quotes.
pub open spec fn is_special(c: char) -> bool {
    c == '"' || c == ':' || c == '{' || c == '}' || c == '(' || c == ')' || c == '='
}

/// State of the first pass: finished segments, the segment being read,
/// whether a quote is open, and whether a backslash escape is pending.
pub struct LexState {
    pub done: Seq<Seq<char>>,
    pub cur: Seq<char>,
    pub dq: bool,
    pub esc: bool,
}

pub open spec fn lex_start() -> LexState {
    LexState { done: Seq::empty(), cur: Seq::empty(), dq: false, esc: false }
}

/// The segment `cur` is closed and `c` stands as a segment of its own.
pub open spec fn split_at(st: LexState, c: char, dq: bool) -> LexState {
    LexState { done: st.done.push(st.cur).push(seq![c]), cur: Seq::empty(), dq: dq, esc: st.esc }
}

/// The escaped quote sequence that replaces `\"`.
pub open spec fn dq_card() -> Seq<char> {
    seq!['%', 'D', 'Q', '%']
}

/// Reads one character.
pub open spec fn lex_char(st: LexState, c: char) -> LexState {
    let dq = if c == '"' && !st.esc { !st.dq } else { st.dq };
    let st1 = if is_special(c) && !dq && !st.esc {
        split_at(st, c, dq)
    } else if c == '"' && st.esc {
        LexState {
            cur: (if st.cur.len() > 0 { st.cur.drop_last() } else { st.cur }) + dq_card(),
            dq: dq,
            esc: false,
            ..st
        }
    } else if c == '"' && dq && !st.esc {
        split_at(st, c, dq)
    } else {
        LexState { cur: st.cur.push(c), dq: dq, ..st }
    };
    if c == '\\' {
        LexState { esc: true, ..st1 }
    } else {
        st1
    }
}

/// Reads the characters of `s` in order.
pub open spec fn lex_chars(st: LexState, s: Seq<char>) -> LexState
    decreases s.len(),
{
    if s.len() == 0 {
        st
    } else {
        lex_char(lex_chars(st, s.drop_last()), s.last())
    }
}

/// Reads the lines in order; each line ends the segment being read.
pub open spec fn lex_lines(lines: Seq<Seq<char>>) -> LexState
    decreases lines.len(),
{
    if lines.len() == 0 {
        lex_start()
    } else {
        let st = lex_chars(lex_lines(lines.drop_last()), lines.last());
        LexState { done: st.done.push(st.cur), cur: Seq::empty(), ..st }
    }
}

/// The segments of the first pass.
pub open spec fn segments(lines: Seq<Seq<char>>) -> Seq<Seq<char>> {
    let st = lex_lines(lines);
    st.done.push(st.cur)
}

/// State of the second pass: whether a quote is open, and the tokens so far.
pub open spec fn select(segs: Seq<Seq<char>>) -> (bool, Seq<Seq<char>>)
    decreases segs.len(),
{
    if segs.len() == 0 {
        (false, seq![Seq::<char>::empty()])
    } else {
        let (dq0, out) = select(segs.drop_last());
        let seg = segs.last();
        let dq = if has_char(seg, '"') { !dq0 } else { dq0 };
        if trim(seg) != Seq::<char>::empty() && !dq {
            (dq, out.push(trim(seg)))
        } else if dq {
            (dq, out.push(seg))
        } else {
            (dq, out)
        }
    }
}

/// The tokens of a script given by its lines.
pub open spec fn lexed(lines: Seq<Seq<char>>) -> Seq<Seq<char>> {
    select(segments(lines)).1
}


/// The abstract first-pass state of the exec variables.
pub open spec fn lex_view(done: Seq<String>, cur: Seq<char>, dq: bool, esc: bool) -> LexState {
    LexState { done: texts(done), cur: cur, dq: dq, esc: esc }
}

fn special_char(c: char) -> (r: bool)
    ensures
        r == is_special(c),
{
    c == '"' || c == ':' || c == '{' || c == '}' || c == '(' || c == ')' || c == '='
}

fn close_segment(done: &mut Vec<String>, cur: &mut Vec<char>)
    ensures
        texts(final(done)@) == texts(old(done)@).push(old(cur)@),
        final(cur)@ == Seq::<char>::empty(),
{
    let s = string_of(cur);
    done.push(s);
    *cur = Vec::new();
    assert(texts(done@) =~= texts(old(done)@).push(old(cur)@));
}

fn lex_char_exec(done: &mut Vec<String>, cur: &mut Vec<char>, dq: &mut bool, esc: &mut bool, c: char)
    ensures
        lex_view(final(done)@, final(cur)@, *final(dq), *final(esc)) == lex_char(
            lex_view(old(done)@, old(cur)@, *old(dq), *old(esc)),
            c,
        ),
{
    let ghost st = lex_view(done@, cur@, *dq, *esc);
    if c == '"' && !*esc {
        *dq = !*dq;
    }
    if (special_char(c) && !*dq && !*esc) || (c == '"' && !*esc && *dq) {
        close_segment(done, cur);
        cur.push(c);
        close_segment(done, cur);
        assert(cur@ =~= Seq::<char>::empty());
        assert(seq![c] =~= Seq::<char>::empty().push(c));
    } else if c == '"' && *esc {
        if cur.len() > 0 {
            cur.pop();
        }
        cur.push('%');
        cur.push('D');
        cur.push('Q');
        cur.push('%');
        *esc = false;
        assert(cur@ =~= (if st.cur.len() > 0 { st.cur.drop_last() } else { st.cur }) + dq_card());
    } else {
        cur.push(c);
    }
    if c == '\\' {
        *esc = true;
    }
    assert(lex_view(done@, cur@, *dq, *esc) == lex_char(st, c));
}

/// Splits script lines into tokens.
///
/// Outside quotes, the characters `" : { } ( ) =` stand as tokens of their
/// own, and the text between them is trimmed, blank pieces being dropped;
/// inside quotes the text between quote tokens is kept as it stands, line
/// by line. An escaped quote becomes the card `%DQ%`. The first token is
/// always empty.
pub fn lexer(unlexed: Vec<String>) -> (r: Result<Vec<String>, WemError>)
    ensures
        r matches Ok(v) && texts(v@) == lexed(texts(unlexed@)),
{
    let mut done: Vec<String> = Vec::new();
    let mut cur: Vec<char> = Vec::new();
    let mut dq = false;
    let mut esc = false;
    let ghost lines = texts(unlexed@);
    let mut li: usize = 0;
    assert(texts(done@) =~= Seq::<Seq<char>>::empty());
    assert(lines.take(0) =~= Seq::<Seq<char>>::empty());
    assert(lex_view(done@, cur@, dq, esc) == lex_lines(lines.take(0)));
    while li < unlexed.len()
        invariant
            li <= unlexed@.len(),
            lines == texts(unlexed@),
            lex_view(done@, cur@, dq, esc) == lex_lines(lines.take(li as int)),
        decreases unlexed.len() - li,
    {
        let line = chars_of(unlexed[li].as_str());
        let ghost base = lex_view(done@, cur@, dq, esc);
        let mut ci: usize = 0;
        assert(line@.take(0) =~= Seq::<char>::empty());
        while ci < line.len()
            invariant
                ci <= line@.len(),
                lex_view(done@, cur@, dq, esc) == lex_chars(base, line@.take(ci as int)),
            decreases line.len() - ci,
        {
            lex_char_exec(&mut done, &mut cur, &mut dq, &mut esc, line[ci]);
            assert(line@.take(ci + 1).drop_last() =~= line@.take(ci as int));
            ci = ci + 1;
        }
        assert(line@.take(line@.len() as int) =~= line@);
        close_segment(&mut done, &mut cur);
        assert(lines.take(li + 1).drop_last() =~= lines.take(li as int));
        li = li + 1;
    }
    assert(lines.take(unlexed@.len() as int) =~= lines);
    close_segment(&mut done, &mut cur);
    let ghost segs = texts(done@);
    assert(segs == segments(lines));

    let mut result: Vec<String> = Vec::new();
    result.push(String::new());
    let mut quoted = false;
    let mut si: usize = 0;
    assert(segs.take(0) =~= Seq::<Seq<char>>::empty());
    assert(texts(result@) =~= select(segs.take(0)).1);
    while si < done.len()
        invariant
            si <= done@.len(),
            segs == texts(done@),
            (quoted, texts(result@)) == select(segs.take(si as int)),
        decreases done.len() - si,
    {
        let seg = &done[si];
        assert(segs.take(si + 1).drop_last() =~= segs.take(si as int));
        if contains_char(seg.as_str(), '"') {
            quoted = !quoted;
        }
        let t = trim_text(seg.as_str());
        let empty = chars_of(t.as_str()).len() == 0;
        if !empty && !quoted {
            result.push(t);
        } else if quoted {
            result.push(seg.clone());
        }
        proof {
            if empty {
                assert(trim(segs[si as int]) =~= Seq::<char>::empty());
            }
        }
        assert(texts(result@) =~= select(segs.take(si + 1)).1);
        si = si + 1;
    }
    assert(segs.take(done@.len() as int) =~= segs);
    Ok(result)
}

} // verus!
