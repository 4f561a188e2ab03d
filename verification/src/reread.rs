//! What reading back a written script gives: its lines, their tokens, and
//! the entries that the tree reader finds in them.
use vstd::prelude::*;

use crate::lexer::{is_special, lex_char, lex_chars, lex_lines, lex_start, lexed, segments, select, LexState};
use crate::text::{has_char, is_ws, trim, trim_end, trim_start};
use crate::structure::{Actions, ExecSpec};
use crate::text::{has_sub, occurs_at};
use crate::error::WemError;
use crate::tree::{join_path, top_step, tree_fold, tree_start, tree_step, TreeMode, TreeState};
use crate::writer::{
    body_fold, close_indent, closes_after, defs_text, desc_text, entry_head, entry_text, indent_fold, indent_of, pad,
    repeat, wem_text,
};

verus! {

// ---------------------------------------------------------------------------
// Lines of a text
// ---------------------------------------------------------------------------

/// The pieces of `t` between its line breaks.
pub open spec fn pieces(t: Seq<char>) -> Seq<Seq<char>>
    decreases t.len(),
{
    if t.len() == 0 {
        seq![Seq::empty()]
    } else {
        let p = pieces(t.drop_last());
        if t.last() == '\n' {
            p.push(Seq::empty())
        } else {
            p.update(p.len() - 1, p.last().push(t.last()))
        }
    }
}

/// The lines of a text without `\r` (std's `str::lines`): the pieces
/// between line breaks, without the empty piece after a final break.
pub open spec fn text_lines(t: Seq<char>) -> Seq<Seq<char>> {
    if t.len() == 0 {
        Seq::empty()
    } else if t.last() == '\n' {
        pieces(t.drop_last())
    } else {
        pieces(t)
    }
}

/// The text made of the lines `l`, each ended by a line break.
pub open spec fn line_text(l: Seq<Seq<char>>) -> Seq<char>
    decreases l.len(),
{
    if l.len() == 0 {
        Seq::empty()
    } else {
        line_text(l.drop_last()) + l.last() + seq!['\n']
    }
}

pub proof fn lemma_pieces_len(a: Seq<char>)
    ensures
        pieces(a).len() >= 1,
    decreases a.len(),
{
    if a.len() > 0 {
        lemma_pieces_len(a.drop_last());
    }
}

pub proof fn lemma_pieces_extend(a: Seq<char>, x: Seq<char>)
    requires
        !has_char(x, '\n'),
    ensures
        pieces(a).len() >= 1,
        pieces(a + x) == pieces(a).update(pieces(a).len() - 1, pieces(a).last() + x),
    decreases x.len(),
{
    lemma_pieces_len(a);
    if x.len() == 0 {
        assert(a + x =~= a);
        assert(pieces(a).last() + x =~= pieces(a).last());
        assert(pieces(a).update(pieces(a).len() - 1, pieces(a).last()) =~= pieces(a));
    } else {
        let y = x.drop_last();
        assert(!has_char(y, '\n')) by {
            if has_char(y, '\n') {
                let j = choose|j: int| 0 <= j < y.len() && y[j] == '\n';
                assert(x[j] == '\n');
            }
        }
        assert(x.last() != '\n') by {
            assert(x[x.len() - 1] == x.last());
        }
        lemma_pieces_extend(a, y);
        assert((a + x).drop_last() =~= a + y);
        assert((a + x).last() == x.last());
        let p = pieces(a);
        let q = pieces(a + y);
        assert(q == p.update(p.len() - 1, p.last() + y));
        assert(q.len() == p.len());
        assert(q.last() == q[p.len() - 1]);
        assert(q.last() == p.last() + y);
        assert((p.last() + y).push(x.last()) =~= p.last() + x);
        assert(pieces(a + x) == q.update(q.len() - 1, q.last().push(x.last())));
        assert(pieces(a + x) =~= p.update(p.len() - 1, p.last() + x));
    }
}

/// Whether no line of `l` holds a line break.
pub open spec fn single_lines(l: Seq<Seq<char>>) -> bool {
    forall|i: int| 0 <= i < l.len() ==> !has_char(#[trigger] l[i], '\n')
}

pub proof fn lemma_pieces_line_text(l: Seq<Seq<char>>)
    requires
        single_lines(l),
    ensures
        pieces(line_text(l)) == l.push(Seq::empty()),
    decreases l.len(),
{
    if l.len() == 0 {
        assert(pieces(Seq::<char>::empty()) =~= seq![Seq::<char>::empty()]);
        assert(l.push(Seq::empty()) =~= seq![Seq::<char>::empty()]);
    } else {
        let k = l.drop_last();
        assert(single_lines(k)) by {
            assert forall|i: int| 0 <= i < k.len() implies !has_char(#[trigger] k[i], '\n') by {
                assert(k[i] == l[i]);
            }
        }
        lemma_pieces_line_text(k);
        assert(!has_char(l[l.len() - 1], '\n'));
        lemma_pieces_extend(line_text(k), l.last());
        let t = line_text(l);
        assert(t == line_text(k) + l.last() + seq!['\n']);
        assert(t.drop_last() =~= line_text(k) + l.last());
        assert(t.last() == '\n');
        assert(pieces(t) =~= l.push(Seq::empty()));
    }
}

pub proof fn lemma_text_lines(l: Seq<Seq<char>>)
    requires
        single_lines(l),
    ensures
        text_lines(line_text(l)) == l,
{
    if l.len() > 0 {
        let k = l.drop_last();
        assert(single_lines(k)) by {
            assert forall|i: int| 0 <= i < k.len() implies !has_char(#[trigger] k[i], '\n') by {
                assert(k[i] == l[i]);
            }
        }
        lemma_pieces_line_text(k);
        assert(!has_char(l[l.len() - 1], '\n'));
        lemma_pieces_extend(line_text(k), l.last());
        let t = line_text(l);
        assert(t == line_text(k) + l.last() + seq!['\n']);
        assert(t.drop_last() =~= line_text(k) + l.last());
        assert(t.last() == '\n');
        assert(text_lines(t) =~= l);
    } else {
        assert(line_text(l) =~= Seq::<char>::empty());
    }
}

pub proof fn lemma_line_text_add(a: Seq<Seq<char>>, b: Seq<Seq<char>>)
    ensures
        line_text(a + b) == line_text(a) + line_text(b),
    decreases b.len(),
{
    if b.len() == 0 {
        assert(a + b =~= a);
        assert(line_text(a) + line_text(b) =~= line_text(a));
    } else {
        lemma_line_text_add(a, b.drop_last());
        assert((a + b).drop_last() =~= a + b.drop_last());
        assert((a + b).last() == b.last());
        assert(line_text(a + b) =~= line_text(a) + line_text(b));
    }
}


// ---------------------------------------------------------------------------
// Tokens of lines without quotes or escapes
// ---------------------------------------------------------------------------

/// Whether a line holds neither a quote nor a backslash.
pub open spec fn plain_line(x: Seq<char>) -> bool {
    !has_char(x, '"') && !has_char(x, '\\')
}

/// The segments of `x`, read after the segment `cur`: the characters
/// `" : { } ( ) =` stand as segments of their own, the last segment is the
/// one still being read.
pub open spec fn seg_split(cur: Seq<char>, x: Seq<char>) -> Seq<Seq<char>>
    decreases x.len(),
{
    if x.len() == 0 {
        seq![cur]
    } else {
        let p = seg_split(cur, x.drop_last());
        let c = x.last();
        if is_special(c) {
            p.push(seq![c]).push(Seq::empty())
        } else {
            p.update(p.len() - 1, p.last().push(c))
        }
    }
}

/// Whether no segment holds a quote.
pub open spec fn no_quotes(segs: Seq<Seq<char>>) -> bool {
    forall|i: int| 0 <= i < segs.len() ==> !has_char(#[trigger] segs[i], '"')
}

pub proof fn lemma_plain_prefix(x: Seq<char>)
    requires
        x.len() > 0,
        plain_line(x),
    ensures
        plain_line(x.drop_last()),
        x.last() != '"' && x.last() != '\\',
{
    assert(x[x.len() - 1] == x.last());
    if has_char(x.drop_last(), '"') {
        let j = choose|j: int| 0 <= j < x.drop_last().len() && x.drop_last()[j] == '"';
        assert(x[j] == '"');
    }
    if has_char(x.drop_last(), '\\') {
        let j = choose|j: int| 0 <= j < x.drop_last().len() && x.drop_last()[j] == '\\';
        assert(x[j] == '\\');
    }
}

pub proof fn lemma_seg_split(cur: Seq<char>, x: Seq<char>)
    requires
        !has_char(cur, '"'),
        plain_line(x),
    ensures
        seg_split(cur, x).len() >= 1,
        no_quotes(seg_split(cur, x)),
    decreases x.len(),
{
    if x.len() == 0 {
        assert(seg_split(cur, x) =~= seq![cur]);
    } else {
        lemma_plain_prefix(x);
        lemma_seg_split(cur, x.drop_last());
        let p = seg_split(cur, x.drop_last());
        let c = x.last();
        let q = seg_split(cur, x);
        if is_special(c) {
            assert forall|i: int| 0 <= i < q.len() implies !has_char(#[trigger] q[i], '"') by {
                if i < p.len() {
                    assert(q[i] == p[i]);
                } else if i == p.len() {
                    assert(q[i] == seq![c]);
                    if has_char(q[i], '"') {
                        let j = choose|j: int| 0 <= j < q[i].len() && q[i][j] == '"';
                        assert(j == 0);
                    }
                } else {
                    assert(q[i] =~= Seq::<char>::empty());
                }
            }
        } else {
            assert forall|i: int| 0 <= i < q.len() implies !has_char(#[trigger] q[i], '"') by {
                if i < p.len() - 1 {
                    assert(q[i] == p[i]);
                } else {
                    assert(q[i] == p.last().push(c));
                    assert(!has_char(p[p.len() - 1], '"'));
                    if has_char(q[i], '"') {
                        let j = choose|j: int| 0 <= j < q[i].len() && q[i][j] == '"';
                        if j < p.last().len() {
                            assert(p.last()[j] == '"');
                        }
                    }
                }
            }
        }
    }
}

/// The first pass over a plain line, from a state with no open quote and
/// no pending escape, closes the segments of the line but the last.
pub proof fn lemma_lex_plain(st: LexState, x: Seq<char>)
    requires
        !st.dq,
        !st.esc,
        !has_char(st.cur, '"'),
        plain_line(x),
    ensures
        lex_chars(st, x) == (LexState {
            done: st.done + seg_split(st.cur, x).drop_last(),
            cur: seg_split(st.cur, x).last(),
            dq: false,
            esc: false,
        }),
    decreases x.len(),
{
    if x.len() == 0 {
        assert(st.done + seg_split(st.cur, x).drop_last() =~= st.done);
    } else {
        lemma_plain_prefix(x);
        let y = x.drop_last();
        lemma_lex_plain(st, y);
        lemma_seg_split(st.cur, y);
        let p = seg_split(st.cur, y);
        let c = x.last();
        if is_special(c) {
            assert(st.done + seg_split(st.cur, x).drop_last() =~= (st.done + p.drop_last()).push(p.last()).push(
                seq![c],
            ));
        } else {
            assert(st.done + seg_split(st.cur, x).drop_last() =~= st.done + p.drop_last());
        }
    }
}

/// The segments of plain lines, line after line.
pub open spec fn line_segs(l: Seq<Seq<char>>) -> Seq<Seq<char>>
    decreases l.len(),
{
    if l.len() == 0 {
        Seq::empty()
    } else {
        line_segs(l.drop_last()) + seg_split(Seq::empty(), l.last())
    }
}

/// Whether every line is plain.
pub open spec fn plain_lines(l: Seq<Seq<char>>) -> bool {
    forall|i: int| 0 <= i < l.len() ==> plain_line(#[trigger] l[i])
}

pub proof fn lemma_lex_lines_plain(l: Seq<Seq<char>>)
    requires
        plain_lines(l),
    ensures
        lex_lines(l) == (LexState { done: line_segs(l), cur: Seq::empty(), dq: false, esc: false }),
        no_quotes(line_segs(l)),
    decreases l.len(),
{
    if l.len() == 0 {
        assert(lex_lines(l) == lex_start());
        assert(line_segs(l) == Seq::<Seq<char>>::empty());
    } else {
        let k = l.drop_last();
        assert(plain_lines(k)) by {
            assert forall|i: int| 0 <= i < k.len() implies plain_line(#[trigger] k[i]) by {
                assert(k[i] == l[i]);
            }
        }
        lemma_lex_lines_plain(k);
        assert(plain_line(l[l.len() - 1]));
        assert(!has_char(Seq::<char>::empty(), '"'));
        lemma_lex_plain(lex_lines(k), l.last());
        lemma_seg_split(Seq::empty(), l.last());
        let p = seg_split(Seq::empty(), l.last());
        assert(line_segs(k) + p.drop_last() + seq![p.last()] =~= line_segs(l));
        assert((line_segs(k) + p.drop_last()).push(p.last()) =~= line_segs(l));
        let q = line_segs(l);
        assert forall|i: int| 0 <= i < q.len() implies !has_char(#[trigger] q[i], '"') by {
            if i < line_segs(k).len() {
                assert(q[i] == line_segs(k)[i]);
            } else {
                assert(q[i] == p[i - line_segs(k).len()]);
            }
        }
    }
}

/// The trimmed segments that are not blank.
pub open spec fn keep(segs: Seq<Seq<char>>) -> Seq<Seq<char>>
    decreases segs.len(),
{
    if segs.len() == 0 {
        Seq::empty()
    } else if trim(segs.last()) != Seq::<char>::empty() {
        keep(segs.drop_last()).push(trim(segs.last()))
    } else {
        keep(segs.drop_last())
    }
}

pub proof fn lemma_keep_add(a: Seq<Seq<char>>, b: Seq<Seq<char>>)
    ensures
        keep(a + b) == keep(a) + keep(b),
    decreases b.len(),
{
    if b.len() == 0 {
        assert(a + b =~= a);
        assert(keep(a) + keep(b) =~= keep(a));
    } else {
        lemma_keep_add(a, b.drop_last());
        assert((a + b).drop_last() =~= a + b.drop_last());
        assert((a + b).last() == b.last());
        assert(keep(a + b) =~= keep(a) + keep(b));
    }
}

pub proof fn lemma_select_plain(segs: Seq<Seq<char>>)
    requires
        no_quotes(segs),
    ensures
        select(segs) == (false, seq![Seq::<char>::empty()] + keep(segs)),
    decreases segs.len(),
{
    if segs.len() == 0 {
        assert(seq![Seq::<char>::empty()] + keep(segs) =~= seq![Seq::<char>::empty()]);
    } else {
        let k = segs.drop_last();
        assert(no_quotes(k)) by {
            assert forall|i: int| 0 <= i < k.len() implies !has_char(#[trigger] k[i], '"') by {
                assert(k[i] == segs[i]);
            }
        }
        lemma_select_plain(k);
        assert(!has_char(segs[segs.len() - 1], '"'));
        if trim(segs.last()) != Seq::<char>::empty() {
            assert(seq![Seq::<char>::empty()] + keep(segs) =~= (seq![Seq::<char>::empty()] + keep(k)).push(
                trim(segs.last()),
            ));
        }
    }
}

/// The tokens of one plain line.
pub open spec fn line_tokens(x: Seq<char>) -> Seq<Seq<char>> {
    keep(seg_split(Seq::empty(), x))
}

/// The tokens of plain lines, line after line.
pub open spec fn lines_tokens(l: Seq<Seq<char>>) -> Seq<Seq<char>>
    decreases l.len(),
{
    if l.len() == 0 {
        Seq::empty()
    } else {
        lines_tokens(l.drop_last()) + line_tokens(l.last())
    }
}

pub proof fn lemma_lines_tokens_segs(l: Seq<Seq<char>>)
    ensures
        keep(line_segs(l)) == lines_tokens(l),
    decreases l.len(),
{
    if l.len() > 0 {
        lemma_lines_tokens_segs(l.drop_last());
        lemma_keep_add(line_segs(l.drop_last()), seg_split(Seq::empty(), l.last()));
    }
}

pub proof fn lemma_lines_tokens_add(a: Seq<Seq<char>>, b: Seq<Seq<char>>)
    ensures
        lines_tokens(a + b) == lines_tokens(a) + lines_tokens(b),
    decreases b.len(),
{
    if b.len() == 0 {
        assert(a + b =~= a);
        assert(lines_tokens(a) + lines_tokens(b) =~= lines_tokens(a));
    } else {
        lemma_lines_tokens_add(a, b.drop_last());
        assert((a + b).drop_last() =~= a + b.drop_last());
        assert((a + b).last() == b.last());
        assert(lines_tokens(a + b) =~= lines_tokens(a) + lines_tokens(b));
    }
}

/// Plain lines lex to the empty first token and their tokens, line after
/// line.
pub proof fn lemma_lexed_plain(l: Seq<Seq<char>>)
    requires
        plain_lines(l),
    ensures
        lexed(l) == seq![Seq::<char>::empty()] + lines_tokens(l),
{
    lemma_lex_lines_plain(l);
    let segs = segments(l);
    assert(segs =~= line_segs(l).push(Seq::empty()));
    assert(no_quotes(segs)) by {
        assert forall|i: int| 0 <= i < segs.len() implies !has_char(#[trigger] segs[i], '"') by {
            if i < line_segs(l).len() {
                assert(segs[i] == line_segs(l)[i]);
            } else {
                assert(segs[i] =~= Seq::<char>::empty());
            }
        }
    }
    lemma_select_plain(segs);
    assert(trim(Seq::<char>::empty()) =~= Seq::<char>::empty());
    assert(segs.drop_last() =~= line_segs(l));
    assert(keep(segs) == keep(line_segs(l)));
    lemma_lines_tokens_segs(l);
}


// ---------------------------------------------------------------------------
// Tokens of the lines that the writer produces
// ---------------------------------------------------------------------------

/// Whether `x` is whitespace only.
pub open spec fn blank(x: Seq<char>) -> bool {
    forall|j: int| 0 <= j < x.len() ==> is_ws(#[trigger] x[j])
}

/// Whether `n` can stand as an entry name that reads back as one token:
/// not empty, without whitespace, `" : { } ( ) =`, backslash or `/`.
pub open spec fn clean_name(n: Seq<char>) -> bool {
    &&& n.len() > 0
    &&& forall|j: int|
        0 <= j < n.len() ==> !is_ws(#[trigger] n[j]) && !is_special(n[j]) && n[j] != '\\' && n[j] != '/'
}

pub proof fn lemma_pad_spaces(k: int)
    ensures
        forall|j: int| 0 <= j < repeat(pad(), k).len() ==> #[trigger] repeat(pad(), k)[j] == ' ',
    decreases k,
{
    reveal_strlit("   ");
    if k > 0 {
        lemma_pad_spaces(k - 1);
        let r = repeat(pad(), k);
        assert(r == repeat(pad(), k - 1) + pad());
        assert forall|j: int| 0 <= j < r.len() implies r[j] == ' ' by {
            if j < repeat(pad(), k - 1).len() {
                assert(r[j] == repeat(pad(), k - 1)[j]);
            } else {
                assert(r[j] == pad()[j - repeat(pad(), k - 1).len()]);
            }
        }
    }
}

pub proof fn lemma_pad_blank(k: int)
    ensures
        blank(repeat(pad(), k)),
        !has_char(repeat(pad(), k), '"'),
        !has_char(repeat(pad(), k), '\\'),
        no_special(repeat(pad(), k)),
{
    lemma_pad_spaces(k);
}

pub proof fn lemma_trim_start_blank(sp: Seq<char>, w: Seq<char>)
    requires
        blank(sp),
    ensures
        trim_start(sp + w) == trim_start(w),
    decreases sp.len(),
{
    if sp.len() > 0 {
        assert((sp + w)[0] == sp[0]);
        assert((sp + w).drop_first() =~= sp.drop_first() + w);
        assert(blank(sp.drop_first())) by {
            assert forall|j: int| 0 <= j < sp.drop_first().len() implies is_ws(#[trigger] sp.drop_first()[j]) by {
                assert(sp.drop_first()[j] == sp[j + 1]);
            }
        }
        lemma_trim_start_blank(sp.drop_first(), w);
    } else {
        assert(sp + w =~= w);
    }
}

pub proof fn lemma_trim_end_blank(w: Seq<char>, sp: Seq<char>)
    requires
        blank(sp),
    ensures
        trim_end(w + sp) == trim_end(w),
    decreases sp.len(),
{
    if sp.len() > 0 {
        assert((w + sp).last() == sp.last());
        assert(is_ws(sp[sp.len() - 1]));
        assert((w + sp).drop_last() =~= w + sp.drop_last());
        assert(blank(sp.drop_last())) by {
            assert forall|j: int| 0 <= j < sp.drop_last().len() implies is_ws(#[trigger] sp.drop_last()[j]) by {
                assert(sp.drop_last()[j] == sp[j]);
            }
        }
        lemma_trim_end_blank(w, sp.drop_last());
    } else {
        assert(w + sp =~= w);
    }
}

/// A word between whitespace trims to itself.
pub proof fn lemma_trim_word(sp1: Seq<char>, w: Seq<char>, sp2: Seq<char>)
    requires
        blank(sp1),
        blank(sp2),
        w.len() > 0,
        !is_ws(w[0]),
        !is_ws(w.last()),
    ensures
        trim(sp1 + w + sp2) == w,
{
    assert(sp1 + w + sp2 =~= sp1 + (w + sp2));
    lemma_trim_start_blank(sp1, w + sp2);
    assert((w + sp2)[0] == w[0]);
    assert(trim_start(w + sp2) == w + sp2);
    lemma_trim_end_blank(w, sp2);
    assert(w[w.len() - 1] == w.last());
    assert(trim_end(w) == w);
}

pub proof fn lemma_trim_blank(sp: Seq<char>)
    requires
        blank(sp),
    ensures
        trim(sp) == Seq::<char>::empty(),
{
    lemma_trim_start_blank(sp, Seq::empty());
    assert(sp + Seq::<char>::empty() =~= sp);
    assert(trim_start(Seq::<char>::empty()) =~= Seq::<char>::empty());
}

/// Whether `x` holds none of the characters that stand as segments.
pub open spec fn no_special(x: Seq<char>) -> bool {
    forall|j: int| 0 <= j < x.len() ==> !is_special(#[trigger] x[j])
}

pub proof fn lemma_seg_split_plain(cur: Seq<char>, a: Seq<char>, b: Seq<char>)
    requires
        no_special(b),
    ensures
        seg_split(cur, a).len() >= 1,
        seg_split(cur, a + b) == seg_split(cur, a).update(
            seg_split(cur, a).len() - 1,
            seg_split(cur, a).last() + b,
        ),
    decreases a.len() + b.len(),
{
    if a.len() > 0 {
        lemma_seg_split_plain(cur, a.drop_last(), Seq::empty());
        assert(a.drop_last() + Seq::<char>::empty() =~= a.drop_last());
    }
    let p = seg_split(cur, a);
    if b.len() == 0 {
        assert(a + b =~= a);
        assert(p.last() + b =~= p.last());
        assert(p.update(p.len() - 1, p.last()) =~= p);
    } else {
        let y = b.drop_last();
        assert(no_special(y)) by {
            assert forall|j: int| 0 <= j < y.len() implies !is_special(#[trigger] y[j]) by {
                assert(y[j] == b[j]);
            }
        }
        assert(!is_special(b[b.len() - 1]));
        lemma_seg_split_plain(cur, a, y);
        assert((a + b).drop_last() =~= a + y);
        assert((a + b).last() == b.last());
        let q = seg_split(cur, a + y);
        assert(q.len() == p.len());
        assert(q.last() == q[p.len() - 1]);
        assert((p.last() + y).push(b.last()) =~= p.last() + b);
        assert(seg_split(cur, a + b) =~= p.update(p.len() - 1, p.last() + b));
    }
}


pub proof fn lemma_has_char_add(a: Seq<char>, b: Seq<char>, c: char)
    ensures
        has_char(a + b, c) == (has_char(a, c) || has_char(b, c)),
{
    if has_char(a + b, c) {
        let j = choose|j: int| 0 <= j < (a + b).len() && (a + b)[j] == c;
        if j >= a.len() {
            assert(b[j - a.len()] == c);
        }
    }
    if has_char(a, c) {
        let j = choose|j: int| 0 <= j < a.len() && a[j] == c;
        assert((a + b)[j] == c);
    }
    if has_char(b, c) {
        let j = choose|j: int| 0 <= j < b.len() && b[j] == c;
        assert((a + b)[a.len() + j] == c);
    }
}

pub proof fn lemma_plain_add(a: Seq<char>, b: Seq<char>)
    requires
        plain_line(a),
        plain_line(b),
    ensures
        plain_line(a + b),
{
    lemma_has_char_add(a, b, '"');
    lemma_has_char_add(a, b, '\\');
}

pub proof fn lemma_no_special_add(a: Seq<char>, b: Seq<char>)
    requires
        no_special(a),
        no_special(b),
    ensures
        no_special(a + b),
{
    assert forall|j: int| 0 <= j < (a + b).len() implies !is_special(#[trigger] (a + b)[j]) by {
        if j < a.len() {
            assert((a + b)[j] == a[j]);
        } else {
            assert((a + b)[j] == b[j - a.len()]);
        }
    }
}

pub proof fn lemma_clean_name(n: Seq<char>)
    requires
        clean_name(n),
    ensures
        plain_line(n),
        no_special(n),
        !is_ws(n[0]),
        !is_ws(n.last()),
{
    assert(n[n.len() - 1] == n.last());
    if has_char(n, '"') {
        let j = choose|j: int| 0 <= j < n.len() && n[j] == '"';
        assert(is_special(n[j]));
    }
    if has_char(n, '\\') {
        let j = choose|j: int| 0 <= j < n.len() && n[j] == '\\';
    }
}

/// A plain word: plain, with no segment character.
pub open spec fn plain_word(x: Seq<char>) -> bool {
    plain_line(x) && no_special(x)
}

pub proof fn lemma_literals()
    ensures
        plain_word("dir"@),
        plain_word("file"@),
        plain_word(seq![' ']),
        plain_line(":"@),
        plain_line("{"@),
        plain_line("}"@),
        blank(seq![' ']),
        ":"@ == seq![':'],
        "{"@ == seq!['{'],
        "}"@ == seq!['}'],
        "dir"@.len() == 3,
        "file"@.len() == 4,
{
    reveal_strlit("dir");
    reveal_strlit("file");
    reveal_strlit(":");
    reveal_strlit("{");
    reveal_strlit("}");
    assert(!has_char("dir"@, '"') && !has_char("dir"@, '\\'));
    assert(!has_char("file"@, '"') && !has_char("file"@, '\\'));
    assert(!has_char(seq![' '], '"') && !has_char(seq![' '], '\\'));
    assert(!has_char(":"@, '"') && !has_char(":"@, '\\'));
    assert(!has_char("{"@, '"') && !has_char("{"@, '\\'));
    assert(!has_char("}"@, '"') && !has_char("}"@, '\\'));
    assert(":"@ =~= seq![':']);
    assert("{"@ =~= seq!['{']);
    assert("}"@ =~= seq!['}']);
}

pub proof fn lemma_keep_push(segs: Seq<Seq<char>>, x: Seq<char>)
    ensures
        keep(segs.push(x)) == (if trim(x) != Seq::<char>::empty() {
            keep(segs).push(trim(x))
        } else {
            keep(segs)
        }),
{
    assert(segs.push(x).drop_last() =~= segs);
    assert(segs.push(x).last() == x);
}

/// The segments of an indented word followed by `:` and a name.
pub proof fn lemma_head_segs(d: int, w: Seq<char>, name: Seq<char>)
    requires
        plain_word(w),
        w.len() > 0,
        !is_ws(w[0]),
        !is_ws(w.last()),
        clean_name(name),
    ensures
        plain_line(repeat(pad(), d) + w + ":"@ + name),
        seg_split(Seq::empty(), repeat(pad(), d) + w + ":"@ + name) == seq![
            repeat(pad(), d) + w,
            ":"@,
            name,
        ],
        trim(repeat(pad(), d) + w) == w,
        trim(name) == name,
{
    reveal_strlit(":");
    lemma_literals();
    let p = repeat(pad(), d);
    lemma_pad_blank(d);
    lemma_clean_name(name);
    let a = p + w;
    lemma_no_special_add(p, w);
    lemma_plain_add(p, w);
    lemma_seg_split_plain(Seq::empty(), Seq::empty(), a);
    assert(Seq::<char>::empty() + a =~= a);
    assert(seg_split(Seq::empty(), Seq::<char>::empty()) =~= seq![Seq::<char>::empty()]);
    assert(seg_split(Seq::empty(), a) =~= seq![a]);
    let a1 = a.push(':');
    assert(a1.drop_last() =~= a);
    assert(is_special(a1.last()));
    assert(seg_split(Seq::empty(), a1) =~= seq![a, ":"@, Seq::<char>::empty()]);
    lemma_seg_split_plain(Seq::empty(), a1, name);
    assert(Seq::<char>::empty() + name =~= name);
    assert(a1 + name =~= p + w + ":"@ + name);
    assert(seg_split(Seq::empty(), a1 + name) =~= seq![a, ":"@, name]);
    lemma_plain_add(a, ":"@);
    assert(a + ":"@ =~= a1);
    lemma_plain_add(a1, name);
    lemma_trim_word(p, w, Seq::empty());
    assert(p + w + Seq::<char>::empty() =~= a);
    lemma_trim_word(Seq::empty(), name, Seq::empty());
    assert(Seq::<char>::empty() + name + Seq::<char>::empty() =~= name);
}

pub proof fn lemma_trim_colon()
    ensures
        trim(":"@) == ":"@,
        trim("{"@) == "{"@,
        trim("}"@) == "}"@,
        trim(Seq::<char>::empty()) == Seq::<char>::empty(),
{
    reveal_strlit(":");
    reveal_strlit("{");
    reveal_strlit("}");
    lemma_trim_word(Seq::empty(), ":"@, Seq::empty());
    assert(Seq::<char>::empty() + ":"@ + Seq::<char>::empty() =~= ":"@);
    lemma_trim_word(Seq::empty(), "{"@, Seq::empty());
    assert(Seq::<char>::empty() + "{"@ + Seq::<char>::empty() =~= "{"@);
    lemma_trim_word(Seq::empty(), "}"@, Seq::empty());
    assert(Seq::<char>::empty() + "}"@ + Seq::<char>::empty() =~= "}"@);
    assert(trim_start(Seq::<char>::empty()) =~= Seq::<char>::empty());
}

/// An indented line of a literal, a name and a literal holds no line break
/// where the literals hold none.
pub proof fn lemma_no_newline(p: Seq<char>, a: Seq<char>, name: Seq<char>, b: Seq<char>)
    requires
        forall|j: int| 0 <= j < p.len() ==> #[trigger] p[j] == ' ',
        a == "dir:"@ || a == "file:"@,
        b == " {"@ || b == Seq::<char>::empty(),
        clean_name(name),
    ensures
        !has_char(p + a + name + b, '\n'),
{
    reveal_strlit("dir:");
    reveal_strlit("file:");
    reveal_strlit(" {");
    lemma_has_char_add(p, a, '\n');
    lemma_has_char_add(p + a, name, '\n');
    lemma_has_char_add(p + a + name, b, '\n');
    if has_char(p, '\n') {
        let j = choose|j: int| 0 <= j < p.len() && p[j] == '\n';
        assert(p[j] == ' ');
    }
    if has_char(name, '\n') {
        let j = choose|j: int| 0 <= j < name.len() && name[j] == '\n';
        assert(!is_ws(name[j]));
    }
    if has_char(a, '\n') {
        let j = choose|j: int| 0 <= j < a.len() && a[j] == '\n';
    }
    if has_char(b, '\n') {
        let j = choose|j: int| 0 <= j < b.len() && b[j] == '\n';
    }
}

/// The tokens of the line of a directory entry.
pub proof fn lemma_dir_line(d: int, name: Seq<char>, open: bool)
    requires
        clean_name(name),
    ensures
        plain_line(repeat(pad(), d) + "dir:"@ + name + (if open { " {"@ } else { Seq::empty() })),
        !has_char(repeat(pad(), d) + "dir:"@ + name + (if open { " {"@ } else { Seq::empty() }), '\n'),
        line_tokens(repeat(pad(), d) + "dir:"@ + name + (if open { " {"@ } else { Seq::empty() }))
            == seq!["dir"@, ":"@, name] + (if open { seq!["{"@] } else { Seq::empty() }),
{
    reveal_strlit("dir:");
    reveal_strlit("dir");
    reveal_strlit(":");
    reveal_strlit(" {");
    reveal_strlit("{");
    lemma_literals();
    lemma_trim_colon();
    let p = repeat(pad(), d);
    let w = "dir"@;
    lemma_head_segs(d, w, name);
    lemma_pad_spaces(d);
    lemma_no_newline(p, "dir:"@, name, if open { " {"@ } else { Seq::empty() });
    let a = p + w;
    let x = p + w + ":"@ + name;
    assert(p + "dir:"@ + name =~= x);
    let segs = seq![a, ":"@, name];
    if open {
        let l = x + " {"@;
        lemma_seg_split_plain(Seq::empty(), x, seq![' ']);
        let x1 = x + seq![' '];
        assert(seg_split(Seq::empty(), x1) =~= seq![a, ":"@, name + seq![' ']]);
        let x2 = x1.push('{');
        assert(x2.drop_last() =~= x1);
        assert(seg_split(Seq::empty(), x2) =~= seq![a, ":"@, name + seq![' '], "{"@, Seq::<char>::empty()]);
        assert(l =~= x2);
        assert(!has_char(" {"@, '"') && !has_char(" {"@, '\\'));
        lemma_plain_add(x, " {"@);
        lemma_clean_name(name);
        lemma_trim_word(Seq::empty(), name, seq![' ']);
        assert(Seq::<char>::empty() + name + seq![' '] =~= name + seq![' ']);
        let e = Seq::<Seq<char>>::empty();
        let g = e.push(a).push(":"@).push(name + seq![' ']).push("{"@).push(Seq::<char>::empty());
        assert(g =~= seq![a, ":"@, name + seq![' '], "{"@, Seq::<char>::empty()]);
        lemma_keep_push(e, a);
        lemma_keep_push(e.push(a), ":"@);
        lemma_keep_push(e.push(a).push(":"@), name + seq![' ']);
        lemma_keep_push(e.push(a).push(":"@).push(name + seq![' ']), "{"@);
        lemma_keep_push(e.push(a).push(":"@).push(name + seq![' ']).push("{"@), Seq::<char>::empty());
        assert(keep(g) =~= seq![w, ":"@, name, "{"@]);
        assert(seq!["dir"@, ":"@, name] + seq!["{"@] =~= seq![w, ":"@, name, "{"@]);
    } else {
        assert(x + Seq::<char>::empty() =~= x);
        let e = Seq::<Seq<char>>::empty();
        assert(segs =~= e.push(a).push(":"@).push(name));
        lemma_keep_push(e, a);
        lemma_keep_push(e.push(a), ":"@);
        lemma_keep_push(e.push(a).push(":"@), name);
        assert(keep(segs) =~= seq![w, ":"@, name]);
        assert(seq!["dir"@, ":"@, name] + Seq::<Seq<char>>::empty() =~= seq![w, ":"@, name]);
    }
}

/// The tokens of the line of a file entry without pretext.
pub proof fn lemma_file_line(d: int, name: Seq<char>)
    requires
        clean_name(name),
    ensures
        plain_line(repeat(pad(), d) + ("file"@ + Seq::empty() + ":"@ + name)),
        !has_char(repeat(pad(), d) + ("file"@ + Seq::empty() + ":"@ + name), '\n'),
        line_tokens(repeat(pad(), d) + ("file"@ + Seq::empty() + ":"@ + name)) == seq!["file"@, ":"@, name],
{
    reveal_strlit("file");
    reveal_strlit(":");
    lemma_literals();
    lemma_trim_colon();
    let p = repeat(pad(), d);
    let w = "file"@;
    lemma_head_segs(d, w, name);
    lemma_pad_spaces(d);
    lemma_no_newline(p, "file:"@, name, Seq::empty());
    reveal_strlit("file:");
    assert(p + ("file"@ + Seq::empty() + ":"@ + name) =~= p + "file:"@ + name + Seq::<char>::empty());
    let a = p + w;
    assert(p + ("file"@ + Seq::empty() + ":"@ + name) =~= p + w + ":"@ + name);
    let segs = seq![a, ":"@, name];
    let e = Seq::<Seq<char>>::empty();
    assert(segs =~= e.push(a).push(":"@).push(name));
    lemma_keep_push(e, a);
    lemma_keep_push(e.push(a), ":"@);
    lemma_keep_push(e.push(a).push(":"@), name);
    assert(keep(segs) =~= seq![w, ":"@, name]);
}

/// The tokens of a line that closes a level.
pub proof fn lemma_close_line(k: int)
    ensures
        plain_line(repeat(pad(), k) + "}"@),
        !has_char(repeat(pad(), k) + "}"@, '\n'),
        line_tokens(repeat(pad(), k) + "}"@) == seq!["}"@],
{
    reveal_strlit("}");
    lemma_literals();
    lemma_trim_colon();
    let p = repeat(pad(), k);
    lemma_pad_blank(k);
    lemma_pad_spaces(k);
    lemma_plain_add(p, "}"@);
    lemma_has_char_add(p, "}"@, '\n');
    lemma_seg_split_plain(Seq::empty(), Seq::empty(), p);
    assert(Seq::<char>::empty() + p =~= p);
    assert(seg_split(Seq::empty(), Seq::<char>::empty()) =~= seq![Seq::<char>::empty()]);
    assert(seg_split(Seq::empty(), p) =~= seq![p]);
    let x = p.push('}');
    assert(x =~= p + "}"@);
    assert(x.drop_last() =~= p);
    let segs = seq![p, "}"@, Seq::<char>::empty()];
    assert(seg_split(Seq::empty(), x) =~= segs);
    lemma_trim_blank(p);
    let e = Seq::<Seq<char>>::empty();
    assert(segs =~= e.push(p).push("}"@).push(Seq::<char>::empty()));
    lemma_keep_push(e, p);
    lemma_keep_push(e.push(p), "}"@);
    lemma_keep_push(e.push(p).push("}"@), Seq::<char>::empty());
    assert(keep(segs) =~= seq!["}"@]);
}


// ---------------------------------------------------------------------------
// Depth-first walks and the depths that the writer gives them
// ---------------------------------------------------------------------------

/// Whether `p` is a directory path below `start_dir`: the start directory,
/// then entry names.
pub open spec fn dir_path(p: Seq<Seq<char>>, start_dir: Seq<char>) -> bool {
    &&& p.len() >= 1
    &&& p[0] == start_dir
    &&& forall|j: int| 1 <= j < p.len() ==> clean_name(#[trigger] p[j])
}

/// Whether the listing `s` is a depth-first walk from `start_dir`, in which
/// `paths[i]` are the directories from `start_dir` down to the one that
/// holds entry `i`: the first entry lies in `start_dir`, and each later entry
/// lies either in the directory listed just before it or in one of the
/// directories that hold that entry.
pub open spec fn is_walk(s: Seq<ExecSpec>, paths: Seq<Seq<Seq<char>>>, start_dir: Seq<char>) -> bool {
    &&& s.len() >= 1
    &&& paths.len() == s.len()
    &&& paths[0] == seq![start_dir]
    &&& forall|i: int|
        0 <= i < s.len() ==> dir_path(#[trigger] paths[i], start_dir) && s[i].location == join_path(paths[i])
    &&& forall|i: int| 0 <= i < s.len() - 1 ==> #[trigger] walk_step(s, paths, i)
}

/// The step from entry `i` to the next: into the directory `s[i]`, or back
/// to the same or an enclosing directory.
pub open spec fn walk_step(s: Seq<ExecSpec>, paths: Seq<Seq<Seq<char>>>, i: int) -> bool {
    enters(s, paths, i) || (1 <= paths[i + 1].len() <= paths[i].len() && paths[i + 1] == paths[i].take(
        paths[i + 1].len() as int,
    ))
}

/// Whether the entry after `i` lies in the directory `s[i]`.
pub open spec fn enters(s: Seq<ExecSpec>, paths: Seq<Seq<Seq<char>>>, i: int) -> bool {
    s[i].action == Actions::DIR && paths[i + 1] == paths[i].push(s[i].name)
}

/// The number of `/` in `x`.
pub open spec fn slashes(x: Seq<char>) -> int
    decreases x.len(),
{
    if x.len() == 0 {
        0
    } else {
        slashes(x.drop_last()) + (if x.last() == '/' { 1int } else { 0int })
    }
}

pub proof fn lemma_slashes_add(a: Seq<char>, b: Seq<char>)
    ensures
        slashes(a + b) == slashes(a) + slashes(b),
    decreases b.len(),
{
    if b.len() == 0 {
        assert(a + b =~= a);
    } else {
        lemma_slashes_add(a, b.drop_last());
        assert((a + b).drop_last() =~= a + b.drop_last());
        assert((a + b).last() == b.last());
    }
}

pub proof fn lemma_slashes_name(n: Seq<char>)
    requires
        forall|j: int| 0 <= j < n.len() ==> #[trigger] n[j] != '/',
    ensures
        slashes(n) == 0,
    decreases n.len(),
{
    if n.len() > 0 {
        assert(n[n.len() - 1] == n.last());
        lemma_slashes_name(n.drop_last());
    }
}

/// The joined path of a directory path: its length grows with each part,
/// its earlier parts are its prefixes, and each part adds one `/`.
pub proof fn lemma_join_path(p: Seq<Seq<char>>, start_dir: Seq<char>)
    requires
        dir_path(p, start_dir),
    ensures
        slashes(join_path(p)) == slashes(start_dir) + p.len() - 1,
        forall|j: int|
            1 <= j < p.len() ==> #[trigger] join_path(p.take(j)).len() < join_path(p).len() && occurs_at(
                join_path(p),
                join_path(p.take(j)),
                0,
            ),
    decreases p.len(),
{
    reveal_strlit("/");
    if p.len() == 1 {
        assert(join_path(p) == p[0]);
    } else {
        let q = p.drop_last();
        assert(dir_path(q, start_dir)) by {
            assert forall|j: int| 1 <= j < q.len() implies clean_name(#[trigger] q[j]) by {
                assert(q[j] == p[j]);
            }
        }
        lemma_join_path(q, start_dir);
        let n = p.last();
        assert(clean_name(p[p.len() - 1]));
        lemma_slashes_name(n);
        assert(join_path(p) == join_path(q) + seq!['/'] + n);
        lemma_slashes_add(join_path(q) + seq!['/'], n);
        lemma_slashes_add(join_path(q), seq!['/']);
        assert(seq!['/'].drop_last() =~= Seq::<char>::empty());
        assert(slashes(Seq::<char>::empty()) == 0);
        assert(slashes(seq!['/']) == 1);
        assert forall|j: int|
            1 <= j < p.len() implies #[trigger] join_path(p.take(j)).len() < join_path(p).len() && occurs_at(
                join_path(p),
                join_path(p.take(j)),
                0,
            ) by {
            if j == q.len() {
                assert(p.take(j) =~= q);
                assert(join_path(p).subrange(0, join_path(q).len() as int) =~= join_path(q));
            } else {
                assert(p.take(j) =~= q.take(j));
                assert(join_path(q).len() <= join_path(p).len());
                assert(join_path(p).subrange(0, join_path(p.take(j)).len() as int) =~= join_path(q).subrange(
                    0,
                    join_path(p.take(j)).len() as int,
                ));
            }
        }
    }
}

pub proof fn lemma_has_sub_len(a: Seq<char>, b: Seq<char>)
    requires
        has_sub(a, b),
    ensures
        b.len() <= a.len(),
{
    let k = choose|k: int| occurs_at(a, b, k);
}

/// Whether the walk goes back up at most one level at a time.
pub open spec fn climbs_one(s: Seq<ExecSpec>, paths: Seq<Seq<Seq<char>>>) -> bool {
    forall|i: int| 0 <= i < s.len() - 1 ==> #[trigger] paths[i + 1].len() + 1 >= paths[i].len()
}

/// Whether each directory that the walk enters is listed once: no other
/// directory entry has its location and name.
pub open spec fn entered_once(s: Seq<ExecSpec>, paths: Seq<Seq<Seq<char>>>) -> bool {
    forall|i: int, j: int|
        #![trigger enters(s, paths, j), s[i]]
        0 <= i < s.len() && 0 <= j < s.len() - 1 && enters(s, paths, j) && s[i].action == Actions::DIR
            && s[i].location == s[j].location && s[i].name == s[j].name ==> i == j
}

/// Whether `l` is the location of an entry that follows a step into a
/// directory, among the first `k` entries.
pub open spec fn entered_loc(s: Seq<ExecSpec>, paths: Seq<Seq<Seq<char>>>, k: int, l: Seq<char>) -> bool {
    exists|j: int| 0 <= j < k - 1 && enters(s, paths, j) && #[trigger] s[j + 1].location == l
}

/// Of a walk, the writer records a depth for the first location and for
/// the location of each entry that follows a step into a directory, and
/// for no other.
pub proof fn lemma_keys(s: Seq<ExecSpec>, paths: Seq<Seq<Seq<char>>>, start_dir: Seq<char>, k: int)
    requires
        is_walk(s, paths, start_dir),
        1 <= k <= s.len(),
    ensures
        indent_fold(s.take(k)).before == s[k - 1].location,
        forall|l: Seq<char>|
            #[trigger] indent_fold(s.take(k)).map.contains_key(l) == (l == s[0].location || entered_loc(
                s,
                paths,
                k,
                l,
            )),
    decreases k,
{
    if k == 1 {
        assert(s.take(1).drop_last() =~= Seq::<ExecSpec>::empty());
        assert(s.take(1).last() == s[0]);
        assert(indent_fold(s.take(1).drop_last()) == indent_fold(Seq::<ExecSpec>::empty()));
        assert(indent_fold(Seq::<ExecSpec>::empty()).map == Map::<Seq<char>, int>::empty());
    } else {
        lemma_keys(s, paths, start_dir, k - 1);
        let i = k - 2;
        let p = paths[i];
        let q = paths[k - 1];
        assert(dir_path(p, start_dir));
        assert(dir_path(q, start_dir));
        assert(walk_step(s, paths, i));
        let st = indent_fold(s.take(k - 1));
        assert(s.take(k).drop_last() =~= s.take(k - 1));
        assert(s.take(k).last() == s[k - 1]);
        let c = s[k - 1];
        lemma_join_path(p, start_dir);
        lemma_join_path(q, start_dir);
        let nst = indent_fold(s.take(k));
        if enters(s, paths, i) {
            assert(q.len() == p.len() + 1);
            assert(q.take(p.len() as int) =~= p);
            assert(has_sub(c.location, st.before)) by {
                assert(occurs_at(join_path(q), join_path(q.take(p.len() as int)), 0));
            }
            assert(nst.map == st.map.insert(c.location, st.indent + 1));
            assert forall|l: Seq<char>|
                #[trigger] nst.map.contains_key(l) == (l == s[0].location || entered_loc(s, paths, k, l)) by {
                if l == c.location {
                    assert(s[i + 1].location == l);
                } else if entered_loc(s, paths, k, l) {
                    let j = choose|j: int| 0 <= j < k - 1 && enters(s, paths, j) && #[trigger] s[j + 1].location == l;
                    assert(j != i);
                    assert(entered_loc(s, paths, k - 1, l));
                }
                if entered_loc(s, paths, k - 1, l) {
                    let j = choose|j: int| 0 <= j < k - 2 && enters(s, paths, j) && #[trigger] s[j + 1].location == l;
                    assert(entered_loc(s, paths, k, l));
                }
            }
        } else {
            let n = q.len();
            if n == p.len() {
                assert(q =~= p);
                assert(c.location == st.before);
            } else {
                assert(q =~= p.take(n as int));
                if has_sub(c.location, st.before) {
                    lemma_has_sub_len(c.location, st.before);
                }
            }
            assert(nst.map == st.map);
            assert forall|l: Seq<char>|
                #[trigger] nst.map.contains_key(l) == (l == s[0].location || entered_loc(s, paths, k, l)) by {
                if entered_loc(s, paths, k, l) {
                    let j = choose|j: int| 0 <= j < k - 1 && enters(s, paths, j) && #[trigger] s[j + 1].location == l;
                    assert(j != i);
                    assert(entered_loc(s, paths, k - 1, l));
                }
                if entered_loc(s, paths, k - 1, l) {
                    let j = choose|j: int| 0 <= j < k - 2 && enters(s, paths, j) && #[trigger] s[j + 1].location == l;
                    assert(entered_loc(s, paths, k, l));
                }
            }
        }
    }
}

/// Distinct directory paths below one start directory join to distinct
/// locations.
pub proof fn lemma_join_inj(p: Seq<Seq<char>>, q: Seq<Seq<char>>, start_dir: Seq<char>)
    requires
        dir_path(p, start_dir),
        dir_path(q, start_dir),
        join_path(p) == join_path(q),
    ensures
        p == q,
    decreases p.len(),
{
    lemma_join_path(p, start_dir);
    lemma_join_path(q, start_dir);
    if p.len() == 1 {
        assert(q.len() == 1);
        assert(p =~= q);
    } else {
        assert(q.len() == p.len());
        let p1 = p.drop_last();
        let q1 = q.drop_last();
        let a = p.last();
        let b = q.last();
        assert(clean_name(p[p.len() - 1]));
        assert(clean_name(q[q.len() - 1]));
        let jp = join_path(p);
        assert(jp == join_path(p1) + seq!['/'] + a);
        assert(join_path(q) == join_path(q1) + seq!['/'] + b);
        let len = jp.len() as int;
        if a.len() < b.len() {
            assert(jp[len - a.len() - 1] == '/');
            assert(jp[len - a.len() - 1] == b[b.len() - a.len() - 1]);
        } else if b.len() < a.len() {
            assert(jp[len - b.len() - 1] == '/');
            assert(jp[len - b.len() - 1] == a[a.len() - b.len() - 1]);
        }
        assert(a.len() == b.len());
        assert(a =~= jp.subrange(len - a.len(), len));
        assert(b =~= jp.subrange(len - b.len(), len));
        assert(join_path(p1) =~= jp.subrange(0, len - a.len() - 1));
        assert(join_path(q1) =~= jp.subrange(0, len - b.len() - 1));
        assert(dir_path(p1, start_dir)) by {
            assert forall|j: int| 1 <= j < p1.len() implies clean_name(#[trigger] p1[j]) by {
                assert(p1[j] == p[j]);
            }
        }
        assert(dir_path(q1, start_dir)) by {
            assert forall|j: int| 1 <= j < q1.len() implies clean_name(#[trigger] q1[j]) by {
                assert(q1[j] == q[j]);
            }
        }
        lemma_join_inj(p1, q1, start_dir);
        assert(a == b);
        assert(p =~= p1.push(a));
        assert(q =~= q1.push(b));
        assert(p =~= q);
    }
}

/// How the writer treats each step of a walk: it opens a directory exactly
/// where the walk enters it, and writes a `}` line exactly where the walk
/// goes back up.
pub proof fn lemma_walk_steps(s: Seq<ExecSpec>, paths: Seq<Seq<Seq<char>>>, start_dir: Seq<char>, i: int)
    requires
        is_walk(s, paths, start_dir),
        clean_names(s),
        entered_once(s, paths),
        0 <= i < s.len(),
    ensures
        s[i].action == Actions::DIR ==> indent_fold(s).map.contains_key(s[i].location + "/"@ + s[i].name) == (i
            + 1 < s.len() && enters(s, paths, i)),
        i + 1 < s.len() ==> closes_after(s, i) == (!enters(s, paths, i) && paths[i + 1].len() < paths[i].len()),
        i + 1 < s.len() && !enters(s, paths, i) ==> paths[i + 1].len() <= paths[i].len() && paths[i + 1]
            == paths[i].take(paths[i + 1].len() as int),
{
    reveal_strlit("/");
    let n = s.len() as int;
    lemma_keys(s, paths, start_dir, n);
    assert(s.take(n) =~= s);
    let m = indent_fold(s).map;
    let p = paths[i];
    assert(dir_path(p, start_dir));
    lemma_join_path(p, start_dir);
    if s[i].action == Actions::DIR {
        let key = s[i].location + "/"@ + s[i].name;
        let pk = p.push(s[i].name);
        assert(clean_name(s[i].name));
        assert(dir_path(pk, start_dir)) by {
            assert forall|j: int| 1 <= j < pk.len() implies clean_name(#[trigger] pk[j]) by {
                if j < p.len() {
                    assert(pk[j] == p[j]);
                }
            }
        }
        assert(pk.drop_last() =~= p);
        assert(join_path(pk) == join_path(p) + seq!['/'] + s[i].name);
        assert(key =~= join_path(pk));
        lemma_join_path(pk, start_dir);
        if i + 1 < n && enters(s, paths, i) {
            assert(s[i + 1].location == key);
            assert(entered_loc(s, paths, n, key));
        }
        if m.contains_key(key) {
            if key == s[0].location {
                assert(dir_path(paths[0], start_dir));
                assert(join_path(paths[0]) == start_dir);
            } else {
                assert(entered_loc(s, paths, n, key));
                let j = choose|j: int| 0 <= j < n - 1 && enters(s, paths, j) && #[trigger] s[j + 1].location == key;
                assert(dir_path(paths[j + 1], start_dir));
                lemma_join_inj(paths[j + 1], pk, start_dir);
                assert(paths[j + 1] == paths[j].push(s[j].name));
                assert(paths[j] =~= pk.drop_last());
                assert(s[j].name == pk.last());
                assert(dir_path(paths[j], start_dir));
                assert(s[j].location == s[i].location);
                assert(i == j);
            }
        }
    }
    if i + 1 < n {
        assert(walk_step(s, paths, i));
        let q = paths[i + 1];
        assert(dir_path(q, start_dir));
        lemma_join_path(q, start_dir);
        if enters(s, paths, i) {
            assert(q.take(p.len() as int) =~= p);
            assert(join_path(q) == join_path(p) + seq!['/'] + s[i].name);
            if has_sub(s[i].location, s[i + 1].location) {
                lemma_has_sub_len(s[i].location, s[i + 1].location);
            }
        } else {
            if q.len() == p.len() {
                assert(q =~= p);
            } else {
                assert(q =~= p.take(q.len() as int));
                assert(occurs_at(join_path(p), join_path(q), 0));
            }
        }
    }
}

// ---------------------------------------------------------------------------
// The written text as lines
// ---------------------------------------------------------------------------

/// The lines of a text are single lines without quotes or escapes, of
/// which the tokens are known.
pub open spec fn good_lines(l: Seq<Seq<char>>) -> bool {
    single_lines(l) && plain_lines(l)
}

pub proof fn lemma_good_add(a: Seq<Seq<char>>, b: Seq<Seq<char>>)
    requires
        good_lines(a),
        good_lines(b),
    ensures
        good_lines(a + b),
{
    assert forall|i: int| 0 <= i < (a + b).len() implies !has_char(#[trigger] (a + b)[i], '\n') && plain_line(
        (a + b)[i],
    ) by {
        if i < a.len() {
            assert((a + b)[i] == a[i]);
        } else {
            assert((a + b)[i] == b[i - a.len()]);
        }
    }
}

/// The braces that close `n` levels.
pub open spec fn braces(n: int) -> Seq<Seq<char>>
    decreases n,
{
    if n <= 0 {
        Seq::empty()
    } else {
        braces(n - 1).push("}"@)
    }
}

/// The lines written for entry `i` of a listing without pretexts.
pub open spec fn entry_lines(s: Seq<ExecSpec>, m: Map<Seq<char>, int>, i: int) -> Seq<Seq<char>> {
    seq![entry_head(s, m, i, 0)] + (if closes_after(s, i) {
        seq![repeat(pad(), close_indent(s, m, i)) + "}"@]
    } else {
        Seq::empty()
    })
}

/// The lines written for the first `k` entries of a listing without pretexts.
pub open spec fn walk_lines(s: Seq<ExecSpec>, m: Map<Seq<char>, int>, k: int) -> Seq<Seq<char>>
    decreases k,
{
    if k <= 0 {
        Seq::empty()
    } else {
        walk_lines(s, m, k - 1) + entry_lines(s, m, k - 1)
    }
}

/// Whether no entry has a pretext.
pub open spec fn bare(s: Seq<ExecSpec>) -> bool {
    forall|i: int| 0 <= i < s.len() ==> (#[trigger] s[i]).pretext.len() == 0
}

pub proof fn lemma_entry_text_lines(s: Seq<ExecSpec>, m: Map<Seq<char>, int>, i: int)
    ensures
        entry_text(s, m, i, 0) == line_text(entry_lines(s, m, i)),
{
    reveal_strlit("\n");
    let x = entry_head(s, m, i, 0);
    assert("\n"@ =~= seq!['\n']);
    assert(seq![x].drop_last() =~= Seq::<Seq<char>>::empty());
    assert(line_text(seq![x]) == line_text(Seq::<Seq<char>>::empty()) + x + seq!['\n']);
    if closes_after(s, i) {
        let y = repeat(pad(), close_indent(s, m, i)) + "}"@;
        assert(entry_lines(s, m, i) =~= seq![x].push(y));
        assert(seq![x].push(y).drop_last() =~= seq![x]);
        assert(entry_text(s, m, i, 0) =~= line_text(seq![x]) + y + seq!['\n']);
    } else {
        assert(entry_lines(s, m, i) =~= seq![x]);
        assert(entry_text(s, m, i, 0) =~= line_text(seq![x]));
    }
}

pub proof fn lemma_body_lines(s: Seq<ExecSpec>, m: Map<Seq<char>, int>, k: int)
    requires
        bare(s),
        0 <= k <= s.len(),
    ensures
        body_fold(s, m, k) == (line_text(walk_lines(s, m, k)), 0nat, Seq::<Seq<char>>::empty()),
    decreases k,
{
    if k > 0 {
        lemma_body_lines(s, m, k - 1);
        assert(s[k - 1].pretext.len() == 0);
        lemma_entry_text_lines(s, m, k - 1);
        lemma_line_text_add(walk_lines(s, m, k - 1), entry_lines(s, m, k - 1));
    } else {
        assert(line_text(walk_lines(s, m, k)) =~= Seq::<char>::empty());
    }
}

/// A listing without pretexts is written as the lines of its entries.
pub proof fn lemma_wem_lines(s: Seq<ExecSpec>)
    requires
        bare(s),
    ensures
        wem_text(s, None) == line_text(walk_lines(s, indent_fold(s).map, s.len() as int)),
{
    let m = indent_fold(s).map;
    lemma_body_lines(s, m, s.len() as int);
    assert(desc_text(None) =~= Seq::<char>::empty());
    assert(defs_text(Seq::<Seq<char>>::empty()) =~= Seq::<char>::empty());
    assert(wem_text(s, None) =~= line_text(walk_lines(s, m, s.len() as int)));
}

/// The tokens of the line of entry `i`.
pub open spec fn head_tokens(s: Seq<ExecSpec>, m: Map<Seq<char>, int>, i: int) -> Seq<Seq<char>> {
    match s[i].action {
        Actions::DIR => seq!["dir"@, ":"@, s[i].name] + (if m.contains_key(s[i].location + "/"@ + s[i].name) {
            seq!["{"@]
        } else {
            Seq::empty()
        }),
        Actions::FILE => seq!["file"@, ":"@, s[i].name],
    }
}

pub proof fn lemma_entry_lines(s: Seq<ExecSpec>, m: Map<Seq<char>, int>, i: int)
    requires
        0 <= i < s.len(),
        clean_name(s[i].name),
        s[i].pretext.len() == 0,
    ensures
        good_lines(entry_lines(s, m, i)),
        lines_tokens(entry_lines(s, m, i)) == head_tokens(s, m, i) + braces(
            if closes_after(s, i) { 1int } else { 0int },
        ),
{
    let c = s[i];
    let d = indent_of(m, c.location);
    let x = entry_head(s, m, i, 0);
    let p = repeat(pad(), d);
    match c.action {
        Actions::DIR => {
            let open = m.contains_key(c.location + "/"@ + c.name);
            let o = if open { " {"@ } else { Seq::empty() };
            lemma_dir_line(d, c.name, open);
            assert(x =~= p + "dir:"@ + c.name + o);
        },
        Actions::FILE => {
            lemma_file_line(d, c.name);
            assert(x == p + ("file"@ + Seq::empty() + ":"@ + c.name));
        },
    }
    assert(line_tokens(x) == head_tokens(s, m, i));
    assert(good_lines(seq![x])) by {
        assert(seq![x][0] == x);
    }
    assert(seq![x].drop_last() =~= Seq::<Seq<char>>::empty());
    assert(lines_tokens(seq![x]) == lines_tokens(Seq::<Seq<char>>::empty()) + line_tokens(x));
    assert(lines_tokens(seq![x]) =~= line_tokens(x));
    if closes_after(s, i) {
        let k = close_indent(s, m, i);
        let y = repeat(pad(), k) + "}"@;
        lemma_close_line(k);
        assert(good_lines(seq![y])) by {
            assert(seq![y][0] == y);
        }
        lemma_good_add(seq![x], seq![y]);
        lemma_lines_tokens_add(seq![x], seq![y]);
        assert(seq![y].drop_last() =~= Seq::<Seq<char>>::empty());
        assert(lines_tokens(seq![y]) == lines_tokens(Seq::<Seq<char>>::empty()) + line_tokens(y));
        assert(braces(1) == braces(0).push("}"@));
        assert(braces(1) =~= seq!["}"@]);
        assert(lines_tokens(seq![y]) =~= braces(1));
    } else {
        assert(entry_lines(s, m, i) =~= seq![x]);
        assert(head_tokens(s, m, i) + braces(0) =~= head_tokens(s, m, i));
    }
}

// ---------------------------------------------------------------------------
// Reading the tokens back
// ---------------------------------------------------------------------------

/// The tree reader run on `t` from the state `st`.
pub open spec fn tree_run(st: TreeState, t: Seq<Seq<char>>) -> Result<TreeState, WemError>
    decreases t.len(),
{
    if t.len() == 0 {
        Ok(st)
    } else {
        match tree_run(st, t.drop_last()) {
            Ok(x) => tree_step(x, t.last()),
            Err(e) => Err(e),
        }
    }
}

pub proof fn lemma_tree_run_start(start_dir: Seq<char>, t: Seq<Seq<char>>)
    ensures
        tree_fold(start_dir, t) == tree_run(tree_start(start_dir), t),
    decreases t.len(),
{
    if t.len() > 0 {
        lemma_tree_run_start(start_dir, t.drop_last());
    }
}

pub proof fn lemma_tree_run_add(st: TreeState, a: Seq<Seq<char>>, b: Seq<Seq<char>>)
    ensures
        tree_run(st, a + b) == (match tree_run(st, a) {
            Ok(x) => tree_run(x, b),
            Err(e) => Err(e),
        }),
    decreases b.len(),
{
    if b.len() == 0 {
        assert(a + b =~= a);
    } else {
        lemma_tree_run_add(st, a, b.drop_last());
        assert((a + b).drop_last() =~= a + b.drop_last());
        assert((a + b).last() == b.last());
    }
}

/// Whether the reader stands between entries, with no pretext pending.
pub open spec fn between(st: TreeState) -> bool {
    (st.mode == TreeMode::Top || st.mode == TreeMode::DirAfterName) && st.pretext == Seq::<char>::empty()
}

pub proof fn lemma_words()
    ensures
        "dir"@ != "file"@,
        "dir"@ != "}"@,
        "dir"@ != "{"@,
        "file"@ != "}"@,
        "file"@ != "{"@,
        "}"@ != "{"@,
        ":"@ != "\""@,
        ":"@ != "("@,
        Seq::<char>::empty() != "dir"@,
        Seq::<char>::empty() != "file"@,
        Seq::<char>::empty() != "}"@,
{
    reveal_strlit("dir");
    reveal_strlit("file");
    reveal_strlit("}");
    reveal_strlit("{");
    reveal_strlit(":");
    reveal_strlit("\"");
    assert("}"@[0] != "{"@[0]);
    assert(":"@[0] != "\""@[0]);
    reveal_strlit("(");
    assert(":"@[0] != "("@[0]);
    assert("dir"@.len() != "file"@.len());
    assert(Seq::<char>::empty().len() != "dir"@.len());
    assert(Seq::<char>::empty().len() != "file"@.len());
    assert(Seq::<char>::empty().len() != "}"@.len());
}

pub proof fn lemma_run_braces(st: TreeState, n: int)
    requires
        between(st),
        0 <= n < st.path.len(),
    ensures
        tree_run(st, braces(n)) == Ok::<TreeState, WemError>(
            if n == 0 {
                st
            } else {
                TreeState { mode: TreeMode::Top, path: st.path.take(st.path.len() - n), ..st }
            },
        ),
    decreases n,
{
    lemma_words();
    if n == 0 {
        assert(braces(n) =~= Seq::<Seq<char>>::empty());
    } else {
        lemma_run_braces(st, n - 1);
        assert(braces(n).drop_last() == braces(n - 1));
        assert(braces(n).last() == "}"@);
        let x = if n - 1 == 0 {
            st
        } else {
            TreeState { mode: TreeMode::Top, path: st.path.take(st.path.len() - (n - 1)), ..st }
        };
        assert(x.path.len() == st.path.len() - (n - 1));
        assert(x.path.drop_last() =~= st.path.take(st.path.len() - n));
    }
}

/// The tokens of a directory line, read between entries.
pub proof fn lemma_run_dir(st: TreeState, name: Seq<char>, open: bool)
    requires
        between(st),
        st.path.len() >= 1,
        clean_name(name),
    ensures
        tree_run(st, seq!["dir"@, ":"@, name] + (if open { seq!["{"@] } else { Seq::empty() })) matches Ok(x)
            && between(x) && x.out == st.out.push(
            ExecSpec { action: Actions::DIR, name: name, location: join_path(st.path), pretext: Seq::empty() },
        ) && x.path == (if open { st.path.push(name) } else { st.path }) && (x.mode == TreeMode::DirAfterName
            ==> !open && x.name == name),
{
    lemma_words();
    let e = Seq::<Seq<char>>::empty();
    let t3 = e.push("dir"@).push(":"@).push(name);
    assert(t3 =~= seq!["dir"@, ":"@, name]);
    assert(t3.drop_last().drop_last().drop_last() =~= e);
    let x1 = tree_step(st, "dir"@)->Ok_0;
    assert(e.push("dir"@).drop_last() =~= e);
    assert(e.push("dir"@).push(":"@).drop_last() =~= e.push("dir"@));
    assert(t3.drop_last() =~= e.push("dir"@).push(":"@));
    assert(tree_run(st, e) == Ok::<TreeState, WemError>(st));
    assert(tree_run(st, e.push("dir"@)) == tree_step(st, "dir"@));
    assert(x1.mode == TreeMode::DirColon && x1.loc == join_path(st.path) && x1.path == st.path && x1.out == st.out
        && x1.pretext == st.pretext);
    let x2 = tree_step(x1, ":"@)->Ok_0;
    assert(tree_run(st, e.push("dir"@).push(":"@)) == tree_step(x1, ":"@));
    let x3 = tree_step(x2, name)->Ok_0;
    assert(tree_run(st, t3) == tree_step(x2, name));
    assert(x3.mode == TreeMode::DirAfterName && x3.name == name);
    if open {
        let t4 = t3.push("{"@);
        assert(t4 =~= seq!["dir"@, ":"@, name] + seq!["{"@]);
        assert(t4.drop_last() =~= t3);
        assert(tree_run(st, t4) == tree_step(x3, "{"@));
    } else {
        assert(seq!["dir"@, ":"@, name] + Seq::<Seq<char>>::empty() =~= t3);
    }
}

/// The tokens of a file line, read between entries.
pub proof fn lemma_run_file(st: TreeState, name: Seq<char>)
    requires
        between(st),
        st.path.len() >= 1,
        clean_name(name),
    ensures
        tree_run(st, seq!["file"@, ":"@, name]) matches Ok(x) && between(x) && x.mode == TreeMode::Top && x.out
            == st.out.push(
            ExecSpec { action: Actions::FILE, name: name, location: join_path(st.path), pretext: Seq::empty() },
        ) && x.path == st.path,
{
    lemma_words();
    reveal_strlit("\"");
    assert(name != "\""@) by {
        if name == "\""@ {
            assert(name[0] == '"');
            assert(is_special(name[0]));
        }
    }
    let e = Seq::<Seq<char>>::empty();
    let t3 = e.push("file"@).push(":"@).push(name);
    assert(t3 =~= seq!["file"@, ":"@, name]);
    assert(t3.drop_last().drop_last().drop_last() =~= e);
    let x1 = tree_step(st, "file"@)->Ok_0;
    assert(e.push("file"@).drop_last() =~= e);
    assert(e.push("file"@).push(":"@).drop_last() =~= e.push("file"@));
    assert(t3.drop_last() =~= e.push("file"@).push(":"@));
    assert(tree_run(st, e) == Ok::<TreeState, WemError>(st));
    assert(tree_run(st, e.push("file"@)) == tree_step(st, "file"@));
    assert(x1.mode == TreeMode::FileStart && x1.loc == join_path(st.path));
    let x2 = tree_step(x1, ":"@)->Ok_0;
    assert(tree_run(st, e.push("file"@).push(":"@)) == tree_step(x1, ":"@));
    assert(x2.mode == TreeMode::FileName);
    assert(tree_run(st, t3) == tree_step(x2, name));
    let x3 = tree_step(x2, name)->Ok_0;
    assert(x3.mode == TreeMode::Top);
    assert(x3.pretext == Seq::<char>::empty());
}


/// Whether every entry name of `s` reads back as one token.
pub open spec fn clean_names(s: Seq<ExecSpec>) -> bool {
    forall|i: int| 0 <= i < s.len() ==> clean_name(#[trigger] s[i].name)
}

pub proof fn lemma_walk_good(s: Seq<ExecSpec>, m: Map<Seq<char>, int>, k: int)
    requires
        clean_names(s),
        bare(s),
        0 <= k <= s.len(),
    ensures
        good_lines(walk_lines(s, m, k)),
    decreases k,
{
    if k > 0 {
        lemma_walk_good(s, m, k - 1);
        assert(clean_name(s[k - 1].name));
        assert(s[k - 1].pretext.len() == 0);
        lemma_entry_lines(s, m, k - 1);
        lemma_good_add(walk_lines(s, m, k - 1), entry_lines(s, m, k - 1));
    } else {
        assert(walk_lines(s, m, k) =~= Seq::<Seq<char>>::empty());
    }
}

/// A `}` read between entries leaves the reader between entries.
pub proof fn lemma_run_last_brace(st: TreeState)
    requires
        between(st),
    ensures
        tree_run(st, braces(1)) matches Ok(x) && between(x) && x.mode == TreeMode::Top && x.out == st.out,
{
    lemma_words();
    assert(braces(0) =~= Seq::<Seq<char>>::empty());
    assert(braces(1) == braces(0).push("}"@));
    assert(braces(1) =~= seq!["}"@]);
    assert(braces(1).drop_last() =~= Seq::<Seq<char>>::empty());
    assert(tree_run(st, Seq::<Seq<char>>::empty()) == Ok::<TreeState, WemError>(st));
    assert(tree_run(st, braces(1)) == tree_step(st, "}"@));
}

/// Reading back the text of entry `i` of a walk, from where the reader
/// stands after the entries before it.
pub proof fn lemma_run_entry(
    s: Seq<ExecSpec>,
    paths: Seq<Seq<Seq<char>>>,
    start_dir: Seq<char>,
    i: int,
    st: TreeState,
)
    requires
        is_walk(s, paths, start_dir),
        clean_names(s),
        bare(s),
        climbs_one(s, paths),
        entered_once(s, paths),
        0 <= i < s.len(),
        between(st),
        st.path == paths[i],
        st.out == s.take(i),
    ensures
        tree_run(st, lines_tokens(entry_lines(s, indent_fold(s).map, i))) matches Ok(x) && between(x) && x.out
            == s.take(i + 1) && (i + 1 < s.len() ==> x.path == paths[i + 1]) && (i + 1 == s.len() ==> x.mode
            == TreeMode::Top),
{
    let m = indent_fold(s).map;
    let c = s[i];
    assert(clean_name(c.name));
    assert(c.pretext.len() == 0);
    assert(dir_path(paths[i], start_dir));
    lemma_entry_lines(s, m, i);
    lemma_walk_steps(s, paths, start_dir, i);
    let nb = if closes_after(s, i) { 1int } else { 0int };
    let ht = head_tokens(s, m, i);
    lemma_tree_run_add(st, ht, braces(nb));
    assert(s.take(i + 1) =~= s.take(i).push(c));
    assert(c.pretext =~= Seq::<char>::empty());
    let x1 = tree_run(st, ht)->Ok_0;
    match c.action {
        Actions::DIR => {
            lemma_run_dir(st, c.name, m.contains_key(c.location + "/"@ + c.name));
        },
        Actions::FILE => {
            lemma_run_file(st, c.name);
        },
    }
    assert(tree_run(st, ht) is Ok);
    assert(x1.out == s.take(i + 1));
    if i + 1 < s.len() {
        assert(dir_path(paths[i + 1], start_dir));
        assert(paths[i + 1].len() + 1 >= paths[i].len());
        if enters(s, paths, i) {
            lemma_run_braces(x1, 0);
        } else {
            assert(x1.path == paths[i]);
            lemma_run_braces(x1, nb);
            if nb == 1 {
                assert(paths[i].take(paths[i].len() - 1) == paths[i + 1]);
            } else {
                assert(paths[i + 1] =~= paths[i]);
            }
        }
    } else {
        lemma_run_last_brace(x1);
    }
}

/// Reading back the text of the first `k` entries of a walk.
pub proof fn lemma_run_walk(s: Seq<ExecSpec>, paths: Seq<Seq<Seq<char>>>, start_dir: Seq<char>, k: int)
    requires
        is_walk(s, paths, start_dir),
        clean_names(s),
        bare(s),
        climbs_one(s, paths),
        entered_once(s, paths),
        0 <= k <= s.len(),
    ensures
        tree_run(
            tree_start(start_dir),
            seq![Seq::<char>::empty()] + lines_tokens(walk_lines(s, indent_fold(s).map, k)),
        ) matches Ok(x) && between(x) && x.out == s.take(k) && (k < s.len() ==> x.path == paths[k]) && (k
            == s.len() ==> x.mode == TreeMode::Top),
    decreases k,
{
    let m = indent_fold(s).map;
    let e = seq![Seq::<char>::empty()];
    if k == 0 {
        lemma_words();
        assert(walk_lines(s, m, 0) =~= Seq::<Seq<char>>::empty());
        assert(lines_tokens(Seq::<Seq<char>>::empty()) =~= Seq::<Seq<char>>::empty());
        assert(e + lines_tokens(walk_lines(s, m, 0)) =~= e);
        assert(e.drop_last() =~= Seq::<Seq<char>>::empty());
        assert(e.last() == Seq::<char>::empty());
        assert(tree_run(tree_start(start_dir), Seq::<Seq<char>>::empty()) == Ok::<TreeState, WemError>(
            tree_start(start_dir),
        ));
        assert(tree_run(tree_start(start_dir), e) == tree_step(tree_start(start_dir), Seq::<char>::empty()));
        assert(s.take(0) =~= Seq::<ExecSpec>::empty());
    } else {
        lemma_run_walk(s, paths, start_dir, k - 1);
        let a = e + lines_tokens(walk_lines(s, m, k - 1));
        let x = tree_run(tree_start(start_dir), a)->Ok_0;
        lemma_run_entry(s, paths, start_dir, k - 1, x);
        lemma_lines_tokens_add(walk_lines(s, m, k - 1), entry_lines(s, m, k - 1));
        assert(e + lines_tokens(walk_lines(s, m, k)) =~= a + lines_tokens(entry_lines(s, m, k - 1)));
        lemma_tree_run_add(tree_start(start_dir), a, lines_tokens(entry_lines(s, m, k - 1)));
    }
}

// ---------------------------------------------------------------------------
// Lines lex on their own
// ---------------------------------------------------------------------------

/// The number of quotes in `x`.
pub open spec fn quotes(x: Seq<char>) -> int
    decreases x.len(),
{
    if x.len() == 0 {
        0
    } else {
        quotes(x.drop_last()) + (if x.last() == '"' { 1int } else { 0int })
    }
}

/// The number of quotes in the lines `l`.
pub open spec fn line_quotes(l: Seq<Seq<char>>) -> int
    decreases l.len(),
{
    if l.len() == 0 {
        0
    } else {
        line_quotes(l.drop_last()) + quotes(l.last())
    }
}

/// The number of segments that hold a quote.
pub open spec fn quoted_segs(segs: Seq<Seq<char>>) -> int
    decreases segs.len(),
{
    if segs.len() == 0 {
        0
    } else {
        quoted_segs(segs.drop_last()) + (if has_char(segs.last(), '"') { 1int } else { 0int })
    }
}

/// Whether no line holds a backslash.
pub open spec fn no_escapes(l: Seq<Seq<char>>) -> bool {
    forall|i: int| 0 <= i < l.len() ==> !has_char(#[trigger] l[i], '\\')
}

/// The first-pass state `st` with `d` put before its finished segments.
pub open spec fn shifted(st: LexState, d: Seq<Seq<char>>) -> LexState {
    LexState { done: d + st.done, ..st }
}

pub proof fn lemma_lex_char_shift(st: LexState, d: Seq<Seq<char>>, c: char)
    ensures
        lex_char(shifted(st, d), c) == shifted(lex_char(st, c), d),
{
    assert((d + st.done).push(st.cur).push(seq![c]) =~= d + st.done.push(st.cur).push(seq![c]));
}

pub proof fn lemma_lex_chars_shift(st: LexState, d: Seq<Seq<char>>, x: Seq<char>)
    ensures
        lex_chars(shifted(st, d), x) == shifted(lex_chars(st, x), d),
    decreases x.len(),
{
    if x.len() > 0 {
        lemma_lex_chars_shift(st, d, x.drop_last());
        lemma_lex_char_shift(lex_chars(st, x.drop_last()), d, x.last());
    }
}

/// Without a backslash, the first pass never has an escape pending, keeps
/// quotes out of the segment being read, gives each quote a segment of its
/// own, and has a quote open after an odd number of them.
pub proof fn lemma_lex_quotes(st: LexState, x: Seq<char>)
    requires
        !st.esc,
        !has_char(st.cur, '"'),
        !has_char(x, '\\'),
    ensures
        !lex_chars(st, x).esc,
        !has_char(lex_chars(st, x).cur, '"'),
        quoted_segs(lex_chars(st, x).done) == quoted_segs(st.done) + quotes(x),
        lex_chars(st, x).dq == (if quotes(x) % 2 == 1 { !st.dq } else { st.dq }),
    decreases x.len(),
{
    if x.len() > 0 {
        let y = x.drop_last();
        let c = x.last();
        assert(x[x.len() - 1] == c);
        assert(!has_char(y, '\\')) by {
            if has_char(y, '\\') {
                let j = choose|j: int| 0 <= j < y.len() && y[j] == '\\';
                assert(x[j] == '\\');
            }
        }
        lemma_lex_quotes(st, y);
        let t = lex_chars(st, y);
        let r = lex_char(t, c);
        assert(r == lex_chars(st, x));
        let dq = if c == '"' && !t.esc { !t.dq } else { t.dq };
        if (is_special(c) && !dq) || (c == '"' && dq) {
            let dn = t.done.push(t.cur).push(seq![c]);
            assert(dn.drop_last() =~= t.done.push(t.cur));
            assert(t.done.push(t.cur).drop_last() =~= t.done);
            assert(has_char(seq![c], '"') == (c == '"')) by {
                assert(seq![c][0] == c);
            }
            assert(!has_char(Seq::<char>::empty(), '"'));
            assert(dn.last() == seq![c]);
            assert(t.done.push(t.cur).last() == t.cur);
            assert(quoted_segs(t.done.push(t.cur)) == quoted_segs(t.done));
            assert(quoted_segs(dn) == quoted_segs(t.done.push(t.cur)) + (if has_char(seq![c], '"') {
                1int
            } else {
                0int
            }));
            assert(r.done == dn);
        } else {
            assert(c != '"');
            assert(!has_char(t.cur.push(c), '"')) by {
                if has_char(t.cur.push(c), '"') {
                    let j = choose|j: int| 0 <= j < t.cur.push(c).len() && t.cur.push(c)[j] == '"';
                    if j < t.cur.len() {
                        assert(t.cur[j] == '"');
                    }
                }
            }
        }
    }
}

/// The first pass over lines without backslashes from a state between
/// lines: the result has no escape pending, nothing being read, and a quote
/// open after an odd number of quotes.
pub proof fn lemma_lex_lines_quotes(l: Seq<Seq<char>>)
    requires
        no_escapes(l),
    ensures
        !lex_lines(l).esc,
        lex_lines(l).cur == Seq::<char>::empty(),
        quoted_segs(lex_lines(l).done) == line_quotes(l),
        lex_lines(l).dq == (line_quotes(l) % 2 == 1),
    decreases l.len(),
{
    if l.len() > 0 {
        let k = l.drop_last();
        assert(no_escapes(k)) by {
            assert forall|i: int| 0 <= i < k.len() implies !has_char(#[trigger] k[i], '\\') by {
                assert(k[i] == l[i]);
            }
        }
        lemma_lex_lines_quotes(k);
        assert(!has_char(l[l.len() - 1], '\\'));
        assert(!has_char(Seq::<char>::empty(), '"'));
        lemma_lex_quotes(lex_lines(k), l.last());
        let t = lex_chars(lex_lines(k), l.last());
        assert(t.done.push(t.cur).drop_last() =~= t.done);
    }
}

pub proof fn lemma_select_quotes(segs: Seq<Seq<char>>)
    ensures
        select(segs).0 == (quoted_segs(segs) % 2 == 1),
        select(segs).1.len() >= 1,
        select(segs).1[0] == Seq::<char>::empty(),
    decreases segs.len(),
{
    if segs.len() > 0 {
        lemma_select_quotes(segs.drop_last());
    }
}

pub proof fn lemma_select_add(a: Seq<Seq<char>>, b: Seq<Seq<char>>)
    requires
        !select(a).0,
    ensures
        select(a + b) == (select(b).0, select(a).1 + select(b).1.drop_first()),
    decreases b.len(),
{
    lemma_select_quotes(b);
    if b.len() == 0 {
        assert(a + b =~= a);
        assert(select(a).1 + select(b).1.drop_first() =~= select(a).1);
    } else {
        lemma_select_add(a, b.drop_last());
        lemma_select_quotes(b.drop_last());
        assert((a + b).drop_last() =~= a + b.drop_last());
        assert((a + b).last() == b.last());
        let ob = select(b.drop_last()).1;
        let seg = b.last();
        let t = trim(seg);
        assert((select(a).1 + ob.drop_first()).push(t) =~= select(a).1 + ob.push(t).drop_first());
        assert((select(a).1 + ob.drop_first()).push(seg) =~= select(a).1 + ob.push(seg).drop_first());
    }
}

pub proof fn lemma_lex_lines_add(a: Seq<Seq<char>>, b: Seq<Seq<char>>)
    requires
        !lex_lines(a).esc,
        !lex_lines(a).dq,
        lex_lines(a).cur == Seq::<char>::empty(),
    ensures
        lex_lines(a + b) == shifted(lex_lines(b), lex_lines(a).done),
    decreases b.len(),
{
    let d = lex_lines(a).done;
    if b.len() == 0 {
        assert(a + b =~= a);
        assert(d + lex_start().done =~= d);
    } else {
        lemma_lex_lines_add(a, b.drop_last());
        assert((a + b).drop_last() =~= a + b.drop_last());
        assert((a + b).last() == b.last());
        lemma_lex_chars_shift(lex_lines(b.drop_last()), d, b.last());
        let t = lex_chars(lex_lines(b.drop_last()), b.last());
        assert((d + t.done).push(t.cur) =~= d + t.done.push(t.cur));
    }
}

} // verus!
