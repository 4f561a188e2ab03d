//! Properties of the script reader and writer that span calls or hold of all inputs.
use vstd::prelude::*;

use crate::cards::{card_value, scan_chars, subst_all, subst_token, CardEnv};
use crate::lexer::{lex_chars, lex_lines, lex_start, lexed, select, segments, is_special, LexState};
use crate::text::{has_char, trim, trim_end, trim_start};
use crate::defs::{def_fold, def_start, defs_of, DefMode, DefState};
use crate::tree::{join_path, tree_fold, tree_of, TreeMode, TreeState};
use crate::headers::{dref_of, first_index, lemma_first_index};
use crate::structure::{Actions, ExecSpec};
use crate::writer::{body_fold, has_pretext};
use crate::paths::is_last_sep;
use crate::error::WemError;
use crate::reread::{
    bare, clean_names, climbs_one, entered_once, is_walk, lemma_lex_lines_add, lemma_lex_lines_quotes, lemma_select_add, lemma_select_quotes,
    lemma_trim_colon, line_quotes, no_escapes, lemma_lexed_plain, lemma_run_walk, lemma_text_lines, lemma_tree_run_start,
    lemma_walk_good, lemma_wem_lines, text_lines, walk_lines, line_text, quoted_segs,
};
use crate::headers::{desc_fold, desc_of, DescMode};
use crate::make::file_pretext;
use crate::writer::{indent_fold, wem_text};

verus! {

/// The token list of any script starts with an empty token.
pub proof fn law_lexed_starts_empty(lines: Seq<Seq<char>>)
    ensures
        lexed(lines).len() >= 1,
        lexed(lines)[0] == Seq::<char>::empty(),
{
    lemma_select_first(segments(lines));
}

proof fn lemma_select_first(segs: Seq<Seq<char>>)
    ensures
        select(segs).1.len() >= 1,
        select(segs).1[0] == Seq::<char>::empty(),
    decreases segs.len(),
{
    if segs.len() > 0 {
        lemma_select_first(segs.drop_last());
    }
}

/// Text without `%` is left as it stands by card replacement, whatever the
/// variables, names and time.
pub proof fn law_text_without_cards(env: CardEnv, s: Seq<char>)
    requires
        !has_char(s, '%'),
    ensures
        subst_token(env, s) == Some(Ok::<Seq<char>, crate::error::WemError>(s)),
{
    lemma_scan_plain(env, s);
}

proof fn lemma_scan_plain(env: CardEnv, s: Seq<char>)
    requires
        !has_char(s, '%'),
    ensures
        scan_chars(env, s) matches Ok((in_card, _, line)) && !in_card && line == s,
    decreases s.len(),
{
    if s.len() > 0 {
        assert(!has_char(s.drop_last(), '%')) by {
            if has_char(s.drop_last(), '%') {
                let i = choose|i: int| 0 <= i < s.drop_last().len() && s.drop_last()[i] == '%';
                assert(s[i] == '%');
            }
        }
        lemma_scan_plain(env, s.drop_last());
        assert(s.last() != '%') by {
            if s.last() == '%' {
                assert(s[s.len() - 1] == '%');
            }
        }
        assert(s.drop_last().push(s.last()) =~= s);
    }
}

proof fn lemma_scan_card_body(env: CardEnv, n: Seq<char>)
    requires
        !has_char(n, '%'),
    ensures
        scan_chars(env, seq!['%'] + n) == Ok::<(bool, Seq<char>, Seq<char>), crate::error::WemError>(
            (true, n, Seq::empty()),
        ),
    decreases n.len(),
{
    let s = seq!['%'] + n;
    if n.len() == 0 {
        assert(s =~= seq!['%']);
        assert(n =~= Seq::<char>::empty());
        assert(s.drop_last() =~= Seq::<char>::empty());
        assert(scan_chars(env, s.drop_last()) == Ok::<(bool, Seq<char>, Seq<char>), crate::error::WemError>(
            (false, Seq::empty(), Seq::empty()),
        ));
    } else {
        assert(!has_char(n.drop_last(), '%')) by {
            if has_char(n.drop_last(), '%') {
                let i = choose|i: int| 0 <= i < n.drop_last().len() && n.drop_last()[i] == '%';
                assert(n[i] == '%');
            }
        }
        lemma_scan_card_body(env, n.drop_last());
        assert(s.drop_last() =~= seq!['%'] + n.drop_last());
        assert(n.last() != '%') by {
            if n.last() == '%' {
                assert(n[n.len() - 1] == '%');
            }
        }
        assert(s.last() == n.last());
        assert(n.drop_last().push(n.last()) =~= n);
    }
}

/// A token that is one card `%name%` is replaced by the value of the card:
/// the project name, the time, a quote, the script directory or the
/// variable `name`, or the error of an unknown card.
pub proof fn law_card_replaced(env: CardEnv, n: Seq<char>)
    requires
        !has_char(n, '%'),
    ensures
        subst_token(env, seq!['%'] + n + seq!['%']) == match card_value(env, n) {
            Ok(v) => Some(Ok::<Seq<char>, crate::error::WemError>(v)),
            Err(e) => Some(Err(e)),
        },
{
    lemma_scan_card_body(env, n);
    let s = seq!['%'] + n + seq!['%'];
    assert(s.drop_last() =~= seq!['%'] + n);
    assert(s.last() == '%');
    match card_value(env, n) {
        Ok(v) => {
            assert(Seq::<char>::empty() + v =~= v);
        },
        Err(e) => {},
    }
}

/// Card replacement keeps the number of tokens, and replaces each token on
/// its own.
pub proof fn law_subst_tokenwise(env: CardEnv, t: Seq<Seq<char>>)
    ensures
        subst_all(env, t) matches Some(Ok(v)) ==> {
            &&& v.len() == t.len()
            &&& forall|i: int| 0 <= i < t.len() ==> subst_token(env, #[trigger] t[i]) == Some(
                Ok::<Seq<char>, crate::error::WemError>(v[i]),
            )
        },
    decreases t.len(),
{
    if t.len() > 0 {
        law_subst_tokenwise(env, t.drop_last());
        if let Some(Ok(v)) = subst_all(env, t) {
            assert forall|i: int| 0 <= i < t.len() implies subst_token(env, #[trigger] t[i]) == Some(
                Ok::<Seq<char>, crate::error::WemError>(v[i]),
            ) by {
                if i < t.len() - 1 {
                    assert(t.drop_last()[i] == t[i]);
                }
            }
        }
    }
}


proof fn lemma_plain_chars(w: Seq<char>)
    requires
        forall|i: int| 0 <= i < w.len() ==> !is_special(#[trigger] w[i]) && w[i] != '\\',
    ensures
        lex_chars(lex_start(), w) == (LexState { done: Seq::empty(), cur: w, dq: false, esc: false }),
    decreases w.len(),
{
    if w.len() == 0 {
        assert(w =~= Seq::<char>::empty());
    } else {
        assert forall|i: int| 0 <= i < w.drop_last().len() implies !is_special(#[trigger] w.drop_last()[i])
            && w.drop_last()[i] != '\\' by {
            assert(w.drop_last()[i] == w[i]);
        }
        lemma_plain_chars(w.drop_last());
        assert(!is_special(w[w.len() - 1]) && w[w.len() - 1] != '\\');
        assert(w.drop_last().push(w.last()) =~= w);
    }
}

/// A line of plain text (no quote, no `: { } ( ) =`, no backslash) that is
/// not blank lexes to the empty first token and the trimmed line.
pub proof fn law_plain_line(w: Seq<char>)
    requires
        forall|i: int| 0 <= i < w.len() ==> !is_special(#[trigger] w[i]) && w[i] != '\\',
        trim(w) != Seq::<char>::empty(),
    ensures
        lexed(seq![w]) == seq![Seq::<char>::empty(), trim(w)],
{
    lemma_plain_chars(w);
    let lines = seq![w];
    assert(lines.drop_last() =~= Seq::<Seq<char>>::empty());
    assert(lines.last() == w);
    assert(lex_lines(lines.drop_last()) == lex_start());
    let st = lex_lines(lines);
    assert(st.done =~= Seq::<Seq<char>>::empty().push(w));
    assert(st.done =~= seq![w]);
    let segs = segments(lines);
    assert(segs =~= seq![w, Seq::<char>::empty()]);
    assert(!has_char(w, '"')) by {
        if has_char(w, '"') {
            let i = choose|i: int| 0 <= i < w.len() && w[i] == '"';
            assert(is_special(w[i]));
        }
    }
    assert(segs.drop_last() =~= seq![w]);
    assert(segs.drop_last().drop_last() =~= Seq::<Seq<char>>::empty());
    let e = Seq::<char>::empty();
    assert(!has_char(e, '"'));
    assert(trim_start(e) == e);
    assert(trim_end(e) == e);
    assert(trim(e) == e);
    assert(select(segs.drop_last().drop_last()) == (false, seq![e]));
    assert(segs.drop_last().last() == w);
    assert(select(segs.drop_last()) == (false, seq![e].push(trim(w))));
    assert(select(segs.drop_last()).1 =~= seq![e, trim(w)]);
    assert(segs.last() == e);
    assert(lexed(lines) =~= seq![e, trim(w)]);
}

/// Appending a definition `def : name = value` to a script whose
/// definitions are complete binds `name` to `value`, replacing an earlier
/// binding of `name` and keeping the others.
pub proof fn law_definition_appended(t: Seq<Seq<char>>, n: Seq<char>, v: Seq<char>)
    requires
        defs_of(t) is Some,
        defs_of(t)->0 is Ok,
        n != "{"@,
        v != "\""@,
    ensures
        defs_of(t + seq!["def"@, ":"@, n, "="@, v]) == Some(
            Ok::<Map<Seq<char>, Seq<char>>, crate::error::WemError>(defs_of(t)->0->Ok_0.insert(n, v)),
        ),
{
    let u = t + seq!["def"@, ":"@, n, "="@, v];
    assert(u.drop_last() =~= t + seq!["def"@, ":"@, n, "="@]);
    assert(u.drop_last().drop_last() =~= t + seq!["def"@, ":"@, n]);
    assert(u.drop_last().drop_last().drop_last() =~= t + seq!["def"@, ":"@]);
    assert(u.drop_last().drop_last().drop_last().drop_last() =~= t + seq!["def"@]);
    assert(u.drop_last().drop_last().drop_last().drop_last().drop_last() =~= t);
    let st = def_fold(t)->Ok_0;
    assert(st.mode == DefMode::Top);
    assert(def_fold(t + seq!["def"@]) is Ok);
    assert(def_fold(t + seq!["def"@])->Ok_0.mode == DefMode::AfterDef);
    assert(def_fold(t + seq!["def"@, ":"@])->Ok_0.mode == DefMode::AfterColon);
    assert(def_fold(t + seq!["def"@, ":"@, n])->Ok_0.mode == DefMode::ExpectEq);
    assert(def_fold(t + seq!["def"@, ":"@, n, "="@])->Ok_0.mode == DefMode::Value);
    assert(def_fold(u)->Ok_0.vars == st.vars.insert(n, v));
}

/// The tree reader always has a start directory open, and carries no
/// pretext between entries.
pub proof fn lemma_tree_state(sd: Seq<char>, t: Seq<Seq<char>>)
    ensures
        tree_fold(sd, t) matches Ok(st) ==> {
            &&& st.path.len() >= 1
            &&& (st.mode == TreeMode::Top || st.mode == TreeMode::DirColon || st.mode == TreeMode::DirName
                || st.mode == TreeMode::DirAfterName || st.mode == TreeMode::FileStart) ==> st.pretext
                == Seq::<char>::empty()
        },
    decreases t.len(),
{
    if t.len() > 0 {
        lemma_tree_state(sd, t.drop_last());
    }
}

/// Appending `file : name` to a script read up to a complete entry adds a
/// file entry with that name and no pretext, located at the open directories.
pub proof fn law_file_appended(sd: Seq<char>, t: Seq<Seq<char>>, n: Seq<char>)
    requires
        tree_fold(sd, t) is Ok,
        tree_fold(sd, t)->Ok_0.mode == TreeMode::Top,
        n != "\""@,
    ensures
        ({
            let st = tree_fold(sd, t)->Ok_0;
            tree_fold(sd, t + seq!["file"@, ":"@, n]) == Ok::<TreeState, crate::error::WemError>(
                TreeState {
                    mode: TreeMode::Top,
                    loc: join_path(st.path),
                    pretext: Seq::empty(),
                    out: st.out.push(
                        ExecSpec {
                            action: Actions::FILE,
                            name: n,
                            location: join_path(st.path),
                            pretext: Seq::empty(),
                        },
                    ),
                    ..st
                },
            )
        }),
{
    lemma_tree_state(sd, t);
    reveal_strlit("file");
    reveal_strlit("dir");
    reveal_strlit(":");
    reveal_strlit("(");
    let u = t + seq!["file"@, ":"@, n];
    assert(u.drop_last() =~= t + seq!["file"@, ":"@]);
    assert(u.drop_last().drop_last() =~= t + seq!["file"@]);
    assert(u.drop_last().drop_last().drop_last() =~= t);
    assert("file"@.len() == 4 && "dir"@.len() == 3);
    assert(":"@[0] == ':' && "("@[0] == '(');
    assert(":"@ != "("@);
    assert(tree_fold(sd, t + seq!["file"@])->Ok_0.mode == TreeMode::FileStart);
    assert(tree_fold(sd, t + seq!["file"@, ":"@])->Ok_0.mode == TreeMode::FileName);
}

/// A directory opened by `dir : name {` is closed by `}`: the open
/// directories are as before, and one directory entry is added.
pub proof fn law_dir_block_closes(sd: Seq<char>, t: Seq<Seq<char>>, n: Seq<char>)
    requires
        tree_fold(sd, t) is Ok,
        tree_fold(sd, t)->Ok_0.mode == TreeMode::Top,
    ensures
        ({
            let st = tree_fold(sd, t)->Ok_0;
            tree_fold(sd, t + seq!["dir"@, ":"@, n, "{"@, "}"@]) == Ok::<TreeState, crate::error::WemError>(
                TreeState {
                    mode: TreeMode::Top,
                    loc: join_path(st.path),
                    name: n,
                    out: st.out.push(
                        ExecSpec {
                            action: Actions::DIR,
                            name: n,
                            location: join_path(st.path),
                            pretext: Seq::empty(),
                        },
                    ),
                    ..st
                },
            )
        }),
{
    lemma_tree_state(sd, t);
    reveal_strlit("dir");
    reveal_strlit("file");
    reveal_strlit("}");
    let st = tree_fold(sd, t)->Ok_0;
    let u = t + seq!["dir"@, ":"@, n, "{"@, "}"@];
    assert(u.drop_last() =~= t + seq!["dir"@, ":"@, n, "{"@]);
    assert(u.drop_last().drop_last() =~= t + seq!["dir"@, ":"@, n]);
    assert(u.drop_last().drop_last().drop_last() =~= t + seq!["dir"@, ":"@]);
    assert(u.drop_last().drop_last().drop_last().drop_last() =~= t + seq!["dir"@]);
    assert(u.drop_last().drop_last().drop_last().drop_last().drop_last() =~= t);
    assert("}"@.len() == 1 && "dir"@.len() == 3 && "file"@.len() == 4);
    assert("}"@ != "dir"@);
    assert("}"@ != "file"@);
    assert(tree_fold(sd, t + seq!["dir"@])->Ok_0.mode == TreeMode::DirColon);
    assert(tree_fold(sd, t + seq!["dir"@, ":"@])->Ok_0.mode == TreeMode::DirName);
    assert(tree_fold(sd, t + seq!["dir"@, ":"@, n])->Ok_0.mode == TreeMode::DirAfterName);
    let s4 = tree_fold(sd, t + seq!["dir"@, ":"@, n, "{"@])->Ok_0;
    assert(s4.path == st.path.push(n));
    assert(s4.path.drop_last() =~= st.path);
}

/// An entry read inside `dir : name { ... }` is located at the directory's
/// own location followed by `/` and `name`.
pub proof fn law_entry_inside_dir(sd: Seq<char>, t: Seq<Seq<char>>, n: Seq<char>, f: Seq<char>)
    requires
        tree_fold(sd, t) is Ok,
        tree_fold(sd, t)->Ok_0.mode == TreeMode::Top,
        f != "\""@,
    ensures
        ({
            let st = tree_fold(sd, t)->Ok_0;
            let after = tree_fold(sd, t + seq!["dir"@, ":"@, n, "{"@, "file"@, ":"@, f]);
            &&& after is Ok
            &&& after->Ok_0.out == st.out.push(
                ExecSpec { action: Actions::DIR, name: n, location: join_path(st.path), pretext: Seq::empty() },
            ).push(
                ExecSpec {
                    action: Actions::FILE,
                    name: f,
                    location: join_path(st.path) + seq!['/'] + n,
                    pretext: Seq::empty(),
                },
            )
        }),
{
    lemma_tree_state(sd, t);
    reveal_strlit("dir");
    let st = tree_fold(sd, t)->Ok_0;
    let head = t + seq!["dir"@, ":"@, n, "{"@];
    let u = t + seq!["dir"@, ":"@, n, "{"@, "file"@, ":"@, f];
    assert(head.drop_last() =~= t + seq!["dir"@, ":"@, n]);
    assert(head.drop_last().drop_last() =~= t + seq!["dir"@, ":"@]);
    assert(head.drop_last().drop_last().drop_last() =~= t + seq!["dir"@]);
    assert(head.drop_last().drop_last().drop_last().drop_last() =~= t);
    assert(tree_fold(sd, t + seq!["dir"@])->Ok_0.mode == TreeMode::DirColon);
    assert(tree_fold(sd, t + seq!["dir"@, ":"@])->Ok_0.mode == TreeMode::DirName);
    assert(tree_fold(sd, t + seq!["dir"@, ":"@, n])->Ok_0.mode == TreeMode::DirAfterName);
    let s4 = tree_fold(sd, head)->Ok_0;
    assert(s4.mode == TreeMode::Top);
    assert(s4.path == st.path.push(n));
    assert(u =~= head + seq!["file"@, ":"@, f]);
    law_file_appended(sd, head, f);
    assert(s4.path.drop_last() =~= st.path);
    assert(join_path(s4.path) == join_path(st.path) + seq!['/'] + n);
}


/// The pretexts of the files that have one, in order.
pub open spec fn file_pretexts(s: Seq<ExecSpec>) -> Seq<Seq<char>> {
    s.filter(|c: ExecSpec| has_pretext(c)).map_values(|c: ExecSpec| c.pretext)
}

/// In a written script, the variables of the `def` block are the pretexts
/// of the files that have one, in the order of the entries, and their
/// number is the number of such files; so the `k`-th such file refers to
/// variable `k`.
pub proof fn law_wem_variables(s: Seq<ExecSpec>, m: Map<Seq<char>, int>, k: int)
    requires
        0 <= k <= s.len(),
    ensures
        body_fold(s, m, k).2 == file_pretexts(s.take(k)),
        body_fold(s, m, k).1 == file_pretexts(s.take(k)).len(),
    decreases k,
{
    reveal(Seq::filter);
    if k == 0 {
        assert(s.take(0) =~= Seq::<ExecSpec>::empty());
        assert(file_pretexts(s.take(0)) =~= Seq::<Seq<char>>::empty());
    } else {
        law_wem_variables(s, m, k - 1);
        let p = |c: ExecSpec| has_pretext(c);
        let f = |c: ExecSpec| c.pretext;
        assert(s.take(k).drop_last() =~= s.take(k - 1));
        assert(s.take(k).last() == s[k - 1]);
        let prev = s.take(k - 1).filter(p);
        if has_pretext(s[k - 1]) {
            assert(s.take(k).filter(p) == prev.push(s[k - 1]));
            assert(prev.push(s[k - 1]).map_values(f) =~= prev.map_values(f).push(s[k - 1].pretext));
        } else {
            assert(s.take(k).filter(p) == prev);
        }
    }
}


/// `a` is a prefix of `b`.
pub open spec fn is_prefix(a: Seq<char>, b: Seq<char>) -> bool {
    a.len() <= b.len() && b.take(a.len() as int) == a
}

proof fn lemma_join_prefix(p: Seq<Seq<char>>)
    requires
        p.len() >= 1,
    ensures
        is_prefix(p[0], join_path(p)),
    decreases p.len(),
{
    if p.len() > 1 {
        lemma_join_prefix(p.drop_last());
        let j = join_path(p.drop_last());
        assert(p.drop_last()[0] == p[0]);
        assert((j + seq!['/'] + p.last()).take(p[0].len() as int) =~= j.take(p[0].len() as int));
    } else {
        assert(p[0].take(p[0].len() as int) =~= p[0]);
    }
}

/// Whether the tree reader is inside an entry whose location is fixed.
pub open spec fn in_entry(m: TreeMode) -> bool {
    !(m == TreeMode::Top || m == TreeMode::DirAfterName)
}

proof fn lemma_tree_under_start(sd: Seq<char>, t: Seq<Seq<char>>)
    ensures
        tree_fold(sd, t) matches Ok(st) ==> {
            &&& st.path.len() >= 1
            &&& st.path[0] == sd
            &&& in_entry(st.mode) ==> is_prefix(sd, st.loc)
            &&& forall|i: int| 0 <= i < st.out.len() ==> is_prefix(sd, #[trigger] st.out[i].location)
        },
    decreases t.len(),
{
    if t.len() > 0 {
        lemma_tree_under_start(sd, t.drop_last());
        if let Ok(st0) = tree_fold(sd, t.drop_last()) {
            lemma_join_prefix(st0.path);
            if st0.path.len() > 1 {
                assert(st0.path.drop_last()[0] == sd);
                lemma_join_prefix(st0.path.drop_last());
            }
            assert(st0.path.push(st0.name)[0] == sd);
        }
    } else {
        assert(tree_fold(sd, t)->Ok_0.path =~= seq![sd]);
    }
}

/// Every entry read from a script is located under the start directory:
/// its location begins with the start directory's path.
pub proof fn law_entries_under_start(sd: Seq<char>, t: Seq<Seq<char>>)
    ensures
        tree_of(sd, t) matches Some(Ok(out)) ==> forall|i: int|
            0 <= i < out.len() ==> is_prefix(sd, #[trigger] out[i].location),
{
    lemma_tree_under_start(sd, t);
}

/// The definitions reference of a script is the token two places after the
/// first `dref`, which must be followed by `:`.
pub proof fn law_dref_after_first(t: Seq<Seq<char>>)
    ensures
        dref_of(t) matches Some(Ok(d)) ==> exists|k: int|
            0 <= k && k + 2 < t.len() && #[trigger] t[k] == "dref"@ && t[k + 1] == ":"@ && d == t[k + 2]
                && forall|j: int| 0 <= j < k ==> t[j] != "dref"@,
        dref_of(t) == Some(Err::<Seq<char>, crate::error::WemError>(crate::error::WemError::NoDref)) <==> forall|
            j: int,
        |
            0 <= j < t.len() ==> t[j] != "dref"@,
{
    lemma_first_index(t, "dref"@);
    if let Some(k) = first_index(t, "dref"@) {
        assert(t[k] == "dref"@);
    }
}


/// Appending a block `def : { name = value }` to a script whose
/// definitions are complete binds `name` to `value`, keeping the others.
pub proof fn law_block_definition_appended(t: Seq<Seq<char>>, n: Seq<char>, v: Seq<char>)
    requires
        defs_of(t) is Some,
        defs_of(t)->0 is Ok,
        n != "}"@,
        v != "\""@,
    ensures
        defs_of(t + seq!["def"@, ":"@, "{"@, n, "="@, v, "}"@]) == Some(
            Ok::<Map<Seq<char>, Seq<char>>, crate::error::WemError>(defs_of(t)->0->Ok_0.insert(n, v)),
        ),
{
    let u = t + seq!["def"@, ":"@, "{"@, n, "="@, v, "}"@];
    assert(u.drop_last() =~= t + seq!["def"@, ":"@, "{"@, n, "="@, v]);
    assert(u.drop_last().drop_last() =~= t + seq!["def"@, ":"@, "{"@, n, "="@]);
    assert(u.drop_last().drop_last().drop_last() =~= t + seq!["def"@, ":"@, "{"@, n]);
    assert(u.drop_last().drop_last().drop_last().drop_last() =~= t + seq!["def"@, ":"@, "{"@]);
    assert(u.drop_last().drop_last().drop_last().drop_last().drop_last() =~= t + seq!["def"@, ":"@]);
    assert(u.drop_last().drop_last().drop_last().drop_last().drop_last().drop_last() =~= t + seq!["def"@]);
    assert(u.drop_last().drop_last().drop_last().drop_last().drop_last().drop_last().drop_last() =~= t);
    let st = def_fold(t)->Ok_0;
    assert(st.mode == DefMode::Top);
    assert(def_fold(t + seq!["def"@])->Ok_0.mode == DefMode::AfterDef);
    assert(def_fold(t + seq!["def"@, ":"@])->Ok_0.mode == DefMode::AfterColon);
    assert(def_fold(t + seq!["def"@, ":"@, "{"@])->Ok_0.mode == DefMode::BlockName);
    assert(def_fold(t + seq!["def"@, ":"@, "{"@, n])->Ok_0.mode == DefMode::ExpectEq);
    assert(def_fold(t + seq!["def"@, ":"@, "{"@, n, "="@])->Ok_0.mode == DefMode::Value);
    assert(def_fold(t + seq!["def"@, ":"@, "{"@, n, "="@, v])->Ok_0.mode == DefMode::BlockName);
    assert(def_fold(u)->Ok_0.vars == st.vars.insert(n, v));
    assert(def_fold(u)->Ok_0.mode == DefMode::Top);
}

/// The parent of a location built by the tree reader is the location of
/// the enclosing directory: in the joined path, the last `/` is the one
/// that precedes the last part, so `del_filename` of it gives the join of
/// the other parts.
pub proof fn law_parent_of_joined_path(p: Seq<Seq<char>>)
    requires
        p.len() >= 2,
        p[0].len() >= 1,
        !has_char(p.last(), '/'),
    ensures
        is_last_sep(join_path(p), join_path(p.drop_last()).len() as int),
        join_path(p).take(join_path(p.drop_last()).len() as int) == join_path(p.drop_last()),
{
    lemma_join_len(p.drop_last());
    let j = join_path(p.drop_last());
    let whole = join_path(p);
    assert(whole == j + seq!['/'] + p.last());
    assert(whole[j.len() as int] == '/');
    assert forall|i: int| j.len() < i < whole.len() implies whole[i] != '/' by {
        assert(whole[i] == p.last()[i - j.len() - 1]);
        if whole[i] == '/' {
            assert(has_char(p.last(), '/'));
        }
    }
    assert(whole.take(j.len() as int) =~= j);
}

proof fn lemma_join_len(p: Seq<Seq<char>>)
    requires
        p.len() >= 1,
        p[0].len() >= 1,
    ensures
        join_path(p).len() >= 1,
    decreases p.len(),
{
    if p.len() > 1 {
        assert(p.drop_last()[0] == p[0]);
        lemma_join_len(p.drop_last());
    }
}


/// The script written for a depth-first walk of a file tree reads back as
/// that walk: split into lines, lexed and read from the walk's start
/// directory, it gives every entry again, with its kind, name and location.
/// This holds where the names read back as single tokens (no whitespace,
/// `" : { } ( ) =`, backslash or `/`), no file has a pretext, each
/// directory that the walk enters is listed once, and the walk goes back up
/// at most one level at a time (the writer closes one level per step).
pub proof fn law_written_walk_reads_back(s: Seq<ExecSpec>, paths: Seq<Seq<Seq<char>>>, start_dir: Seq<char>)
    requires
        is_walk(s, paths, start_dir),
        clean_names(s),
        bare(s),
        climbs_one(s, paths),
        entered_once(s, paths),
    ensures
        tree_of(start_dir, lexed(text_lines(wem_text(s, None)))) == Some(Ok::<Seq<ExecSpec>, WemError>(s)),
{
    let n = s.len() as int;
    let m = indent_fold(s).map;
    let l = walk_lines(s, m, n);
    lemma_wem_lines(s);
    lemma_walk_good(s, m, n);
    lemma_text_lines(l);
    lemma_lexed_plain(l);
    lemma_tree_run_start(start_dir, lexed(l));
    lemma_run_walk(s, paths, start_dir, n);
    assert(s.take(n) =~= s);
}

/// Lines lex on their own: where the lines `a` hold no backslash and an
/// even number of quotes, the tokens of `a` followed by `b` are those of
/// `a`, then those of `b` without their leading empty token.
pub proof fn law_lines_lex_apart(a: Seq<Seq<char>>, b: Seq<Seq<char>>)
    requires
        no_escapes(a),
        line_quotes(a) % 2 == 0,
    ensures
        lexed(a + b) == lexed(a) + lexed(b).drop_first(),
{
    lemma_lex_lines_quotes(a);
    let da = lex_lines(a).done;
    lemma_lex_lines_add(a, b);
    assert(segments(a + b) =~= da + segments(b));
    lemma_select_quotes(da);
    lemma_select_add(da, segments(b));
    lemma_select_quotes(segments(b));
    let e = seq![Seq::<char>::empty()];
    lemma_trim_colon();
    assert(!has_char(Seq::<char>::empty(), '"'));
    assert(e.drop_last() =~= Seq::<Seq<char>>::empty());
    assert(e.last() == Seq::<char>::empty());
    assert(select(Seq::<Seq<char>>::empty()) == (false, e));
    assert(select(e) == (false, e));
    lemma_select_add(da, e);
    assert(segments(a) =~= da + e);
    assert(select(da).1 + e.drop_first() =~= select(da).1);
}


pub proof fn lemma_defs_skip(a: Seq<Seq<char>>)
    requires
        forall|i: int| 0 <= i < a.len() ==> a[i] != "def"@,
    ensures
        def_fold(a) == Ok::<DefState, WemError>(def_start()),
    decreases a.len(),
{
    if a.len() > 0 {
        assert(a[a.len() - 1] == a.last());
        lemma_defs_skip(a.drop_last());
    }
}

pub proof fn lemma_defs_prefix(a: Seq<Seq<char>>, b: Seq<Seq<char>>)
    requires
        forall|i: int| 0 <= i < a.len() ==> a[i] != "def"@,
    ensures
        def_fold(a + b) == def_fold(b),
    decreases b.len(),
{
    lemma_defs_skip(a);
    if b.len() == 0 {
        assert(a + b =~= a);
    } else {
        lemma_defs_prefix(a, b.drop_last());
        assert((a + b).drop_last() =~= a + b.drop_last());
        assert((a + b).last() == b.last());
    }
}

/// Tokens before the first `def` are ignored by the definition reader: a
/// token list without `def` defines nothing, and putting it in front of a
/// script changes nothing of what the script defines.
pub proof fn law_tokens_before_def_ignored(a: Seq<Seq<char>>, b: Seq<Seq<char>>)
    requires
        forall|i: int| 0 <= i < a.len() ==> a[i] != "def"@,
    ensures
        defs_of(a) == Some(Ok::<Map<Seq<char>, Seq<char>>, WemError>(Map::empty())),
        defs_of(a + b) == defs_of(b),
{
    lemma_defs_skip(a);
    lemma_defs_prefix(a, b);
}


// ---------------------------------------------------------------------------
// Quoted text
// ---------------------------------------------------------------------------

/// Whether no token of `ls` is a quote.
pub open spec fn no_quote_tokens(ls: Seq<Seq<char>>) -> bool {
    forall|i: int| 0 <= i < ls.len() ==> #[trigger] ls[i] != "\""@
}

pub proof fn lemma_line_text_push(ls: Seq<Seq<char>>, a: Seq<char>)
    requires
        ls.len() > 0,
    ensures
        a + line_text(ls) == a + line_text(ls.drop_last()) + ls.last() + seq!['\n'],
{
    assert(a + line_text(ls) =~= a + line_text(ls.drop_last()) + ls.last() + seq!['\n']);
}

pub proof fn lemma_defs_quoted(u: Seq<Seq<char>>, ls: Seq<Seq<char>>)
    requires
        def_fold(u) is Ok,
        def_fold(u)->Ok_0.mode == DefMode::Quoted,
        no_quote_tokens(ls),
    ensures
        def_fold(u + ls) == Ok::<DefState, WemError>(
            DefState { acc: def_fold(u)->Ok_0.acc + line_text(ls), ..def_fold(u)->Ok_0 },
        ),
    decreases ls.len(),
{
    let st = def_fold(u)->Ok_0;
    if ls.len() == 0 {
        assert(u + ls =~= u);
        assert(st.acc + line_text(ls) =~= st.acc);
    } else {
        lemma_defs_quoted(u, ls.drop_last());
        assert((u + ls).drop_last() =~= u + ls.drop_last());
        assert((u + ls).last() == ls.last());
        assert(ls[ls.len() - 1] != "\""@);
        lemma_line_text_push(ls, st.acc);
    }
}

/// A quoted definition `def : name = " l1 .. ln "` appended to a script
/// whose definitions are complete binds `name` to exactly its own lines,
/// each followed by a line break, whatever was defined or quoted before,
/// and keeps the other bindings.
pub proof fn law_quoted_definition_appended(t: Seq<Seq<char>>, n: Seq<char>, ls: Seq<Seq<char>>)
    requires
        defs_of(t) is Some,
        defs_of(t)->0 is Ok,
        n != "{"@,
        no_quote_tokens(ls),
    ensures
        defs_of(t + seq!["def"@, ":"@, n, "="@, "\""@] + ls + seq!["\""@]) == Some(
            Ok::<Map<Seq<char>, Seq<char>>, WemError>(defs_of(t)->0->Ok_0.insert(n, line_text(ls))),
        ),
{
    let u = t + seq!["def"@, ":"@, n, "="@, "\""@];
    assert(u.drop_last() =~= t + seq!["def"@, ":"@, n, "="@]);
    assert(u.drop_last().drop_last() =~= t + seq!["def"@, ":"@, n]);
    assert(u.drop_last().drop_last().drop_last() =~= t + seq!["def"@, ":"@]);
    assert(u.drop_last().drop_last().drop_last().drop_last() =~= t + seq!["def"@]);
    assert(u.drop_last().drop_last().drop_last().drop_last().drop_last() =~= t);
    let st = def_fold(t)->Ok_0;
    assert(st.mode == DefMode::Top);
    assert(def_fold(t + seq!["def"@])->Ok_0.mode == DefMode::AfterDef);
    assert(def_fold(t + seq!["def"@, ":"@])->Ok_0.mode == DefMode::AfterColon);
    assert(def_fold(t + seq!["def"@, ":"@, n])->Ok_0.mode == DefMode::ExpectEq);
    assert(def_fold(t + seq!["def"@, ":"@, n, "="@])->Ok_0.mode == DefMode::Value);
    let su = def_fold(u)->Ok_0;
    assert(su.mode == DefMode::Quoted && su.acc == Seq::<char>::empty() && su.name == n && !su.block
        && su.vars == st.vars);
    lemma_defs_quoted(u, ls);
    let w = u + ls + seq!["\""@];
    assert(w.drop_last() =~= u + ls);
    assert(Seq::<char>::empty() + line_text(ls) =~= line_text(ls));
    assert(def_fold(w)->Ok_0.vars == st.vars.insert(n, line_text(ls)));
}

/// Inside a block `def : { ... }`, a quoted definition `name = " l1 .. ln "`
/// binds `name` to exactly its own lines, each followed by a line break,
/// whatever was quoted before, and keeps the other bindings; closing the
/// block then gives those bindings.
pub proof fn law_quoted_block_definition(t: Seq<Seq<char>>, n: Seq<char>, ls: Seq<Seq<char>>)
    requires
        def_fold(t) is Ok,
        def_fold(t)->Ok_0.mode == DefMode::BlockName,
        n != "}"@,
        no_quote_tokens(ls),
    ensures
        def_fold(t + seq![n, "="@, "\""@] + ls + seq!["\""@]) matches Ok(x) && x.mode == DefMode::BlockName
            && x.vars == def_fold(t)->Ok_0.vars.insert(n, line_text(ls)),
        defs_of(t + seq![n, "="@, "\""@] + ls + seq!["\""@, "}"@]) == Some(
            Ok::<Map<Seq<char>, Seq<char>>, WemError>(def_fold(t)->Ok_0.vars.insert(n, line_text(ls))),
        ),
{
    let st = def_fold(t)->Ok_0;
    let u = t + seq![n, "="@, "\""@];
    assert(u.drop_last() =~= t + seq![n, "="@]);
    assert(u.drop_last().drop_last() =~= t + seq![n]);
    assert(u.drop_last().drop_last().drop_last() =~= t);
    assert(def_fold(t + seq![n])->Ok_0.mode == DefMode::ExpectEq);
    assert(def_fold(t + seq![n, "="@])->Ok_0.mode == DefMode::Value);
    let su = def_fold(u)->Ok_0;
    assert(su.mode == DefMode::Quoted && su.acc == Seq::<char>::empty() && su.name == n && su.block
        && su.vars == st.vars);
    lemma_defs_quoted(u, ls);
    let w = u + ls + seq!["\""@];
    assert(w.drop_last() =~= u + ls);
    assert(Seq::<char>::empty() + line_text(ls) =~= line_text(ls));
    let x = def_fold(w)->Ok_0;
    assert(x.mode == DefMode::BlockName && x.vars == st.vars.insert(n, line_text(ls)));
    let w2 = u + ls + seq!["\""@, "}"@];
    assert(w2.drop_last() =~= w);
}

pub proof fn lemma_desc_quoted(u: Seq<Seq<char>>, ls: Seq<Seq<char>>, d: Seq<char>)
    requires
        desc_fold(u) == Ok::<(DescMode, Seq<char>), WemError>((DescMode::Quoted, d)),
        no_quote_tokens(ls),
    ensures
        desc_fold(u + ls) == Ok::<(DescMode, Seq<char>), WemError>((DescMode::Quoted, d + line_text(ls))),
    decreases ls.len(),
{
    if ls.len() == 0 {
        assert(u + ls =~= u);
        assert(d + line_text(ls) =~= d);
    } else {
        lemma_desc_quoted(u, ls.drop_last(), d);
        assert((u + ls).drop_last() =~= u + ls.drop_last());
        assert((u + ls).last() == ls.last());
        assert(ls[ls.len() - 1] != "\""@);
        lemma_line_text_push(ls, d);
    }
}

pub proof fn lemma_desc_skip(t: Seq<Seq<char>>)
    requires
        forall|i: int| 0 <= i < t.len() ==> t[i] != "desc"@,
    ensures
        desc_fold(t) == Ok::<(DescMode, Seq<char>), WemError>((DescMode::Top, Seq::empty())),
    decreases t.len(),
{
    if t.len() > 0 {
        assert(t[t.len() - 1] == t.last());
        lemma_desc_skip(t.drop_last());
    }
}

/// A quoted description `desc : " l1 .. ln "` reads as its lines kept apart
/// by line breaks, l1\n..\nln, with only trailing whitespace dropped.
pub proof fn law_quoted_description(t: Seq<Seq<char>>, ls: Seq<Seq<char>>)
    requires
        forall|i: int| 0 <= i < t.len() ==> t[i] != "desc"@,
        no_quote_tokens(ls),
    ensures
        desc_of(t + seq!["desc"@, ":"@, "\""@] + ls + seq!["\""@]) == Some(
            Ok::<Seq<char>, WemError>(trim_end(line_text(ls))),
        ),
{
    lemma_desc_skip(t);
    let u = t + seq!["desc"@, ":"@, "\""@];
    assert(u.drop_last() =~= t + seq!["desc"@, ":"@]);
    assert(u.drop_last().drop_last() =~= t + seq!["desc"@]);
    assert(u.drop_last().drop_last().drop_last() =~= t);
    assert((t + seq!["desc"@]).drop_last() =~= t);
    assert((t + seq!["desc"@]).last() == "desc"@);
    assert(desc_fold(t + seq!["desc"@]) == Ok::<(DescMode, Seq<char>), WemError>(
        (DescMode::AfterDesc, Seq::empty()),
    ));
    assert((t + seq!["desc"@, ":"@]).drop_last() =~= t + seq!["desc"@]);
    assert(desc_fold(t + seq!["desc"@, ":"@]) == Ok::<(DescMode, Seq<char>), WemError>(
        (DescMode::Value, Seq::empty()),
    ));
    assert(desc_fold(u) == Ok::<(DescMode, Seq<char>), WemError>((DescMode::Quoted, Seq::empty())));
    lemma_desc_quoted(u, ls, Seq::empty());
    assert(Seq::<char>::empty() + line_text(ls) =~= line_text(ls));
    let w = u + ls + seq!["\""@];
    assert(w.drop_last() =~= u + ls);
}

pub proof fn lemma_pre_quoted(sd: Seq<char>, u: Seq<Seq<char>>, ls: Seq<Seq<char>>)
    requires
        tree_fold(sd, u) is Ok,
        tree_fold(sd, u)->Ok_0.mode == TreeMode::PreQuoted,
        no_quote_tokens(ls),
    ensures
        tree_fold(sd, u + ls) == Ok::<TreeState, WemError>(
            TreeState { pretext: tree_fold(sd, u)->Ok_0.pretext + line_text(ls), ..tree_fold(sd, u)->Ok_0 },
        ),
    decreases ls.len(),
{
    let st = tree_fold(sd, u)->Ok_0;
    if ls.len() == 0 {
        assert(u + ls =~= u);
        assert(st.pretext + line_text(ls) =~= st.pretext);
    } else {
        lemma_pre_quoted(sd, u, ls.drop_last());
        assert((u + ls).drop_last() =~= u + ls.drop_last());
        assert((u + ls).last() == ls.last());
        assert(ls[ls.len() - 1] != "\""@);
        lemma_line_text_push(ls, st.pretext);
    }
}

/// Appending `file ( pre : " l1 .. ln " ) : name` to a script read up to a
/// complete entry adds a file entry with that name, located at the open
/// directories, whose pretext is its quoted lines, each followed by its
/// own line break.
pub proof fn law_quoted_pretext_file(sd: Seq<char>, t: Seq<Seq<char>>, ls: Seq<Seq<char>>, n: Seq<char>)
    requires
        tree_fold(sd, t) is Ok,
        tree_fold(sd, t)->Ok_0.mode == TreeMode::Top,
        no_quote_tokens(ls),
        n != "\""@,
    ensures
        ({
            let st = tree_fold(sd, t)->Ok_0;
            tree_fold(
                sd,
                t + seq!["file"@, "("@, "pre"@, ":"@, "\""@] + ls + seq!["\""@, ")"@, ":"@, n],
            ) == Ok::<TreeState, WemError>(
                TreeState {
                    mode: TreeMode::Top,
                    loc: join_path(st.path),
                    pretext: Seq::empty(),
                    out: st.out.push(
                        ExecSpec {
                            action: Actions::FILE,
                            name: n,
                            location: join_path(st.path),
                            pretext: line_text(ls),
                        },
                    ),
                    ..st
                },
            )
        }),
{
    lemma_tree_state(sd, t);
    reveal_strlit("file");
    reveal_strlit("dir");
    assert("file"@.len() == 4 && "dir"@.len() == 3);
    let st = tree_fold(sd, t)->Ok_0;
    let u = t + seq!["file"@, "("@, "pre"@, ":"@, "\""@];
    assert(u.drop_last() =~= t + seq!["file"@, "("@, "pre"@, ":"@]);
    assert(u.drop_last().drop_last() =~= t + seq!["file"@, "("@, "pre"@]);
    assert(u.drop_last().drop_last().drop_last() =~= t + seq!["file"@, "("@]);
    assert(u.drop_last().drop_last().drop_last().drop_last() =~= t + seq!["file"@]);
    assert(u.drop_last().drop_last().drop_last().drop_last().drop_last() =~= t);
    assert(tree_fold(sd, t + seq!["file"@])->Ok_0.mode == TreeMode::FileStart);
    assert(tree_fold(sd, t + seq!["file"@, "("@])->Ok_0.mode == TreeMode::SubKey);
    assert(tree_fold(sd, t + seq!["file"@, "("@, "pre"@])->Ok_0.mode == TreeMode::PreColon);
    assert(tree_fold(sd, t + seq!["file"@, "("@, "pre"@, ":"@])->Ok_0.mode == TreeMode::PreValue);
    let su = tree_fold(sd, u)->Ok_0;
    assert(su == TreeState { mode: TreeMode::PreQuoted, loc: join_path(st.path), ..st });
    lemma_pre_quoted(sd, u, ls);
    assert(Seq::<char>::empty() + line_text(ls) =~= line_text(ls));
    let v = u + ls;
    let w = v + seq!["\""@, ")"@, ":"@, n];
    assert(w.drop_last() =~= v + seq!["\""@, ")"@, ":"@]);
    assert(w.drop_last().drop_last() =~= v + seq!["\""@, ")"@]);
    assert(w.drop_last().drop_last().drop_last() =~= v + seq!["\""@]);
    assert(w.drop_last().drop_last().drop_last().drop_last() =~= v);
    assert(tree_fold(sd, v + seq!["\""@])->Ok_0.mode == TreeMode::SubSep);
    assert(tree_fold(sd, v + seq!["\""@, ")"@])->Ok_0.mode == TreeMode::FileColon);
    assert(tree_fold(sd, v + seq!["\""@, ")"@, ":"@])->Ok_0.mode == TreeMode::FileName);
    assert(t + seq!["file"@, "("@, "pre"@, ":"@, "\""@] + ls + seq!["\""@, ")"@, ":"@, n] == w);
}

/// A file's pretext, as `read` records it, is its non-empty lines, each
/// exactly as read (whitespace included) and followed by a line break.
pub proof fn law_file_pretext_lines(lines: Seq<Seq<char>>)
    ensures
        file_pretext(lines) == line_text(lines.filter(|l: Seq<char>| l.len() > 0)),
    decreases lines.len(),
{
    reveal(Seq::filter);
    if lines.len() > 0 {
        law_file_pretext_lines(lines.drop_last());
        let f = lines.drop_last().filter(|l: Seq<char>| l.len() > 0);
        if lines.last().len() > 0 {
            assert(f.push(lines.last()).drop_last() =~= f);
            assert(line_text(f.push(lines.last())) =~= line_text(f) + (lines.last() + seq!['\n']));
        } else {
            assert(line_text(f) + Seq::<char>::empty() =~= line_text(f));
        }
    }
}

/// Text inside quotes is kept as it stands: after lines that leave a quote
/// open (no backslash, an odd number of quotes), a further line without
/// quotes or backslashes is one token, unchanged, leading and trailing
/// whitespace included.
pub proof fn law_quoted_line_kept(a: Seq<Seq<char>>, x: Seq<char>)
    requires
        no_escapes(a),
        line_quotes(a) % 2 == 1,
        !has_char(x, '"'),
        !has_char(x, '\\'),
    ensures
        lexed(a).len() >= 1,
        lexed(a).last() == Seq::<char>::empty(),
        lexed(a.push(x)) == lexed(a).drop_last() + seq![x, Seq::<char>::empty()],
{
    lemma_lex_lines_quotes(a);
    let la = lex_lines(a);
    let da = la.done;
    lemma_lex_in_quote(la, x);
    let e = Seq::<char>::empty();
    assert(a.push(x).drop_last() =~= a);
    assert(a.push(x).last() == x);
    assert(la.cur + x =~= x);
    assert(lex_lines(a.push(x)) == LexState { done: da.push(x), cur: e, ..la });
    assert(segments(a.push(x)) == da.push(x).push(e));
    assert(segments(a) == da.push(e));
    lemma_select_quotes(da);
    let out = select(da).1;
    assert(select(da).0);
    assert(!has_char(e, '"'));
    lemma_trim_colon();
    assert(da.push(e).drop_last() =~= da);
    assert(da.push(x).drop_last() =~= da);
    assert(da.push(x).push(e).drop_last() =~= da.push(x));
    assert(select(da.push(e)) == (true, out.push(e)));
    assert(select(da.push(x)) == (true, out.push(x)));
    assert(select(da.push(x).push(e)) == (true, out.push(x).push(e)));
    assert(out.push(e).drop_last() =~= out);
    assert(out.push(x).push(e) =~= out + seq![x, e]);
}

pub proof fn lemma_lex_in_quote(st: LexState, x: Seq<char>)
    requires
        st.dq,
        !st.esc,
        !has_char(x, '"'),
        !has_char(x, '\\'),
    ensures
        lex_chars(st, x) == (LexState { cur: st.cur + x, ..st }),
    decreases x.len(),
{
    if x.len() == 0 {
        assert(st.cur + x =~= st.cur);
    } else {
        let y = x.drop_last();
        assert(x[x.len() - 1] == x.last());
        assert(!has_char(y, '"') && !has_char(y, '\\')) by {
            if has_char(y, '"') {
                let j = choose|j: int| 0 <= j < y.len() && y[j] == '"';
                assert(x[j] == '"');
            }
            if has_char(y, '\\') {
                let j = choose|j: int| 0 <= j < y.len() && y[j] == '\\';
                assert(x[j] == '\\');
            }
        }
        lemma_lex_in_quote(st, y);
        assert((st.cur + y).push(x.last()) =~= st.cur + x);
    }
}

} // verus!
