//! Reading the file tree (`dir` and `file` entries) of a script.
use vstd::prelude::*;

use crate::error::WemError;
use crate::structure::{texts, Actions, ExecInfo, ExecSpec};
use crate::text::{push_char, push_text, same_text};

verus! {

/// The parts of a path joined by `/` (std's `join("/")`).
pub open spec fn join_path(p: Seq<Seq<char>>) -> Seq<char>
    decreases p.len(),
{
    if p.len() == 0 {
        Seq::empty()
    } else if p.len() == 1 {
        p[0]
    } else {
        join_path(p.drop_last()) + seq!['/'] + p.last()
    }
}

/// The parts of a path joined by `/`.
pub fn join_path_exec(p: &Vec<String>) -> (r: String)
    ensures
        r@ == join_path(texts(p@)),
{
    if p.len() == 0 {
        assert(texts(p@) =~= Seq::<Seq<char>>::empty());
        return String::new();
    }
    let ghost t = texts(p@);
    let mut r = p[0].clone();
    let mut i: usize = 1;
    assert(t.take(1) =~= seq![t[0]]);
    while i < p.len()
        invariant
            1 <= i <= p@.len(),
            t == texts(p@),
            r@ == join_path(t.take(i as int)),
        decreases p.len() - i,
    {
        let ghost r0 = r@;
        push_char(&mut r, '/');
        push_text(&mut r, p[i].as_str());
        assert(t.take(i + 1).drop_last() =~= t.take(i as int));
        assert(r@ =~= r0 + seq!['/'] + t[i as int]);
        i = i + 1;
    }
    assert(t.take(p@.len() as int) =~= t);
    r
}

/// Where the tree reader stands.
#[derive(Clone, Copy, Debug, PartialEq, Eq, Structural)]
pub enum TreeMode {
    /// Between entries.
    Top,
    /// After `dir`.
    DirColon,
    /// After `dir :`.
    DirName,
    /// After `dir : name`, where `{` may open the directory.
    DirAfterName,
    /// After `file`.
    FileStart,
    /// Inside `( ... )`, where a subcommand comes next.
    SubKey,
    /// After `pre`.
    PreColon,
    /// After `pre :`.
    PreValue,
    /// Inside a quoted pretext.
    PreQuoted,
    /// After a subcommand, where `)` or `,` comes next.
    SubSep,
    /// After `)`, where `:` comes next.
    FileColon,
    /// After `file ... :`.
    FileName,
}

/// The state of the tree reader: its position, the open directories, the
/// location, name and pretext of the entry being read, and the entries so far.
pub struct TreeState {
    pub mode: TreeMode,
    pub path: Seq<Seq<char>>,
    pub loc: Seq<char>,
    pub name: Seq<char>,
    pub pretext: Seq<char>,
    pub out: Seq<ExecSpec>,
}

pub open spec fn tree_start(start_dir: Seq<char>) -> TreeState {
    TreeState {
        mode: TreeMode::Top,
        path: seq![start_dir],
        loc: Seq::empty(),
        name: Seq::empty(),
        pretext: Seq::empty(),
        out: Seq::empty(),
    }
}

/// Reads a token between entries.
pub open spec fn top_step(st: TreeState, w: Seq<char>) -> TreeState {
    if w == "dir"@ {
        TreeState { mode: TreeMode::DirColon, loc: join_path(st.path), ..st }
    } else if w == "file"@ {
        TreeState { mode: TreeMode::FileStart, loc: join_path(st.path), ..st }
    } else if w == "}"@ && st.path.len() > 1 {
        TreeState { mode: TreeMode::Top, path: st.path.drop_last(), ..st }
    } else {
        TreeState { mode: TreeMode::Top, ..st }
    }
}

/// Reads one token.
pub open spec fn tree_step(st: TreeState, w: Seq<char>) -> Result<TreeState, WemError> {
    match st.mode {
        TreeMode::Top => Ok(top_step(st, w)),
        TreeMode::DirColon => if w == ":"@ {
            Ok(TreeState { mode: TreeMode::DirName, ..st })
        } else {
            Err(WemError::DirMissingColon)
        },
        TreeMode::DirName => Ok(
            TreeState {
                mode: TreeMode::DirAfterName,
                name: w,
                out: st.out.push(
                    ExecSpec { action: Actions::DIR, name: w, location: st.loc, pretext: Seq::empty() },
                ),
                ..st
            },
        ),
        TreeMode::DirAfterName => if w == "{"@ {
            Ok(TreeState { mode: TreeMode::Top, path: st.path.push(st.name), ..st })
        } else {
            Ok(top_step(st, w))
        },
        TreeMode::FileStart => if w == "("@ {
            Ok(TreeState { mode: TreeMode::SubKey, ..st })
        } else if w == ":"@ {
            Ok(TreeState { mode: TreeMode::FileName, ..st })
        } else {
            Err(WemError::FileMissingColon)
        },
        TreeMode::SubKey => if w == "pre"@ {
            Ok(TreeState { mode: TreeMode::PreColon, ..st })
        } else {
            Err(WemError::UnknownFileSubcommand)
        },
        TreeMode::PreColon => if w == ":"@ {
            Ok(TreeState { mode: TreeMode::PreValue, ..st })
        } else {
            Err(WemError::PreMissingColon)
        },
        TreeMode::PreValue => if w == "\""@ {
            Ok(TreeState { mode: TreeMode::PreQuoted, ..st })
        } else {
            Ok(TreeState { mode: TreeMode::SubSep, pretext: st.pretext + w, ..st })
        },
        TreeMode::PreQuoted => if w == "\""@ {
            Ok(TreeState { mode: TreeMode::SubSep, ..st })
        } else {
            Ok(TreeState { pretext: st.pretext + w + seq!['\n'], ..st })
        },
        TreeMode::SubSep => if w == ")"@ {
            Ok(TreeState { mode: TreeMode::FileColon, ..st })
        } else if w == ","@ {
            Ok(TreeState { mode: TreeMode::SubKey, ..st })
        } else {
            Err(WemError::BadSubcommandSeparator)
        },
        TreeMode::FileColon => if w == ":"@ {
            Ok(TreeState { mode: TreeMode::FileName, ..st })
        } else {
            Err(WemError::FileMissingColon)
        },
        TreeMode::FileName => if w == "\""@ {
            Err(WemError::LongFileName)
        } else {
            Ok(
                TreeState {
                    mode: TreeMode::Top,
                    pretext: Seq::empty(),
                    out: st.out.push(
                        ExecSpec { action: Actions::FILE, name: w, location: st.loc, pretext: st.pretext },
                    ),
                    ..st
                },
            )
        },
    }
}

/// Reads the tokens in order, stopping at the first error.
pub open spec fn tree_fold(start_dir: Seq<char>, t: Seq<Seq<char>>) -> Result<TreeState, WemError>
    decreases t.len(),
{
    if t.len() == 0 {
        Ok(tree_start(start_dir))
    } else {
        match tree_fold(start_dir, t.drop_last()) {
            Ok(st) => tree_step(st, t.last()),
            Err(e) => Err(e),
        }
    }
}

/// Whether the reader, once the tokens are used up, has a complete tree.
/// A directory name that is the last token is read once more, as a command.
pub open spec fn tree_complete(st: TreeState) -> bool {
    st.mode == TreeMode::Top || (st.mode == TreeMode::DirAfterName && top_step(st, st.name).mode
        == TreeMode::Top)
}

/// What reading the tree of `t` gives: the entries, an error, or `None`
/// where the script ends in the middle of an entry.
pub open spec fn tree_of(start_dir: Seq<char>, t: Seq<Seq<char>>) -> Option<Result<Seq<ExecSpec>, WemError>> {
    match tree_fold(start_dir, t) {
        Err(e) => Some(Err(e)),
        Ok(st) => if tree_complete(st) {
            Some(Ok(st.out))
        } else {
            None
        },
    }
}

pub proof fn lemma_tree_fold_err(start_dir: Seq<char>, t: Seq<Seq<char>>, i: int)
    requires
        0 <= i <= t.len(),
        tree_fold(start_dir, t.take(i)) is Err,
    ensures
        tree_fold(start_dir, t) == tree_fold(start_dir, t.take(i)),
    decreases t.len() - i,
{
    if i < t.len() {
        assert(t.take(i + 1).drop_last() =~= t.take(i));
        lemma_tree_fold_err(start_dir, t, i + 1);
    } else {
        assert(t.take(i) =~= t);
    }
}

/// The abstract values of a list of entries.
pub open spec fn specs(v: Seq<ExecInfo>) -> Seq<ExecSpec> {
    v.map_values(|e: ExecInfo| e@)
}

/// The mode after reading `w` between entries.
fn top_mode(w: &String) -> (m: TreeMode)
    ensures
        m == (if w@ == "dir"@ {
            TreeMode::DirColon
        } else if w@ == "file"@ {
            TreeMode::FileStart
        } else {
            TreeMode::Top
        }),
{
    if same_text(w.as_str(), "dir") {
        TreeMode::DirColon
    } else if same_text(w.as_str(), "file") {
        TreeMode::FileStart
    } else {
        TreeMode::Top
    }
}

/// The exec mirror of the tree reader's state.
pub open spec fn tree_view(
    mode: TreeMode,
    path: Seq<String>,
    loc: Seq<char>,
    name: Seq<char>,
    pretext: Seq<char>,
    out: Seq<ExecInfo>,
) -> TreeState {
    TreeState { mode, path: texts(path), loc, name, pretext, out: specs(out) }
}

fn top_exec(mode: &mut TreeMode, path: &mut Vec<String>, loc: &mut String, w: &String, Ghost(st): Ghost<TreeState>)
    requires
        old(path)@.len() >= 1,
        st.path == texts(old(path)@),
    ensures
        final(path)@.len() >= 1,
        *final(mode) == top_step(st, w@).mode,
        texts(final(path)@) == top_step(st, w@).path,
        top_step(st, w@).mode != TreeMode::Top ==> final(loc)@ == top_step(st, w@).loc,
        top_step(st, w@).mode == TreeMode::Top ==> *final(loc) == *old(loc),
{
    let m = top_mode(w);
    if m == TreeMode::DirColon || m == TreeMode::FileStart {
        *loc = join_path_exec(path);
        *mode = m;
    } else if same_text(w.as_str(), "}") && path.len() > 1 {
        let ghost p0 = texts(path@);
        path.pop();
        assert(texts(path@) =~= p0.drop_last());
        *mode = TreeMode::Top;
    } else {
        *mode = TreeMode::Top;
    }
}

fn push_entry(out: &mut Vec<ExecInfo>, action: Actions, name: &String, loc: &String, pretext: &String)
    ensures
        specs(final(out)@) == specs(old(out)@).push(
            ExecSpec { action: action, name: name@, location: loc@, pretext: pretext@ },
        ),
{
    let e = ExecInfo { action: action, name: name.clone(), location: loc.clone(), pretext: pretext.clone() };
    out.push(e);
    assert(specs(out@) =~= specs(old(out)@).push(
        ExecSpec { action: action, name: name@, location: loc@, pretext: pretext@ },
    ));
}

/// Reads the file tree of a token list starting in `start_dir`; a script
/// that ends in the middle of an entry is reported as `WemError::UnexpectedEnd`.
pub fn try_parser(tokens: Vec<String>, start_dir: String) -> (r: Result<Vec<ExecInfo>, WemError>)
    ensures
        match tree_of(start_dir@, texts(tokens@)) {
            Some(Ok(v)) => r matches Ok(x) && specs(x@) == v,
            Some(Err(e)) => r == Err::<Vec<ExecInfo>, WemError>(e),
            None => r == Err::<Vec<ExecInfo>, WemError>(WemError::UnexpectedEnd),
        },
{
    let ghost t = texts(tokens@);
    let ghost sd = start_dir@;
    let mut mode = TreeMode::Top;
    let mut path: Vec<String> = Vec::new();
    path.push(start_dir.clone());
    let mut loc = String::new();
    let mut name = String::new();
    let mut pretext = String::new();
    let mut out: Vec<ExecInfo> = Vec::new();
    let mut i: usize = 0;
    assert(t.take(0) =~= Seq::<Seq<char>>::empty());
    assert(texts(path@) =~= seq![sd]);
    assert(specs(out@) =~= Seq::<ExecSpec>::empty());
    while i < tokens.len()
        invariant
            i <= tokens@.len(),
            t == texts(tokens@),
            sd == start_dir@,
            path@.len() >= 1,
            tree_fold(sd, t.take(i as int)) == Ok::<TreeState, WemError>(
                tree_view(mode, path@, loc@, name@, pretext@, out@),
            ),
        decreases tokens.len() - i,
    {
        let w = &tokens[i];
        let ghost st = tree_view(mode, path@, loc@, name@, pretext@, out@);
        assert(t.take(i + 1).drop_last() =~= t.take(i as int));
        assert(t[i as int] == w@);
        assert(tree_fold(sd, t.take(i + 1)) == tree_step(st, w@));
        match mode {
            TreeMode::Top => {
                top_exec(&mut mode, &mut path, &mut loc, w, Ghost(st));
            },
            TreeMode::DirColon => {
                if same_text(w.as_str(), ":") {
                    mode = TreeMode::DirName;
                } else {
                    proof {
                        lemma_tree_fold_err(sd, t, i + 1);
                    }
                    return Err(WemError::DirMissingColon);
                }
            },
            TreeMode::DirName => {
                let empty = String::new();
                push_entry(&mut out, Actions::DIR, w, &loc, &empty);
                name = w.clone();
                mode = TreeMode::DirAfterName;
            },
            TreeMode::DirAfterName => {
                if same_text(w.as_str(), "{") {
                    let ghost p0 = texts(path@);
                    path.push(name.clone());
                    assert(texts(path@) =~= p0.push(name@));
                    mode = TreeMode::Top;
                } else {
                    top_exec(&mut mode, &mut path, &mut loc, w, Ghost(st));
                }
            },
            TreeMode::FileStart => {
                if same_text(w.as_str(), "(") {
                    mode = TreeMode::SubKey;
                } else if same_text(w.as_str(), ":") {
                    mode = TreeMode::FileName;
                } else {
                    proof {
                        lemma_tree_fold_err(sd, t, i + 1);
                    }
                    return Err(WemError::FileMissingColon);
                }
            },
            TreeMode::SubKey => {
                if same_text(w.as_str(), "pre") {
                    mode = TreeMode::PreColon;
                } else {
                    proof {
                        lemma_tree_fold_err(sd, t, i + 1);
                    }
                    return Err(WemError::UnknownFileSubcommand);
                }
            },
            TreeMode::PreColon => {
                if same_text(w.as_str(), ":") {
                    mode = TreeMode::PreValue;
                } else {
                    proof {
                        lemma_tree_fold_err(sd, t, i + 1);
                    }
                    return Err(WemError::PreMissingColon);
                }
            },
            TreeMode::PreValue => {
                if same_text(w.as_str(), "\"") {
                    mode = TreeMode::PreQuoted;
                } else {
                    push_text(&mut pretext, w.as_str());
                    mode = TreeMode::SubSep;
                }
            },
            TreeMode::PreQuoted => {
                if same_text(w.as_str(), "\"") {
                    mode = TreeMode::SubSep;
                } else {
                    let ghost p0 = pretext@;
                    push_text(&mut pretext, w.as_str());
                    push_char(&mut pretext, '\n');
                    assert(pretext@ =~= p0 + w@ + seq!['\n']);
                }
            },
            TreeMode::SubSep => {
                if same_text(w.as_str(), ")") {
                    mode = TreeMode::FileColon;
                } else if same_text(w.as_str(), ",") {
                    mode = TreeMode::SubKey;
                } else {
                    proof {
                        lemma_tree_fold_err(sd, t, i + 1);
                    }
                    return Err(WemError::BadSubcommandSeparator);
                }
            },
            TreeMode::FileColon => {
                if same_text(w.as_str(), ":") {
                    mode = TreeMode::FileName;
                } else {
                    proof {
                        lemma_tree_fold_err(sd, t, i + 1);
                    }
                    return Err(WemError::FileMissingColon);
                }
            },
            TreeMode::FileName => {
                if same_text(w.as_str(), "\"") {
                    proof {
                        lemma_tree_fold_err(sd, t, i + 1);
                    }
                    return Err(WemError::LongFileName);
                } else {
                    push_entry(&mut out, Actions::FILE, w, &loc, &pretext);
                    pretext = String::new();
                    mode = TreeMode::Top;
                }
            },
        }
        assert(tree_fold(sd, t.take(i + 1)) == Ok::<TreeState, WemError>(
            tree_view(mode, path@, loc@, name@, pretext@, out@),
        ));
        i = i + 1;
    }
    assert(t.take(tokens@.len() as int) =~= t);
    if mode == TreeMode::Top {
        Ok(out)
    } else if mode == TreeMode::DirAfterName && top_mode(&name) == TreeMode::Top {
        Ok(out)
    } else {
        Err(WemError::UnexpectedEnd)
    }
}

/// Whether the script `t` ends in the middle of an entry.
pub open spec fn tree_run_off(start_dir: Seq<char>, t: Seq<Seq<char>>) -> bool {
    tree_of(start_dir, t) is None
}

/// Reads the file tree of a token list, starting in `start_dir`:
/// `dir: name` enters a directory entry (opened by a following `{` and closed
/// by `}`), and `file(pre: text, ...): name` a file entry with the given
/// pretext; each entry is located at the open directories joined by `/`.
pub fn parser(tokens: Vec<String>, start_dir: String) -> (r: Result<Vec<ExecInfo>, WemError>)
    requires
        !tree_run_off(start_dir@, texts(tokens@)),
    ensures
        match tree_of(start_dir@, texts(tokens@)) {
            Some(Ok(v)) => r matches Ok(x) && specs(x@) == v,
            Some(Err(e)) => r == Err::<Vec<ExecInfo>, WemError>(e),
            None => false,
        },
{
    try_parser(tokens, start_dir)
}

} // verus!
