//! Reading the variable definitions (`def`) of a script.
use vstd::prelude::*;

use crate::error::WemError;
use crate::str_map::StrMap;
use crate::structure::texts;
use crate::text::{push_char, push_text, same_text};

verus! {

/// Where the reader of definitions stands.
#[derive(Clone, Copy, Debug, PartialEq, Eq, Structural)]
pub enum DefMode {
    /// Between definitions.
    Top,
    /// After `def`.
    AfterDef,
    /// After `def :`.
    AfterColon,
    /// Inside `{ ... }`, where a name or `}` comes next.
    BlockName,
    /// After a name, where `=` comes next.
    ExpectEq,
    /// After `=`.
    Value,
    /// Inside a quoted value.
    Quoted,
}

/// The state of the reader: its position, whether it is inside a block,
/// the name and quoted value being read, and the definitions so far.
pub struct DefState {
    pub mode: DefMode,
    pub block: bool,
    pub name: Seq<char>,
    pub acc: Seq<char>,
    pub vars: Map<Seq<char>, Seq<char>>,
}

pub open spec fn def_start() -> DefState {
    DefState {
        mode: DefMode::Top,
        block: false,
        name: Seq::empty(),
        acc: Seq::empty(),
        vars: Map::empty(),
    }
}

/// The mode after a definition is complete.
pub open spec fn after_value(block: bool) -> DefMode {
    if block {
        DefMode::BlockName
    } else {
        DefMode::Top
    }
}

/// Reads one token.
pub open spec fn def_step(st: DefState, w: Seq<char>) -> Result<DefState, WemError> {
    match st.mode {
        DefMode::Top => if w == "def"@ {
            Ok(DefState { mode: DefMode::AfterDef, ..st })
        } else {
            Ok(st)
        },
        DefMode::AfterDef => if w == ":"@ {
            Ok(DefState { mode: DefMode::AfterColon, ..st })
        } else {
            Err(WemError::DefMissingColon)
        },
        DefMode::AfterColon => if w == "{"@ {
            Ok(DefState { mode: DefMode::BlockName, block: true, ..st })
        } else {
            Ok(DefState { mode: DefMode::ExpectEq, block: false, name: w, ..st })
        },
        DefMode::BlockName => if w == "}"@ {
            Ok(DefState { mode: DefMode::Top, block: false, ..st })
        } else {
            Ok(DefState { mode: DefMode::ExpectEq, name: w, ..st })
        },
        DefMode::ExpectEq => if w == "="@ {
            Ok(DefState { mode: DefMode::Value, ..st })
        } else {
            Err(WemError::MissingAssign)
        },
        DefMode::Value => if w == "\""@ {
            Ok(DefState { mode: DefMode::Quoted, acc: Seq::empty(), ..st })
        } else {
            Ok(DefState { mode: after_value(st.block), vars: st.vars.insert(st.name, w), ..st })
        },
        DefMode::Quoted => if w == "\""@ {
            Ok(DefState { mode: after_value(st.block), vars: st.vars.insert(st.name, st.acc), ..st })
        } else {
            Ok(DefState { acc: st.acc + w + seq!['\n'], ..st })
        },
    }
}

/// Reads the tokens in order, stopping at the first error.
pub open spec fn def_fold(t: Seq<Seq<char>>) -> Result<DefState, WemError>
    decreases t.len(),
{
    if t.len() == 0 {
        Ok(def_start())
    } else {
        match def_fold(t.drop_last()) {
            Ok(st) => def_step(st, t.last()),
            Err(e) => Err(e),
        }
    }
}

/// What reading the definitions of `t` gives: the definitions, an error,
/// or `None` where the script ends in the middle of a definition.
pub open spec fn defs_of(t: Seq<Seq<char>>) -> Option<Result<Map<Seq<char>, Seq<char>>, WemError>> {
    match def_fold(t) {
        Err(e) => Some(Err(e)),
        Ok(st) => if st.mode == DefMode::Top {
            Some(Ok(st.vars))
        } else {
            None
        },
    }
}

pub proof fn lemma_def_fold_err(t: Seq<Seq<char>>, i: int)
    requires
        0 <= i <= t.len(),
        def_fold(t.take(i)) is Err,
    ensures
        def_fold(t) == def_fold(t.take(i)),
    decreases t.len() - i,
{
    if i < t.len() {
        assert(t.take(i + 1).drop_last() =~= t.take(i));
        lemma_def_fold_err(t, i + 1);
    } else {
        assert(t.take(i) =~= t);
    }
}

/// Reads the variable definitions of a token list; a script that ends in
/// the middle of a definition is reported as `WemError::UnexpectedEnd`.
pub fn try_hash_maker(tokens: &Vec<String>) -> (r: Result<StrMap<String>, WemError>)
    ensures
        match defs_of(texts(tokens@)) {
            Some(Ok(m)) => r matches Ok(v) && v@ == m,
            Some(Err(e)) => r == Err::<StrMap<String>, WemError>(e),
            None => r == Err::<StrMap<String>, WemError>(WemError::UnexpectedEnd),
        },
{
    let ghost t = texts(tokens@);
    let mut mode = DefMode::Top;
    let mut block = false;
    let mut name = String::new();
    let mut acc = String::new();
    let mut vars: StrMap<String> = StrMap::new();
    let mut i: usize = 0;
    assert(t.take(0) =~= Seq::<Seq<char>>::empty());
    while i < tokens.len()
        invariant
            i <= tokens@.len(),
            t == texts(tokens@),
            def_fold(t.take(i as int)) == Ok::<DefState, WemError>(
                DefState { mode: mode, block: block, name: name@, acc: acc@, vars: vars@ },
            ),
        decreases tokens.len() - i,
    {
        let w = &tokens[i];
        assert(t.take(i + 1).drop_last() =~= t.take(i as int));
        assert(t[i as int] == w@);
        match mode {
            DefMode::Top => {
                if same_text(w.as_str(), "def") {
                    mode = DefMode::AfterDef;
                }
            },
            DefMode::AfterDef => {
                if same_text(w.as_str(), ":") {
                    mode = DefMode::AfterColon;
                } else {
                    proof {
                        lemma_def_fold_err(t, i + 1);
                    }
                    return Err(WemError::DefMissingColon);
                }
            },
            DefMode::AfterColon => {
                if same_text(w.as_str(), "{") {
                    mode = DefMode::BlockName;
                    block = true;
                } else {
                    mode = DefMode::ExpectEq;
                    block = false;
                    name = w.clone();
                }
            },
            DefMode::BlockName => {
                if same_text(w.as_str(), "}") {
                    mode = DefMode::Top;
                    block = false;
                } else {
                    mode = DefMode::ExpectEq;
                    name = w.clone();
                }
            },
            DefMode::ExpectEq => {
                if same_text(w.as_str(), "=") {
                    mode = DefMode::Value;
                } else {
                    proof {
                        lemma_def_fold_err(t, i + 1);
                    }
                    return Err(WemError::MissingAssign);
                }
            },
            DefMode::Value => {
                if same_text(w.as_str(), "\"") {
                    mode = DefMode::Quoted;
                    acc = String::new();
                } else {
                    vars.insert(name.clone(), w.clone());
                    mode = if block { DefMode::BlockName } else { DefMode::Top };
                }
            },
            DefMode::Quoted => {
                if same_text(w.as_str(), "\"") {
                    vars.insert(name.clone(), acc.clone());
                    mode = if block { DefMode::BlockName } else { DefMode::Top };
                } else {
                    let ghost acc0 = acc@;
                    push_text(&mut acc, w.as_str());
                    push_char(&mut acc, '\n');
                    assert(acc@ =~= acc0 + w@ + seq!['\n']);
                }
            },
        }
        i = i + 1;
    }
    assert(t.take(tokens@.len() as int) =~= t);
    if mode == DefMode::Top {
        Ok(vars)
    } else {
        Err(WemError::UnexpectedEnd)
    }
}

/// Whether the script `t` ends in the middle of a definition.
pub open spec fn defs_run_off(t: Seq<Seq<char>>) -> bool {
    defs_of(t) is None
}

/// Reads the variable definitions of a token list: a single
/// `def: name = value`, or a block `def: { name = value ... }`, where a
/// value is one token or a quoted run of tokens, each followed by a line
/// break. A later definition of a name replaces an earlier one.
pub fn hash_maker(tokens: &Vec<String>) -> (r: Result<StrMap<String>, WemError>)
    requires
        !defs_run_off(texts(tokens@)),
    ensures
        match defs_of(texts(tokens@)) {
            Some(Ok(m)) => r matches Ok(v) && v@ == m,
            Some(Err(e)) => r == Err::<StrMap<String>, WemError>(e),
            None => false,
        },
{
    try_hash_maker(tokens)
}

} // verus!
