//! Reading the description (`desc`) and the definitions reference (`dref`) of a script.
use vstd::prelude::*;

use crate::error::WemError;
use crate::structure::texts;
use crate::text::{push_char, push_text, same_text, trim_end, trim_end_text};

verus! {

/// Where the reader of descriptions stands.
#[derive(Clone, Copy, Debug, PartialEq, Eq, Structural)]
pub enum DescMode {
    /// Looking for `desc`.
    Top,
    /// After `desc`.
    AfterDesc,
    /// After `desc :`.
    Value,
    /// Inside a quoted description.
    Quoted,
    /// After a description; the next token is passed over.
    Skip,
}

/// Reads one token; the state is the mode and the description so far.
pub open spec fn desc_step(st: (DescMode, Seq<char>), w: Seq<char>) -> Result<(DescMode, Seq<char>), WemError> {
    let (mode, desc) = st;
    match mode {
        DescMode::Top => if w == "desc"@ {
            Ok((DescMode::AfterDesc, desc))
        } else {
            Ok((DescMode::Top, desc))
        },
        DescMode::AfterDesc => if w == ":"@ {
            Ok((DescMode::Value, desc))
        } else if w == "("@ {
            Err(WemError::DescSubcommand)
        } else {
            Err(WemError::DescMissingColon)
        },
        DescMode::Value => if w == "\""@ {
            Ok((DescMode::Quoted, desc))
        } else {
            Ok((DescMode::Skip, desc + w))
        },
        DescMode::Quoted => if w == "\""@ {
            Ok((DescMode::Skip, trim_end(desc)))
        } else {
            Ok((DescMode::Quoted, desc + w + seq!['\n']))
        },
        DescMode::Skip => Ok((DescMode::Top, desc)),
    }
}

/// Reads the tokens in order, stopping at the first error.
pub open spec fn desc_fold(t: Seq<Seq<char>>) -> Result<(DescMode, Seq<char>), WemError>
    decreases t.len(),
{
    if t.len() == 0 {
        Ok((DescMode::Top, Seq::empty()))
    } else {
        match desc_fold(t.drop_last()) {
            Ok(st) => desc_step(st, t.last()),
            Err(e) => Err(e),
        }
    }
}

/// What reading the description of `t` gives: the description, an error,
/// or `None` where the script ends in the middle of a description.
pub open spec fn desc_of(t: Seq<Seq<char>>) -> Option<Result<Seq<char>, WemError>> {
    match desc_fold(t) {
        Err(e) => Some(Err(e)),
        Ok((mode, desc)) => if mode == DescMode::Top || mode == DescMode::Skip {
            Some(Ok(desc))
        } else {
            None
        },
    }
}

pub proof fn lemma_desc_fold_err(t: Seq<Seq<char>>, i: int)
    requires
        0 <= i <= t.len(),
        desc_fold(t.take(i)) is Err,
    ensures
        desc_fold(t) == desc_fold(t.take(i)),
    decreases t.len() - i,
{
    if i < t.len() {
        assert(t.take(i + 1).drop_last() =~= t.take(i));
        lemma_desc_fold_err(t, i + 1);
    } else {
        assert(t.take(i) =~= t);
    }
}

/// Reads the description of a token list; a script that ends in the middle
/// of its description is reported as `WemError::UnexpectedEnd`.
pub fn try_desc_parser(lex: &Vec<String>) -> (r: Result<String, WemError>)
    ensures
        match desc_of(texts(lex@)) {
            Some(Ok(d)) => r matches Ok(s) && s@ == d,
            Some(Err(e)) => r == Err::<String, WemError>(e),
            None => r == Err::<String, WemError>(WemError::UnexpectedEnd),
        },
{
    let ghost t = texts(lex@);
    let mut mode = DescMode::Top;
    let mut desc = String::new();
    let mut i: usize = 0;
    assert(t.take(0) =~= Seq::<Seq<char>>::empty());
    while i < lex.len()
        invariant
            i <= lex@.len(),
            t == texts(lex@),
            desc_fold(t.take(i as int)) == Ok::<(DescMode, Seq<char>), WemError>((mode, desc@)),
        decreases lex.len() - i,
    {
        let w = &lex[i];
        assert(t.take(i + 1).drop_last() =~= t.take(i as int));
        assert(t[i as int] == w@);
        match mode {
            DescMode::Top => {
                if same_text(w.as_str(), "desc") {
                    mode = DescMode::AfterDesc;
                }
            },
            DescMode::AfterDesc => {
                if same_text(w.as_str(), ":") {
                    mode = DescMode::Value;
                } else if same_text(w.as_str(), "(") {
                    proof {
                        lemma_desc_fold_err(t, i + 1);
                    }
                    return Err(WemError::DescSubcommand);
                } else {
                    proof {
                        lemma_desc_fold_err(t, i + 1);
                    }
                    return Err(WemError::DescMissingColon);
                }
            },
            DescMode::Value => {
                if same_text(w.as_str(), "\"") {
                    mode = DescMode::Quoted;
                } else {
                    push_text(&mut desc, w.as_str());
                    mode = DescMode::Skip;
                }
            },
            DescMode::Quoted => {
                if same_text(w.as_str(), "\"") {
                    desc = trim_end_text(desc.as_str());
                    mode = DescMode::Skip;
                } else {
                    let ghost d0 = desc@;
                    push_text(&mut desc, w.as_str());
                    push_char(&mut desc, '\n');
                    assert(desc@ =~= d0 + w@ + seq!['\n']);
                }
            },
            DescMode::Skip => {
                mode = DescMode::Top;
            },
        }
        i = i + 1;
    }
    assert(t.take(lex@.len() as int) =~= t);
    if mode == DescMode::Top || mode == DescMode::Skip {
        Ok(desc)
    } else {
        Err(WemError::UnexpectedEnd)
    }
}

/// Whether the script `t` ends in the middle of its description.
pub open spec fn desc_run_off(t: Seq<Seq<char>>) -> bool {
    desc_of(t) is None
}

/// Reads the description of a token list: the text after each `desc :`,
/// one token or a quoted run of tokens joined by line breaks (with the
/// trailing whitespace of the whole description dropped when a quoted run
/// ends). The token after a description is passed over.
pub fn desc_parser(lex: Vec<String>) -> (r: Result<String, WemError>)
    requires
        !desc_run_off(texts(lex@)),
    ensures
        match desc_of(texts(lex@)) {
            Some(Ok(d)) => r matches Ok(s) && s@ == d,
            Some(Err(e)) => r == Err::<String, WemError>(e),
            None => false,
        },
{
    try_desc_parser(&lex)
}

/// The first index at which `w` occurs in `t`.
pub open spec fn first_index(t: Seq<Seq<char>>, w: Seq<char>) -> Option<int>
    decreases t.len(),
{
    if t.len() == 0 {
        None
    } else {
        match first_index(t.drop_last(), w) {
            Some(k) => Some(k),
            None => if t.last() == w {
                Some(t.len() - 1)
            } else {
                None
            },
        }
    }
}

pub proof fn lemma_first_index(t: Seq<Seq<char>>, w: Seq<char>)
    ensures
        match first_index(t, w) {
            Some(k) => 0 <= k < t.len() && t[k] == w && forall|j: int| 0 <= j < k ==> t[j] != w,
            None => forall|j: int| 0 <= j < t.len() ==> t[j] != w,
        },
    decreases t.len(),
{
    if t.len() > 0 {
        lemma_first_index(t.drop_last(), w);
        assert forall|j: int| 0 <= j < t.len() - 1 implies t[j] == t.drop_last()[j] by {}
    }
}

pub proof fn lemma_first_index_prefix(t: Seq<Seq<char>>, w: Seq<char>, i: int)
    requires
        0 <= i <= t.len(),
        first_index(t.take(i), w) is Some,
    ensures
        first_index(t, w) == first_index(t.take(i), w),
    decreases t.len() - i,
{
    if i < t.len() {
        assert(t.take(i + 1).drop_last() =~= t.take(i));
        lemma_first_index_prefix(t, w, i + 1);
    } else {
        assert(t.take(i) =~= t);
    }
}

/// What reading the definitions reference of `t` gives: the token after the
/// first `dref :`, an error, or `None` where the script ends first.
pub open spec fn dref_of(t: Seq<Seq<char>>) -> Option<Result<Seq<char>, WemError>> {
    match first_index(t, "dref"@) {
        None => Some(Err(WemError::NoDref)),
        Some(k) => if k + 1 >= t.len() {
            None
        } else if t[k + 1] != ":"@ {
            Some(Err(WemError::DrefMissingColon))
        } else if k + 2 >= t.len() {
            None
        } else {
            Some(Ok(t[k + 2]))
        },
    }
}

/// Reads the definitions reference of a token list; a script that ends
/// right after `dref` or `dref :` is reported as `WemError::UnexpectedEnd`.
pub fn try_dref_parser(lex: &Vec<String>) -> (r: Result<String, WemError>)
    ensures
        match dref_of(texts(lex@)) {
            Some(Ok(d)) => r matches Ok(s) && s@ == d,
            Some(Err(e)) => r == Err::<String, WemError>(e),
            None => r == Err::<String, WemError>(WemError::UnexpectedEnd),
        },
{
    let ghost t = texts(lex@);
    let mut i: usize = 0;
    assert(t.take(0) =~= Seq::<Seq<char>>::empty());
    while i < lex.len()
        invariant
            i <= lex@.len(),
            t == texts(lex@),
            first_index(t.take(i as int), "dref"@) is None,
        decreases lex.len() - i,
    {
        assert(t.take(i + 1).drop_last() =~= t.take(i as int));
        assert(t[i as int] == lex@[i as int]@);
        if same_text(lex[i].as_str(), "dref") {
            proof {
                lemma_first_index_prefix(t, "dref"@, i + 1);
            }
            if i + 1 >= lex.len() {
                return Err(WemError::UnexpectedEnd);
            }
            assert(t[i + 1] == lex@[i + 1]@);
            if !same_text(lex[i + 1].as_str(), ":") {
                return Err(WemError::DrefMissingColon);
            }
            if i + 2 >= lex.len() {
                return Err(WemError::UnexpectedEnd);
            }
            assert(t[i + 2] == lex@[i + 2]@);
            return Ok(lex[i + 2].clone());
        }
        i = i + 1;
    }
    assert(t.take(lex@.len() as int) =~= t);
    Err(WemError::NoDref)
}

/// Whether the script `t` ends right after its first `dref` or `dref :`.
pub open spec fn dref_run_off(t: Seq<Seq<char>>) -> bool {
    dref_of(t) is None
}

/// Reads the definitions reference of a token list: the token after the
/// first `dref :`.
pub fn dref_parser(lex: &Vec<String>) -> (r: Result<String, WemError>)
    requires
        !dref_run_off(texts(lex@)),
    ensures
        match dref_of(texts(lex@)) {
            Some(Ok(d)) => r matches Ok(s) && s@ == d,
            Some(Err(e)) => r == Err::<String, WemError>(e),
            None => false,
        },
{
    try_dref_parser(lex)
}

} // verus!
