//! The records that scripts are parsed into and that drive file generation.
use vstd::prelude::*;

use crate::text::push_text;

verus! {

/// What a parsed script entry asks for: a directory or a file.
#[allow(non_camel_case_types)]
#[derive(Clone, Copy, Debug, PartialEq, Eq, Structural)]
pub enum Actions {
    DIR,
    FILE,
}

/// The abstract value of an [`ExecInfo`].
pub struct ExecSpec {
    pub action: Actions,
    pub name: Seq<char>,
    pub location: Seq<char>,
    pub pretext: Seq<char>,
}

/// One entry of a file tree: create `location/name` as a directory or a
/// file, the latter holding `pretext`.
#[derive(Debug)]
pub struct ExecInfo {
    pub action: Actions,
    pub name: String,
    pub location: String,
    pub pretext: String,
}

impl View for ExecInfo {
    type V = ExecSpec;

    open spec fn view(&self) -> ExecSpec {
        ExecSpec {
            action: self.action,
            name: self.name@,
            location: self.location@,
            pretext: self.pretext@,
        }
    }
}

/// The concatenation of a sequence of texts.
pub open spec fn concat(parts: Seq<Seq<char>>) -> Seq<char>
    decreases parts.len(),
{
    if parts.len() == 0 {
        Seq::empty()
    } else {
        concat(parts.drop_last()) + parts.last()
    }
}

/// The views of a sequence of strings.
pub open spec fn texts(v: Seq<String>) -> Seq<Seq<char>> {
    v.map_values(|s: String| s@)
}

/// The concatenation of all strings of `parts` (std's `join("")`).
pub fn concat_strings(parts: &Vec<String>) -> (r: String)
    ensures
        r@ == concat(texts(parts@)),
{
    let mut r = String::new();
    let mut i: usize = 0;
    while i < parts.len()
        invariant
            i <= parts@.len(),
            r@ == concat(texts(parts@).take(i as int)),
        decreases parts.len() - i,
    {
        push_text(&mut r, parts[i].as_str());
        assert(texts(parts@).take(i + 1).drop_last() =~= texts(parts@).take(i as int));
        i = i + 1;
    }
    assert(texts(parts@).take(parts@.len() as int) =~= texts(parts@));
    r
}

impl ExecInfo {
    /// An empty directory entry.
    pub fn new() -> (r: ExecInfo)
        ensures
            r@ == (ExecSpec {
                action: Actions::DIR,
                name: Seq::empty(),
                location: Seq::empty(),
                pretext: Seq::empty(),
            }),
    {
        ExecInfo {
            action: Actions::DIR,
            name: String::new(),
            location: String::new(),
            pretext: String::new(),
        }
    }

    /// A copy of this entry whose pretext is the concatenation of `prefrom`.
    pub fn from_pre(&self, prefrom: Vec<String>) -> (r: ExecInfo)
        ensures
            r@ == (ExecSpec { pretext: concat(texts(prefrom@)), ..self@ }),
    {
        ExecInfo {
            action: self.action,
            name: self.name.clone(),
            location: self.location.clone(),
            pretext: concat_strings(&prefrom),
        }
    }
}

/// The settings of a `make` run.
#[derive(Debug)]
pub struct MakeArg {
    pub ref_name: String,
    pub pro_name: String,
    pub ref_src: String,
    pub time_fmt: String,
    pub output: Option<String>,
}

impl MakeArg {
    /// Assembles the settings from their parts.
    pub fn from(
        reference_name: String,
        project_name: String,
        reference_src: String,
        time_format: String,
        out: Option<String>,
    ) -> (r: MakeArg)
        ensures
            r.ref_name == reference_name,
            r.pro_name == project_name,
            r.ref_src == reference_src,
            r.time_fmt == time_format,
            r.output == out,
    {
        MakeArg {
            ref_name: reference_name,
            pro_name: project_name,
            ref_src: reference_src,
            time_fmt: time_format,
            output: out,
        }
    }
}

/// The configuration file's contents.
#[derive(Debug)]
pub struct Config {
    pub reference_path: String,
    pub time_format: String,
}

/// A variable definition being read: its name and its value.
#[derive(Debug)]
pub struct VarInfo {
    pub name: String,
    pub var: String,
}

impl VarInfo {
    /// An empty definition.
    pub fn new() -> (r: VarInfo)
        ensures
            r.name@ == Seq::<char>::empty(),
            r.var@ == Seq::<char>::empty(),
    {
        VarInfo { name: String::new(), var: String::new() }
    }
}

} // verus!
