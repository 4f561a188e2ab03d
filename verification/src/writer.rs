//! Writing a script that describes a file tree.
use vstd::prelude::*;

use crate::str_map::StrMap;
use crate::structure::{texts, Actions, ExecInfo, ExecSpec};
use crate::text::{contains_text, decimal, decimal_string, has_sub, push_text};
use crate::tree::specs;

verus! {

/// `n` copies of `t`.
pub open spec fn repeat(t: Seq<char>, n: int) -> Seq<char>
    decreases n,
{
    if n <= 0 {
        Seq::empty()
    } else {
        repeat(t, n - 1) + t
    }
}

/// The depth bookkeeping: the current depth, the previous location, and the
/// depth given to each location that starts a deeper level.
pub struct IndentState {
    pub indent: int,
    pub before: Seq<char>,
    pub map: Map<Seq<char>, int>,
}

/// The depths of the locations of `s`: the first location has depth 0, and
/// each later location that holds the previous one as a part (and differs
/// from it) is one level deeper than the deepest so far.
pub open spec fn indent_fold(s: Seq<ExecSpec>) -> IndentState
    decreases s.len(),
{
    if s.len() == 0 {
        IndentState { indent: 0, before: Seq::empty(), map: Map::empty() }
    } else {
        let st = indent_fold(s.drop_last());
        let c = s.last();
        if s.len() == 1 {
            IndentState { indent: st.indent, before: c.location, map: st.map.insert(c.location, 0) }
        } else if has_sub(c.location, st.before) && c.location != st.before {
            IndentState {
                indent: st.indent + 1,
                before: c.location,
                map: st.map.insert(c.location, st.indent + 1),
            }
        } else {
            IndentState { before: c.location, ..st }
        }
    }
}

/// The depth recorded for `loc`, or 0.
pub open spec fn indent_of(m: Map<Seq<char>, int>, loc: Seq<char>) -> int {
    if m.contains_key(loc) {
        m[loc]
    } else {
        0
    }
}

/// The unit of indentation.
pub open spec fn pad() -> Seq<char> {
    "   "@
}

/// The line that closes a directory, indented `k` times.
pub open spec fn close_line(k: int) -> Seq<char> {
    "\n"@ + repeat(pad(), k) + "}"@
}

/// The line written for entry `i`, whose pretext, if any, is variable
/// number `varnum`: its indentation, then `dir:` and the name (with `{`
/// where a depth is recorded for the directory's own path), or `file`,
/// the pretext's variable and the name.
pub open spec fn entry_head(s: Seq<ExecSpec>, m: Map<Seq<char>, int>, i: int, varnum: nat) -> Seq<char> {
    let c = s[i];
    let head = repeat(pad(), indent_of(m, c.location));
    let body = match c.action {
        Actions::DIR => "dir:"@ + c.name + (if m.contains_key(c.location + "/"@ + c.name) {
            " {"@
        } else {
            Seq::empty()
        }),
        Actions::FILE => "file"@ + (if c.pretext.len() > 0 {
            "(pre: \"%"@ + decimal(varnum) + "%\")"@
        } else {
            Seq::empty()
        }) + ":"@ + c.name,
    };
    head + body
}

/// Whether a `}` line follows entry `i`: where the next location is a
/// proper part of the entry's own, and after the last entry.
pub open spec fn closes_after(s: Seq<ExecSpec>, i: int) -> bool {
    i + 1 >= s.len() || (s[i].location != s[i + 1].location && has_sub(s[i].location, s[i + 1].location))
}

/// The indentation of the `}` line after entry `i`: one level less than
/// the entry's recorded depth, none after the last entry.
pub open spec fn close_indent(s: Seq<ExecSpec>, m: Map<Seq<char>, int>, i: int) -> int {
    if i + 1 < s.len() {
        indent_of(m, s[i].location) - 1
    } else {
        0
    }
}

/// The text written for entry `i`: its line, then one `}` line where the
/// next location is a proper part of the entry's own, and one after the
/// last entry.
pub open spec fn entry_text(s: Seq<ExecSpec>, m: Map<Seq<char>, int>, i: int, varnum: nat) -> Seq<char> {
    entry_head(s, m, i, varnum) + (if closes_after(s, i) {
        close_line(close_indent(s, m, i))
    } else {
        Seq::empty()
    }) + "\n"@
}

/// Whether an entry's pretext becomes a variable.
pub open spec fn has_pretext(c: ExecSpec) -> bool {
    c.action == Actions::FILE && c.pretext.len() > 0
}

/// The text of the first `k` entries, the number of variables so far, and
/// their values.
pub open spec fn body_fold(s: Seq<ExecSpec>, m: Map<Seq<char>, int>, k: int) -> (Seq<char>, nat, Seq<Seq<char>>)
    decreases k,
{
    if k <= 0 {
        (Seq::empty(), 0, Seq::empty())
    } else {
        let (fs, vn, vars) = body_fold(s, m, k - 1);
        let c = s[k - 1];
        (
            fs + entry_text(s, m, k - 1, vn),
            if has_pretext(c) { vn + 1 } else { vn },
            if has_pretext(c) { vars.push(c.pretext) } else { vars },
        )
    }
}

/// The lines `n = "value"` of the variables, numbered from 0.
pub open spec fn var_lines(vars: Seq<Seq<char>>) -> Seq<char>
    decreases vars.len(),
{
    if vars.len() == 0 {
        Seq::empty()
    } else {
        var_lines(vars.drop_last()) + decimal((vars.len() - 1) as nat) + " = \""@ + vars.last()
            + "\"\n"@
    }
}

/// The `def` block of the variables, if there are any.
pub open spec fn defs_text(vars: Seq<Seq<char>>) -> Seq<char> {
    if vars.len() == 0 {
        Seq::empty()
    } else {
        "def: {\n"@ + var_lines(vars) + "}\n\n"@
    }
}

/// The `desc` line, if there is a description.
pub open spec fn desc_text(desc: Option<Seq<char>>) -> Seq<char> {
    match desc {
        Some(l) => "desc: \""@ + l + "\"\n"@,
        None => Seq::empty(),
    }
}

/// The script that describes the entries `s`.
pub open spec fn wem_text(s: Seq<ExecSpec>, desc: Option<Seq<char>>) -> Seq<char> {
    let m = indent_fold(s).map;
    let (fs, _, vars) = body_fold(s, m, s.len() as int);
    desc_text(desc) + defs_text(vars) + fs
}


fn push_repeat(s: &mut String, t: &str, n: i32)
    ensures
        final(s)@ == old(s)@ + repeat(t@, n as int),
{
    let mut k: i32 = 0;
    assert(old(s)@ + repeat(t@, 0) =~= old(s)@);
    while k < n
        invariant
            0 <= k,
            k <= n || (n < 0 && k == 0),
            s@ == old(s)@ + repeat(t@, k as int),
        decreases n - k,
    {
        let ghost s0 = s@;
        push_text(s, t);
        k = k + 1;
        assert(s@ =~= old(s)@ + repeat(t@, k as int));
    }
    proof {
        if n < 0 {
            assert(k == 0);
            assert(repeat(t@, n as int) =~= Seq::<char>::empty());
        }
    }
}

/// The depths of the locations, as the writer computes them.
pub open spec fn depths(m: Map<Seq<char>, i32>) -> Map<Seq<char>, int> {
    m.map_values(|v: i32| v as int)
}

fn indent_map_of(wem_script: &Vec<ExecInfo>) -> (m: StrMap<i32>)
    requires
        1 <= wem_script@.len() < 0x7fff_ffff,
    ensures
        depths(m@) == indent_fold(specs(wem_script@)).map,
        forall|l: Seq<char>| #[trigger] m@.contains_key(l) ==> 0 <= m@[l] <= wem_script@.len(),
{
    let ghost s = specs(wem_script@);
    let mut indent_map: StrMap<i32> = StrMap::new();
    let mut indent: i32 = 0;
    let mut before = String::new();
    let mut k: usize = 0;
    assert(s.take(0) =~= Seq::<ExecSpec>::empty());
    assert(depths(indent_map@) =~= Map::<Seq<char>, int>::empty());
    while k < wem_script.len()
        invariant
            k <= wem_script@.len() < 0x7fff_ffff,
            s == specs(wem_script@),
            0 <= indent <= k,
            forall|l: Seq<char>| #[trigger] indent_map@.contains_key(l) ==> 0 <= indent_map@[l] <= indent,
            indent_fold(s.take(k as int)) == (IndentState {
                indent: indent as int,
                before: before@,
                map: depths(indent_map@),
            }),
        decreases wem_script.len() - k,
    {
        let c = &wem_script[k];
        assert(s.take(k + 1).drop_last() =~= s.take(k as int));
        assert(s[k as int] == c@);
        let ghost m0 = indent_map@;
        if k == 0 {
            indent_map.insert(c.location.clone(), 0);
            assert(depths(indent_map@) =~= depths(m0).insert(c.location@, 0));
        } else if contains_text(c.location.as_str(), before.as_str()) && !(c.location == before) {
            indent = indent + 1;
            indent_map.insert(c.location.clone(), indent);
            assert(depths(indent_map@) =~= depths(m0).insert(c.location@, indent as int));
        }
        before = c.location.clone();
        k = k + 1;
    }
    assert(s.take(wem_script@.len() as int) =~= s);
    indent_map
}

fn depth_at(m: &StrMap<i32>, loc: &String) -> (d: i32)
    ensures
        d as int == indent_of(depths(m@), loc@),
        m@.contains_key(loc@) ==> d == m@[loc@],
        !m@.contains_key(loc@) ==> d == 0,
{
    match m.get(loc) {
        Some(v) => *v,
        None => 0,
    }
}

fn entry_line(wem_script: &Vec<ExecInfo>, m: &StrMap<i32>, k: usize, varnum: usize) -> (line: String)
    requires
        k < wem_script@.len(),
        forall|l: Seq<char>| #[trigger] m@.contains_key(l) ==> 0 <= m@[l],
    ensures
        line@ == entry_text(specs(wem_script@), depths(m@), k as int, varnum as nat),
{
    let ghost s = specs(wem_script@);
    let ghost mm = depths(m@);
    let c = &wem_script[k];
    assert(s[k as int] == c@);
    let mut line = String::new();
    let ind = depth_at(m, &c.location);
    push_repeat(&mut line, "   ", ind);
    let ghost head = line@;
    match c.action {
        Actions::DIR => {
            push_text(&mut line, "dir:");
            push_text(&mut line, c.name.as_str());
            let mut j = c.location.clone();
            push_text(&mut j, "/");
            push_text(&mut j, c.name.as_str());
            let opened = m.get(&j).is_some();
            if opened {
                push_text(&mut line, " {");
            }
            assert(line@ =~= head + ("dir:"@ + c.name@ + (if mm.contains_key(c.location@ + "/"@ + c.name@) {
                " {"@
            } else {
                Seq::<char>::empty()
            })));
        },
        Actions::FILE => {
            push_text(&mut line, "file");
            let has_pre = !c.pretext.as_str().is_empty();
            assert(has_pre == (c.pretext@.len() > 0));
            if has_pre {
                push_text(&mut line, "(pre: \"%");
                let num = decimal_string(varnum);
                push_text(&mut line, num.as_str());
                push_text(&mut line, "%\")");
            }
            push_text(&mut line, ":");
            push_text(&mut line, c.name.as_str());
            assert(line@ =~= head + ("file"@ + (if c.pretext@.len() > 0 {
                "(pre: \"%"@ + decimal(varnum as nat) + "%\")"@
            } else {
                Seq::<char>::empty()
            }) + ":"@ + c.name@));
        },
    }
    let ghost before_close = line@;
    if k < wem_script.len() - 1 {
        let nx = &wem_script[k + 1];
        assert(s[k + 1] == nx@);
        if !(c.location == nx.location) && contains_text(c.location.as_str(), nx.location.as_str()) {
            push_text(&mut line, "\n");
            push_repeat(&mut line, "   ", ind - 1);
            push_text(&mut line, "}");
            assert(line@ =~= before_close + close_line(close_indent(s, mm, k as int)));
        } else {
            assert(line@ =~= before_close + Seq::<char>::empty());
        }
    } else {
        push_text(&mut line, "\n}");
        proof {
            reveal_strlit("\n}");
            reveal_strlit("\n");
            reveal_strlit("}");
        }
        assert(repeat(pad(), 0) =~= Seq::<char>::empty());
        assert(line@ =~= before_close + close_line(close_indent(s, mm, k as int)));
    }
    push_text(&mut line, "\n");
    line
}


fn var_lines_exec(vars: &Vec<String>) -> (r: String)
    ensures
        r@ == var_lines(texts(vars@)),
{
    let ghost t = texts(vars@);
    let mut r = String::new();
    let mut i: usize = 0;
    assert(t.take(0) =~= Seq::<Seq<char>>::empty());
    while i < vars.len()
        invariant
            i <= vars@.len(),
            t == texts(vars@),
            r@ == var_lines(t.take(i as int)),
        decreases vars.len() - i,
    {
        let ghost r0 = r@;
        let num = decimal_string(i);
        push_text(&mut r, num.as_str());
        push_text(&mut r, " = \"");
        push_text(&mut r, vars[i].as_str());
        push_text(&mut r, "\"\n");
        assert(t.take(i + 1).drop_last() =~= t.take(i as int));
        assert(t[i as int] == vars@[i as int]@);
        assert(r@ =~= r0 + decimal(i as nat) + " = \""@ + t[i as int] + "\"\n"@);
        i = i + 1;
    }
    assert(t.take(vars@.len() as int) =~= t);
    r
}

/// Writes the script that describes a file tree: an optional `desc` line,
/// a `def` block holding the pretext of each file as a numbered variable,
/// and one indented `dir:`/`file:` line per entry, opening a directory with
/// `{` where a depth is recorded for its own path, and writing a `}` line
/// where the next location is a proper part of the entry's own, and after
/// the last entry.
pub fn create_wem(wem_script: &Vec<ExecInfo>, desc: Option<String>) -> (r: String)
    requires
        1 <= wem_script@.len() < 0x7fff_ffff,
    ensures
        r@ == wem_text(
            specs(wem_script@),
            match desc {
                Some(d) => Some(d@),
                None => None,
            },
        ),
{
    let ghost s = specs(wem_script@);
    let m = indent_map_of(wem_script);
    let ghost mm = depths(m@);
    let mut fs = String::new();
    let mut varnum: usize = 0;
    let mut vars: Vec<String> = Vec::new();
    let mut k: usize = 0;
    assert(texts(vars@) =~= Seq::<Seq<char>>::empty());
    while k < wem_script.len()
        invariant
            k <= wem_script@.len(),
            s == specs(wem_script@),
            mm == depths(m@),
            mm == indent_fold(s).map,
            forall|l: Seq<char>| #[trigger] m@.contains_key(l) ==> 0 <= m@[l],
            varnum <= k,
            body_fold(s, mm, k as int) == (fs@, varnum as nat, texts(vars@)),
        decreases wem_script.len() - k,
    {
        let line = entry_line(wem_script, &m, k, varnum);
        push_text(&mut fs, line.as_str());
        let c = &wem_script[k];
        assert(s[k as int] == c@);
        let ghost v0 = texts(vars@);
        if c.action == Actions::FILE && !c.pretext.as_str().is_empty() {
            vars.push(c.pretext.clone());
            varnum = varnum + 1;
            assert(texts(vars@) =~= v0.push(c.pretext@));
        }
        k = k + 1;
    }
    let mut result = String::new();
    match &desc {
        Some(line) => {
            push_text(&mut result, "desc: \"");
            push_text(&mut result, line.as_str());
            push_text(&mut result, "\"\n");
        },
        None => {},
    }
    let ghost dpart = result@;
    if vars.len() > 0 {
        push_text(&mut result, "def: {\n");
        let lines = var_lines_exec(&vars);
        push_text(&mut result, lines.as_str());
        push_text(&mut result, "}\n\n");
    }
    assert(result@ =~= dpart + defs_text(texts(vars@)));
    push_text(&mut result, fs.as_str());
    result
}

} // verus!
