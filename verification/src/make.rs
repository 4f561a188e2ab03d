//! The steps of `make`, `list` and `read` that compute rather than read or write.
use vstd::prelude::*;

use crate::arg::MakeCommand;
use crate::cards::{
    card_env, date_in_format, date_stand_in, lemma_run_off_date, lemma_subst_all_errors, reports, subst_all,
    try_val_parser, CardEnv,
};
use crate::error::WemError;
use crate::headers::{desc_of, try_desc_parser};
use crate::lexer::{lexed, lexer};
use crate::paths::{del_filename, is_last_sep};
use crate::str_map::StrMap;
use crate::structure::{concat, texts, Actions, Config, ExecInfo, ExecSpec, MakeArg};
use crate::text::{has_char, push_char, push_text, trim, trim_text};
use crate::tree::specs;
use crate::writer::repeat;

verus! {

/// The settings of `make`: the project name defaults to the script name,
/// and the script directory and time format to the configured ones.
pub fn make_arg_from(command: MakeCommand, config: Config) -> (r: MakeArg)
    ensures
        r.ref_name == command.reference_name,
        r.pro_name == (match command.project_name {
            Some(p) => p,
            None => command.reference_name,
        }),
        r.ref_src == (match command.reference_source {
            Some(s) => s,
            None => config.reference_path,
        }),
        r.time_fmt == (match command.time_format {
            Some(f) => f,
            None => config.time_format,
        }),
        r.output == command.output,
{
    let pro_name = match command.project_name {
        Some(p) => p,
        None => command.reference_name.clone(),
    };
    let ref_src = match command.reference_source {
        Some(s) => s,
        None => config.reference_path,
    };
    let time_fmt = match command.time_format {
        Some(f) => f,
        None => config.time_format,
    };
    MakeArg::from(command.reference_name, pro_name, ref_src, time_fmt, command.output)
}

/// The text that stands for a pretext whose cards could not be replaced.
pub open spec fn error_pretext() -> Seq<char> {
    "Error pretext"@
}

/// A pretext with its cards replaced; `None` where a card is never closed.
pub open spec fn pretext_after(env: CardEnv, p: Seq<char>) -> Option<Seq<char>> {
    match subst_all(env, seq![p]) {
        Some(Ok(v)) => Some(concat(v)),
        Some(Err(_)) => Some(error_pretext()),
        None => None,
    }
}

/// The entries with the cards of their pretexts replaced; `None` where a
/// card is never closed.
pub open spec fn pretexts_after(env: CardEnv, s: Seq<ExecSpec>) -> Option<Seq<ExecSpec>>
    decreases s.len(),
{
    if s.len() == 0 {
        Some(Seq::empty())
    } else {
        match pretexts_after(env, s.drop_last()) {
            Some(v) => match pretext_after(env, s.last().pretext) {
                Some(p) => Some(v.push(ExecSpec { pretext: p, ..s.last() })),
                None => None,
            },
            None => None,
        }
    }
}

pub proof fn lemma_pretexts_stop(env: CardEnv, s: Seq<ExecSpec>, i: int)
    requires
        0 <= i <= s.len(),
        pretexts_after(env, s.take(i)) is None,
    ensures
        pretexts_after(env, s) is None,
    decreases s.len() - i,
{
    if i < s.len() {
        assert(s.take(i + 1).drop_last() =~= s.take(i));
        lemma_pretexts_stop(env, s, i + 1);
    } else {
        assert(s.take(i) =~= s);
    }
}

/// Replaces the cards in the pretext of each entry; a pretext whose cards
/// cannot be replaced becomes `Error pretext`. A card that is never closed
/// is reported as `WemError::UnclosedCard`. Each pretext renders `%DATE%`
/// with the time of its own reading of the clock.
pub fn substitute_pretexts(parsed: &Vec<ExecInfo>, vars: &StrMap<String>, arg: &MakeArg) -> (r: Result<Vec<ExecInfo>, WemError>)
    ensures
        (r is Err) == (pretexts_after(card_env(*arg, vars@, date_stand_in(arg.time_fmt@)), specs(parsed@)) is None),
        r matches Ok(v) ==> {
            &&& v@.len() == parsed@.len()
            &&& forall|i: int|
                0 <= i < v@.len() ==> (exists|d: Option<Seq<char>>|
                    date_in_format(arg.time_fmt@, d) && #[trigger] pretext_after(card_env(*arg, vars@, d), parsed@[i]@.pretext) == Some(
                        v@[i]@.pretext,
                    )) && v@[i]@ == (ExecSpec { pretext: v@[i]@.pretext, ..parsed@[i]@ })
        },
        r matches Err(e) ==> e == WemError::UnclosedCard,
        !has_char(arg.time_fmt@, '%') ==> match pretexts_after(
            card_env(*arg, vars@, Some(arg.time_fmt@)),
            specs(parsed@),
        ) {
            Some(v) => r matches Ok(x) && specs(x@) == v,
            None => r == Err::<Vec<ExecInfo>, WemError>(WemError::UnclosedCard),
        },
{
    let ghost s = specs(parsed@);
    let ghost envf = card_env(*arg, vars@, Some(arg.time_fmt@));
    let ghost envn = card_env(*arg, vars@, date_stand_in(arg.time_fmt@));
    let mut out: Vec<ExecInfo> = Vec::new();
    let mut i: usize = 0;
    assert(s.take(0) =~= Seq::<ExecSpec>::empty());
    assert(specs(out@) =~= Seq::<ExecSpec>::empty());
    while i < parsed.len()
        invariant
            i <= parsed@.len(),
            s == specs(parsed@),
            envf == card_env(*arg, vars@, Some(arg.time_fmt@)),
            envn == card_env(*arg, vars@, date_stand_in(arg.time_fmt@)),
            pretexts_after(envn, s.take(i as int)) is Some,
            out@.len() == i,
            forall|j: int|
                0 <= j < i ==> (exists|d: Option<Seq<char>>|
                    date_in_format(arg.time_fmt@, d) && #[trigger] pretext_after(card_env(*arg, vars@, d), parsed@[j]@.pretext) == Some(
                        out@[j]@.pretext,
                    )) && out@[j]@ == (ExecSpec { pretext: out@[j]@.pretext, ..parsed@[j]@ }),
            !has_char(arg.time_fmt@, '%') ==> pretexts_after(envf, s.take(i as int)) == Some(specs(out@)),
        decreases parsed.len() - i,
    {
        let x = &parsed[i];
        assert(s[i as int] == x@);
        assert(s.take(i + 1).drop_last() =~= s.take(i as int));
        let one = vec![x.pretext.clone()];
        assert(texts(one@) =~= seq![x.pretext@]);
        let res = try_val_parser(&one, vars, arg);
        let ghost d = choose|d: Option<Seq<char>>|
            date_in_format(arg.time_fmt@, d) && reports(
                res,
                #[trigger] subst_all(card_env(*arg, vars@, d), texts(one@)),
            );
        proof {
            lemma_run_off_date(card_env(*arg, vars@, d), arg.time_fmt@, texts(one@));
            assert(CardEnv { date: date_stand_in(arg.time_fmt@), ..card_env(*arg, vars@, d) } == envn);
            lemma_subst_all_errors(card_env(*arg, vars@, d), texts(one@));
            lemma_subst_all_errors(envf, texts(one@));
        }
        let e = match res {
            Ok(y) => {
                let e = x.from_pre(y);
                assert(pretext_after(card_env(*arg, vars@, d), x.pretext@) == Some(e@.pretext));
                e
            },
            Err(err) => {
                if err == WemError::UnclosedCard {
                    proof {
                        lemma_pretexts_stop(envn, s, i + 1);
                        if !has_char(arg.time_fmt@, '%') {
                            lemma_pretexts_stop(envf, s, i + 1);
                        }
                    }
                    return Err(WemError::UnclosedCard);
                }
                let mut t = String::new();
                push_text(&mut t, "Error pretext");
                let ghost tv = t@;
                let parts = vec![t];
                assert(texts(parts@) =~= seq![tv]);
                assert(seq![tv].drop_last() =~= Seq::<Seq<char>>::empty());
                assert(tv =~= error_pretext());
                assert(seq![tv].last() == tv);
                assert(concat(seq![tv]) == concat(Seq::<Seq<char>>::empty()) + tv);
                assert(concat(seq![tv]) =~= error_pretext());
                let e = x.from_pre(parts);
                assert(pretext_after(card_env(*arg, vars@, d), x.pretext@) == Some(e@.pretext));
                e
            },
        };
        let ghost prev = specs(out@);
        out.push(e);
        assert(specs(out@) =~= prev.push(e@));
        i = i + 1;
    }
    assert(s.take(parsed@.len() as int) =~= s);
    Ok(out)
}


/// The description of a script given by its lines, trimmed; a script that
/// ends in the middle of its description is reported as
/// `WemError::UnexpectedEnd`.
pub fn describe_script(lines: Vec<String>) -> (r: Result<String, WemError>)
    ensures
        match desc_of(lexed(texts(lines@))) {
            Some(Ok(d)) => r matches Ok(s) && s@ == trim(d),
            Some(Err(e)) => r == Err::<String, WemError>(e),
            None => r == Err::<String, WemError>(WemError::UnexpectedEnd),
        },
{
    let lexed_lines = match lexer(lines) {
        Ok(v) => v,
        Err(e) => {
            return Err(e);
        },
    };
    match try_desc_parser(&lexed_lines) {
        Ok(d) => Ok(trim_text(d.as_str())),
        Err(e) => Err(e),
    }
}

/// The length in bytes of a text.
pub open spec fn byte_len(s: Seq<char>) -> nat {
    vstd::utf8::encode_utf8(s).len()
}

/// The largest byte length among `paths`.
pub open spec fn widest(paths: Seq<Seq<char>>) -> nat
    decreases paths.len(),
{
    if paths.len() == 0 {
        0
    } else {
        let w = widest(paths.drop_last());
        if byte_len(paths.last()) > w {
            byte_len(paths.last())
        } else {
            w
        }
    }
}

/// The listing lines for the first `k` scripts: name, colon, padding up to
/// two columns past the widest path, description.
pub open spec fn listing_lines(paths: Seq<Seq<char>>, names: Seq<Seq<char>>, descs: Seq<Seq<char>>, width: nat, k: int) -> Seq<char>
    decreases k,
{
    if k <= 0 {
        Seq::empty()
    } else {
        listing_lines(paths, names, descs, width, k - 1) + names[k - 1] + seq![':'] + repeat(
            seq![' '],
            width + 2 - byte_len(paths[k - 1]),
        ) + descs[k - 1] + seq!['\n']
    }
}

/// The listing of the scripts of `ref_path`.
pub open spec fn listing(ref_path: Seq<char>, paths: Seq<Seq<char>>, names: Seq<Seq<char>>, descs: Seq<Seq<char>>) -> Seq<char> {
    "from "@ + ref_path + seq!['\n'] + listing_lines(paths, names, descs, widest(paths), paths.len() as int)
}

pub proof fn lemma_widest(paths: Seq<Seq<char>>, i: int)
    requires
        0 <= i < paths.len(),
    ensures
        byte_len(paths[i]) <= widest(paths),
    decreases paths.len(),
{
    if i < paths.len() - 1 {
        assert(paths.drop_last()[i] == paths[i]);
        lemma_widest(paths.drop_last(), i);
    }
}

/// The text that `list` prints for the scripts at `paths`, named `names`,
/// with descriptions `descs`.
pub fn display_reference_text(ref_path: &String, paths: &Vec<String>, names: &Vec<String>, descs: &Vec<String>) -> (r: String)
    requires
        paths@.len() == names@.len() == descs@.len(),
        forall|i: int| 0 <= i < paths@.len() ==> byte_len(#[trigger] paths@[i]@) < usize::MAX - 2,
    ensures
        r@ == listing(ref_path@, texts(paths@), texts(names@), texts(descs@)),
{
    let ghost ps = texts(paths@);
    let mut spaces: usize = 0;
    let mut i: usize = 0;
    assert(ps.take(0) =~= Seq::<Seq<char>>::empty());
    while i < paths.len()
        invariant
            i <= paths@.len(),
            ps == texts(paths@),
            spaces == widest(ps.take(i as int)),
            spaces < usize::MAX - 2,
            forall|j: int| 0 <= j < paths@.len() ==> byte_len(#[trigger] paths@[j]@) < usize::MAX - 2,
        decreases paths.len() - i,
    {
        assert(ps.take(i + 1).drop_last() =~= ps.take(i as int));
        assert(ps[i as int] == paths@[i as int]@);
        let len = paths[i].as_str().len();
        assert(len == byte_len(paths@[i as int]@));
        if len > spaces {
            spaces = len;
        }
        i = i + 1;
    }
    assert(ps.take(paths@.len() as int) =~= ps);
    let mut r = String::new();
    push_text(&mut r, "from ");
    push_text(&mut r, ref_path.as_str());
    push_char(&mut r, '\n');
    let ghost head = r@;
    let mut k: usize = 0;
    while k < paths.len()
        invariant
            k <= paths@.len() == names@.len() == descs@.len(),
            ps == texts(paths@),
            spaces == widest(ps),
            spaces < usize::MAX - 2,
            r@ == head + listing_lines(ps, texts(names@), texts(descs@), widest(ps), k as int),
        decreases paths.len() - k,
    {
        let ghost r0 = r@;
        push_text(&mut r, names[k].as_str());
        push_char(&mut r, ':');
        proof {
            lemma_widest(ps, k as int);
        }
        let len = paths[k].as_str().len();
        assert(len == byte_len(ps[k as int]));
        let pad = spaces + 2 - len;
        let ghost r1 = r@;
        let mut j: usize = 0;
        assert(repeat(seq![' '], 0) =~= Seq::<char>::empty());
        while j < pad
            invariant
                j <= pad,
                r@ == r1 + repeat(seq![' '], j as int),
            decreases pad - j,
        {
            push_char(&mut r, ' ');
            j = j + 1;
            assert(r@ =~= r1 + repeat(seq![' '], j as int));
        }
        push_text(&mut r, descs[k].as_str());
        push_char(&mut r, '\n');
        assert(texts(names@)[k as int] == names@[k as int]@);
        assert(texts(descs@)[k as int] == descs@[k as int]@);
        assert(r@ =~= head + listing_lines(ps, texts(names@), texts(descs@), widest(ps), k + 1));
        k = k + 1;
    }
    assert(r@ =~= listing(ref_path@, ps, texts(names@), texts(descs@)));
    r
}

/// The non-empty lines of a file, each followed by a line break.
pub open spec fn file_pretext(lines: Seq<Seq<char>>) -> Seq<char>
    decreases lines.len(),
{
    if lines.len() == 0 {
        Seq::empty()
    } else {
        file_pretext(lines.drop_last()) + if lines.last().len() > 0 {
            lines.last() + seq!['\n']
        } else {
            Seq::empty()
        }
    }
}

/// The entry that `read` records for one walked path: the first one is
/// located at `start`, the others at their parent directory; a file keeps
/// its non-empty lines as pretext.
pub fn read_dir_entry(
    index: usize,
    start: &String,
    is_file: bool,
    lines: &Vec<String>,
    entry_path: String,
    file_name: String,
) -> (r: Result<ExecInfo, WemError>)
    requires
        index == 0 || entry_path@.len() >= 1,
    ensures
        index == 0 ==> (r matches Ok(e) && e@ == (ExecSpec {
            action: if is_file { Actions::FILE } else { Actions::DIR },
            name: file_name@,
            location: start@,
            pretext: if is_file { file_pretext(texts(lines@)) } else { Seq::empty() },
        })),
        index != 0 ==> match r {
            Ok(e) => exists|k: int|
                is_last_sep(entry_path@, k) && e@ == (ExecSpec {
                    action: if is_file { Actions::FILE } else { Actions::DIR },
                    name: file_name@,
                    location: entry_path@.take(k),
                    pretext: if is_file { file_pretext(texts(lines@)) } else { Seq::empty() },
                }),
            Err(e) => e == WemError::NoParentPath && forall|j: int|
                1 <= j < entry_path@.len() ==> entry_path@[j] != '/',
        },
{
    let mut pretext = String::new();
    let ghost t = texts(lines@);
    if is_file {
        let mut i: usize = 0;
        assert(t.take(0) =~= Seq::<Seq<char>>::empty());
        while i < lines.len()
            invariant
                i <= lines@.len(),
                t == texts(lines@),
                pretext@ == file_pretext(t.take(i as int)),
            decreases lines.len() - i,
        {
            assert(t.take(i + 1).drop_last() =~= t.take(i as int));
            assert(t[i as int] == lines@[i as int]@);
            let ghost p0 = pretext@;
            if !lines[i].as_str().is_empty() {
                push_text(&mut pretext, lines[i].as_str());
                push_char(&mut pretext, '\n');
                assert(pretext@ =~= p0 + (t[i as int] + seq!['\n']));
            } else {
                assert(pretext@ =~= p0 + Seq::<char>::empty());
            }
            i = i + 1;
        }
        assert(t.take(lines@.len() as int) =~= t);
    }
    let location = if index == 0 {
        start.clone()
    } else {
        match del_filename(entry_path) {
            Ok(p) => p,
            Err(e) => {
                return Err(e);
            },
        }
    };
    let action = if is_file {
        Actions::FILE
    } else {
        Actions::DIR
    };
    Ok(ExecInfo { action: action, name: file_name, location: location, pretext: pretext })
}

} // verus!
