//! Replacing the `%CARD%` placeholders of a script.
use vstd::prelude::*;

use crate::error::WemError;
use crate::str_map::StrMap;
use crate::structure::{texts, MakeArg};
use crate::text::{chars_of, has_char, push_char, push_text, same_text};

verus! {

/// What the cards of a script are replaced with: the project name, the
/// script directory, the rendered time (if the time format could be
/// rendered), and the declared variables.
pub struct CardEnv {
    pub name: Seq<char>,
    pub src: Seq<char>,
    pub date: Option<Seq<char>>,
    pub vars: Map<Seq<char>, Seq<char>>,
}

/// The card environment of a `make` run.
pub open spec fn card_env(arg: MakeArg, vars: Map<Seq<char>, Seq<char>>, date: Option<Seq<char>>) -> CardEnv {
    CardEnv { name: arg.pro_name@, src: arg.ref_src@, date: date, vars: vars }
}

/// The text a card stands for.
pub open spec fn card_value(env: CardEnv, card: Seq<char>) -> Result<Seq<char>, WemError> {
    if card == "NAME"@ {
        Ok(env.name)
    } else if card == "DATE"@ {
        match env.date {
            Some(d) => Ok(d),
            None => Err(WemError::InvalidTimeFormat),
        }
    } else if card == "DQ"@ {
        Ok(seq!['"'])
    } else if card == "SRC"@ {
        Ok(env.src)
    } else if env.vars.contains_key(card) {
        Ok(env.vars[card])
    } else {
        Err(WemError::UndeclaredVariable)
    }
}

/// The state of the scan of one token: inside a card or not, the card
/// being read, and the text so far.
pub open spec fn scan_chars(env: CardEnv, s: Seq<char>) -> Result<(bool, Seq<char>, Seq<char>), WemError>
    decreases s.len(),
{
    if s.len() == 0 {
        Ok((false, Seq::empty(), Seq::empty()))
    } else {
        match scan_chars(env, s.drop_last()) {
            Err(e) => Err(e),
            Ok((in_card, card, line)) => {
                let c = s.last();
                if !in_card {
                    if c == '%' {
                        Ok((true, Seq::empty(), line))
                    } else {
                        Ok((false, card, line.push(c)))
                    }
                } else if c == '%' {
                    match card_value(env, card) {
                        Ok(v) => Ok((false, card, line + v)),
                        Err(e) => Err(e),
                    }
                } else {
                    Ok((true, card.push(c), line))
                }
            },
        }
    }
}

/// One token with its cards replaced; `None` where a card is never closed.
pub open spec fn subst_token(env: CardEnv, s: Seq<char>) -> Option<Result<Seq<char>, WemError>> {
    match scan_chars(env, s) {
        Err(e) => Some(Err(e)),
        Ok((in_card, _, line)) => if in_card {
            None
        } else {
            Some(Ok(line))
        },
    }
}

/// All tokens with their cards replaced, stopping at the first error or
/// unclosed card.
pub open spec fn subst_all(env: CardEnv, t: Seq<Seq<char>>) -> Option<Result<Seq<Seq<char>>, WemError>>
    decreases t.len(),
{
    if t.len() == 0 {
        Some(Ok(Seq::empty()))
    } else {
        match subst_all(env, t.drop_last()) {
            Some(Ok(out)) => match subst_token(env, t.last()) {
                Some(Ok(l)) => Some(Ok(out.push(l))),
                Some(Err(e)) => Some(Err(e)),
                None => None,
            },
            other => other,
        }
    }
}

/// `r` is the outcome `o`, an unclosed card being reported as `WemError::UnclosedCard`.
pub open spec fn reports(r: Result<Vec<String>, WemError>, o: Option<Result<Seq<Seq<char>>, WemError>>) -> bool {
    match o {
        Some(Ok(v)) => r matches Ok(x) && texts(x@) == v,
        Some(Err(e)) => r == Err::<Vec<String>, WemError>(e),
        None => r == Err::<Vec<String>, WemError>(WemError::UnclosedCard),
    }
}

fn card_text(card: &String, vars: &StrMap<String>, arg: &MakeArg, date: &Option<String>) -> (r: Result<String, WemError>)
    ensures
        match card_value(card_env(*arg, vars@, date_view(date)), card@) {
            Ok(v) => r matches Ok(s) && s@ == v,
            Err(e) => r == Err::<String, WemError>(e),
        },
{
    if same_text(card.as_str(), "NAME") {
        Ok(arg.pro_name.clone())
    } else if same_text(card.as_str(), "DATE") {
        match date {
            Some(d) => Ok(d.clone()),
            None => Err(WemError::InvalidTimeFormat),
        }
    } else if same_text(card.as_str(), "DQ") {
        let mut s = String::new();
        push_char(&mut s, '"');
        assert(s@ =~= seq!['"']);
        Ok(s)
    } else if same_text(card.as_str(), "SRC") {
        Ok(arg.ref_src.clone())
    } else {
        match vars.get(card) {
            Some(v) => Ok(v.clone()),
            None => Err(WemError::UndeclaredVariable),
        }
    }
}

/// The view of an optional rendered time.
pub open spec fn date_view(date: &Option<String>) -> Option<Seq<char>> {
    match date {
        Some(d) => Some(d@),
        None => None,
    }
}

pub proof fn lemma_scan_err(env: CardEnv, s: Seq<char>, i: int)
    requires
        0 <= i <= s.len(),
        scan_chars(env, s.take(i)) is Err,
    ensures
        scan_chars(env, s) == scan_chars(env, s.take(i)),
    decreases s.len() - i,
{
    if i < s.len() {
        assert(s.take(i + 1).drop_last() =~= s.take(i));
        lemma_scan_err(env, s, i + 1);
    } else {
        assert(s.take(i) =~= s);
    }
}

fn subst_token_exec(token: &String, vars: &StrMap<String>, arg: &MakeArg, date: &Option<String>) -> (r: Result<String, WemError>)
    ensures
        match subst_token(card_env(*arg, vars@, date_view(date)), token@) {
            Some(Ok(l)) => r matches Ok(s) && s@ == l,
            Some(Err(e)) => r == Err::<String, WemError>(e),
            None => r == Err::<String, WemError>(WemError::UnclosedCard),
        },
{
    let ghost env = card_env(*arg, vars@, date_view(date));
    let cs = chars_of(token.as_str());
    let mut in_card = false;
    let mut card = String::new();
    let mut line = String::new();
    let mut i: usize = 0;
    assert(cs@.take(0) =~= Seq::<char>::empty());
    while i < cs.len()
        invariant
            i <= cs@.len(),
            cs@ == token@,
            env == card_env(*arg, vars@, date_view(date)),
            scan_chars(env, cs@.take(i as int)) == Ok::<(bool, Seq<char>, Seq<char>), WemError>(
                (in_card, card@, line@),
            ),
        decreases cs.len() - i,
    {
        let c = cs[i];
        assert(cs@.take(i + 1).drop_last() =~= cs@.take(i as int));
        if !in_card {
            if c == '%' {
                in_card = true;
                card = String::new();
            } else {
                push_char(&mut line, c);
            }
        } else if c == '%' {
            match card_text(&card, vars, arg, date) {
                Ok(v) => {
                    push_text(&mut line, v.as_str());
                    in_card = false;
                },
                Err(e) => {
                    proof {
                        lemma_scan_err(env, cs@, i + 1);
                    }
                    return Err(e);
                },
            }
        } else {
            push_char(&mut card, c);
        }
        i = i + 1;
    }
    assert(cs@.take(cs@.len() as int) =~= cs@);
    if in_card {
        Err(WemError::UnclosedCard)
    } else {
        Ok(line)
    }
}

pub proof fn lemma_subst_all_stop(env: CardEnv, t: Seq<Seq<char>>, i: int)
    requires
        0 <= i <= t.len(),
        !(subst_all(env, t.take(i)) is Some && subst_all(env, t.take(i))->0 is Ok),
    ensures
        subst_all(env, t) == subst_all(env, t.take(i)),
    decreases t.len() - i,
{
    if i < t.len() {
        assert(t.take(i + 1).drop_last() =~= t.take(i));
        lemma_subst_all_stop(env, t, i + 1);
    } else {
        assert(t.take(i) =~= t);
    }
}

/// Replaces the cards of each token, given the rendered time (`None` where
/// the time format could not be rendered); an unclosed card is reported as
/// `WemError::UnclosedCard`.
pub fn substitute(tokens: &Vec<String>, val_hash: &StrMap<String>, arg: &MakeArg, date: &Option<String>) -> (r: Result<Vec<String>, WemError>)
    ensures
        reports(r, subst_all(card_env(*arg, val_hash@, date_view(date)), texts(tokens@))),
{
    let ghost env = card_env(*arg, val_hash@, date_view(date));
    let ghost t = texts(tokens@);
    let mut result: Vec<String> = Vec::new();
    let mut i: usize = 0;
    assert(t.take(0) =~= Seq::<Seq<char>>::empty());
    assert(texts(result@) =~= Seq::<Seq<char>>::empty());
    while i < tokens.len()
        invariant
            i <= tokens@.len(),
            t == texts(tokens@),
            env == card_env(*arg, val_hash@, date_view(date)),
            subst_all(env, t.take(i as int)) == Some(Ok::<Seq<Seq<char>>, WemError>(texts(result@))),
        decreases tokens.len() - i,
    {
        assert(t.take(i + 1).drop_last() =~= t.take(i as int));
        assert(t[i as int] == tokens@[i as int]@);
        match subst_token_exec(&tokens[i], val_hash, arg, date) {
            Ok(l) => {
                let ghost prev = texts(result@);
                let ghost lv = l@;
                result.push(l);
                assert(texts(result@) =~= prev.push(lv));
            },
            Err(e) => {
                proof {
                    lemma_subst_all_stop(env, t, i + 1);
                }
                return Err(e);
            },
        }
        i = i + 1;
    }
    assert(t.take(tokens@.len() as int) =~= t);
    Ok(result)
}


/// The errors that card replacement reports.
pub open spec fn is_card_error(e: WemError) -> bool {
    e == WemError::InvalidTimeFormat || e == WemError::UndeclaredVariable
}

pub proof fn lemma_scan_errors(env: CardEnv, s: Seq<char>)
    ensures
        scan_chars(env, s) matches Err(e) ==> is_card_error(e),
    decreases s.len(),
{
    if s.len() > 0 {
        lemma_scan_errors(env, s.drop_last());
    }
}

pub proof fn lemma_subst_all_errors(env: CardEnv, t: Seq<Seq<char>>)
    ensures
        subst_all(env, t) matches Some(Err(e)) ==> is_card_error(e),
    decreases t.len(),
{
    if t.len() > 0 {
        lemma_subst_all_errors(env, t.drop_last());
        lemma_scan_errors(env, t.last());
    }
}

/// The card environment in which the time renders as the empty text.
pub open spec fn with_some_date(env: CardEnv) -> CardEnv {
    CardEnv { date: Some(Seq::empty()), ..env }
}

pub proof fn lemma_scan_date(env: CardEnv, s: Seq<char>)
    ensures
        scan_chars(env, s) matches Ok((ic, card, _)) ==> (scan_chars(with_some_date(env), s) matches Ok(
            (ic2, card2, _),
        ) && ic2 == ic && card2 == card),
    decreases s.len(),
{
    if s.len() > 0 {
        lemma_scan_date(env, s.drop_last());
    }
}

pub proof fn lemma_subst_all_date(env: CardEnv, t: Seq<Seq<char>>)
    ensures
        subst_all(env, t) is None ==> subst_all(with_some_date(env), t) is None,
        subst_all(env, t) matches Some(Ok(_)) ==> subst_all(with_some_date(env), t) matches Some(Ok(_)),
    decreases t.len(),
{
    if t.len() > 0 {
        lemma_subst_all_date(env, t.drop_last());
        lemma_scan_date(env, t.last());
    }
}

pub proof fn lemma_scan_some_date(env: CardEnv, s: Seq<char>)
    requires
        env.date is Some,
    ensures
        scan_chars(env, s) matches Err(e) ==> scan_chars(with_some_date(env), s) == Err::<
            (bool, Seq<char>, Seq<char>),
            WemError,
        >(e),
        scan_chars(env, s) matches Ok((ic, card, _)) ==> (scan_chars(with_some_date(env), s) matches Ok(
            (ic2, card2, _),
        ) && ic2 == ic && card2 == card),
    decreases s.len(),
{
    if s.len() > 0 {
        lemma_scan_some_date(env, s.drop_last());
    }
}

/// Where the time renders, whether card replacement runs off does not
/// depend on the rendered text.
pub proof fn lemma_subst_all_some_date(env: CardEnv, t: Seq<Seq<char>>)
    requires
        env.date is Some,
    ensures
        (subst_all(env, t) is None) == (subst_all(with_some_date(env), t) is None),
        subst_all(env, t) matches Some(Err(e)) ==> subst_all(with_some_date(env), t) == Some(
            Err::<Seq<Seq<char>>, WemError>(e),
        ),
    decreases t.len(),
{
    if t.len() > 0 {
        lemma_subst_all_some_date(env, t.drop_last());
        lemma_subst_all_date(env, t.drop_last());
        lemma_scan_some_date(env, t.last());
        lemma_scan_date(env, t.last());
    }
}

/// Whether card replacement meets a card that is never closed before any
/// error.
pub open spec fn cards_run_off(arg: MakeArg, vars: Map<Seq<char>, Seq<char>>, t: Seq<Seq<char>>) -> bool {
    subst_all(card_env(arg, vars, Some(Seq::empty())), t) is None
}

/// Whether chrono can render the time format `fmt`: its strftime items
/// hold no error item. Rendering a date, time and offset into a `String`
/// fails on such an item alone, so this depends on the format only.
pub uninterp spec fn time_format_renders(fmt: Seq<char>) -> bool;

/// Whether `out` is a rendering of some local time in the format `fmt`.
pub uninterp spec fn is_rendering(fmt: Seq<char>, out: Seq<char>) -> bool;

/// What the date card may be replaced with when the time format is `fmt`:
/// a rendering of the time in that format, or nothing where chrono cannot
/// render the format.
pub open spec fn date_in_format(fmt: Seq<char>, d: Option<Seq<char>>) -> bool {
    &&& (d is Some) == time_format_renders(fmt)
    &&& (d matches Some(t) ==> is_rendering(fmt, t))
}

/// A stand-in for the rendered time in the format `fmt`: the empty text
/// where the format renders, nothing where it does not.
pub open spec fn date_stand_in(fmt: Seq<char>) -> Option<Seq<char>> {
    if time_format_renders(fmt) {
        Some(Seq::empty())
    } else {
        None
    }
}

/// Whether card replacement runs off does not depend on which time was
/// rendered in the format.
pub proof fn lemma_run_off_date(env: CardEnv, fmt: Seq<char>, t: Seq<Seq<char>>)
    requires
        date_in_format(fmt, env.date),
    ensures
        (subst_all(env, t) is None) == (subst_all(CardEnv { date: date_stand_in(fmt), ..env }, t) is None),
{
    if env.date is Some {
        lemma_subst_all_some_date(env, t);
        assert(with_some_date(env) == CardEnv { date: date_stand_in(fmt), ..env });
    } else {
        assert(env == CardEnv { date: date_stand_in(fmt), ..env });
    }
}

/// chrono's `Local::now().format(fmt)`, written into a string with
/// `DelayedFormat::write_to`.
/// Trusted: the call succeeds exactly when the format renders
/// (`time_format_renders`), and what it gives is a rendering of the time in
/// that format (`is_rendering`); a format without `%` renders as itself (it
/// parses into literal and space items only). Which time was rendered
/// depends on the clock and the time zone and is left unsaid.
#[verifier::external_body]
fn local_time_text(fmt: &str) -> (r: Option<String>)
    ensures
        (r is Some) == time_format_renders(fmt@),
        r matches Some(t) ==> is_rendering(fmt@, t@),
        has_char(fmt@, '%') || (r is Some && r->0@ == fmt@),
{
    let mut s = String::new();
    match chrono::Local::now().format(fmt).write_to(&mut s) {
        Ok(()) => Some(s),
        Err(_) => None,
    }
}

/// Replaces the cards of each token, rendering `%DATE%` with the current
/// local time in the format `arg.time_fmt`; an unclosed card is reported
/// as `WemError::UnclosedCard`.
pub fn try_val_parser(tokens: &Vec<String>, val_hash: &StrMap<String>, arg: &MakeArg) -> (r: Result<Vec<String>, WemError>)
    ensures
        exists|d: Option<Seq<char>>|
            date_in_format(arg.time_fmt@, d) && reports(
                r,
                #[trigger] subst_all(card_env(*arg, val_hash@, d), texts(tokens@)),
            ),
        !has_char(arg.time_fmt@, '%') ==> reports(
            r,
            subst_all(card_env(*arg, val_hash@, Some(arg.time_fmt@)), texts(tokens@)),
        ),
{
    let date = local_time_text(arg.time_fmt.as_str());
    let r = substitute(tokens, val_hash, arg, &date);
    assert(date_in_format(arg.time_fmt@, date_view(&date)));
    r
}

/// Replaces the cards of each token: `%NAME%` by the project name,
/// `%DATE%` by the current local time in the format `arg.time_fmt`,
/// `%DQ%` by a double quote, `%SRC%` by the script directory, and any
/// other `%name%` by the variable `name`.
pub fn val_parser(tokens: &Vec<String>, val_hash: &StrMap<String>, arg: &MakeArg) -> (r: Result<Vec<String>, WemError>)
    requires
        !cards_run_off(*arg, val_hash@, texts(tokens@)),
    ensures
        exists|d: Option<Seq<char>>| {
            &&& date_in_format(arg.time_fmt@, d)
            &&& #[trigger] subst_all(card_env(*arg, val_hash@, d), texts(tokens@)) is Some
            &&& reports(r, subst_all(card_env(*arg, val_hash@, d), texts(tokens@)))
        },
        !has_char(arg.time_fmt@, '%') ==> reports(
            r,
            subst_all(card_env(*arg, val_hash@, Some(arg.time_fmt@)), texts(tokens@)),
        ),
{
    let r = try_val_parser(tokens, val_hash, arg);
    proof {
        let d = choose|d: Option<Seq<char>>|
            date_in_format(arg.time_fmt@, d) && reports(
                r,
                #[trigger] subst_all(card_env(*arg, val_hash@, d), texts(tokens@)),
            );
        lemma_subst_all_date(card_env(*arg, val_hash@, d), texts(tokens@));
        assert(with_some_date(card_env(*arg, val_hash@, d)) == card_env(*arg, val_hash@, Some(Seq::<char>::empty())));
    }
    r
}

} // verus!
