use wem::cards::{substitute, try_val_parser, val_parser};
use wem::defs::{hash_maker, try_hash_maker};
use wem::error::WemError;
use wem::headers::{desc_parser, dref_parser, try_desc_parser, try_dref_parser};
use wem::lexer::lexer;
use wem::str_map::StrMap;
use wem::structure::{Actions, ExecInfo, MakeArg};
use wem::tree::{parser, try_parser};

fn toks(v: &[&str]) -> Vec<String> {
    v.iter().map(|s| s.to_string()).collect()
}

fn entry(e: &ExecInfo) -> (Actions, String, String, String) {
    (e.action, e.name.clone(), e.location.clone(), e.pretext.clone())
}

fn arg(fmt: &str) -> MakeArg {
    MakeArg::from(
        "script".to_string(),
        "proj".to_string(),
        "/s".to_string(),
        fmt.to_string(),
        None,
    )
}

#[test]
fn lexer_splits_specials_and_trims() {
    let lines = toks(&["dir: src {", "  file: main.rs", "}"]);
    let out = lexer(lines).unwrap();
    assert_eq!(out, toks(&["", "dir", ":", "src", "{", "file", ":", "main.rs", "}"]));
}

#[test]
fn lexer_keeps_quoted_text() {
    let out = lexer(toks(&["def: x = \"hello world\""])).unwrap();
    assert_eq!(out, toks(&["", "def", ":", "x", "=", "\"", "hello world", "\""]));
}

#[test]
fn lexer_escapes_quote_as_card() {
    let out = lexer(toks(&["a\\\"b"])).unwrap();
    assert_eq!(out, toks(&["", "a%DQ%b"]));
}

#[test]
fn lexer_of_nothing_is_one_empty_token() {
    let out = lexer(Vec::new()).unwrap();
    assert_eq!(out, toks(&[""]));
}

#[test]
fn lexer_plain_line_law() {
    let out = lexer(toks(&["  hello  "])).unwrap();
    assert_eq!(out, toks(&["", "hello"]));
    let out = lexer(toks(&["x", "y"])).unwrap();
    assert_eq!(out[0], "");
}

#[test]
fn hash_maker_inline_definition() {
    let m = hash_maker(&toks(&["", "def", ":", "x", "=", "1"])).unwrap();
    assert_eq!(m.get(&"x".to_string()), Some(&"1".to_string()));
    assert_eq!(m.get(&"y".to_string()), None);
}

#[test]
fn hash_maker_block_with_quoted_value() {
    let m = hash_maker(&toks(&[
        "def", ":", "{", "a", "=", "1", "b", "=", "\"", "l1", "l2", "\"", "}",
    ]))
    .unwrap();
    assert_eq!(m.get(&"a".to_string()), Some(&"1".to_string()));
    assert_eq!(m.get(&"b".to_string()), Some(&"l1\nl2\n".to_string()));
}

#[test]
fn hash_maker_later_definition_wins() {
    let m = hash_maker(&toks(&["def", ":", "x", "=", "1", "def", ":", "x", "=", "2", "def", ":", "y", "=", "3"]))
        .unwrap();
    assert_eq!(m.get(&"x".to_string()), Some(&"2".to_string()));
    assert_eq!(m.get(&"y".to_string()), Some(&"3".to_string()));
    assert_eq!(m.len(), 2);
}

#[test]
fn hash_maker_errors() {
    assert_eq!(hash_maker(&toks(&["def", "x"])).err(), Some(WemError::DefMissingColon));
    assert_eq!(hash_maker(&toks(&["def", ":", "x", "y"])).err(), Some(WemError::MissingAssign));
    assert_eq!(try_hash_maker(&toks(&["def", ":"])).err(), Some(WemError::UnexpectedEnd));
    assert_eq!(try_hash_maker(&toks(&["def", ":", "{", "a", "=", "1"])).err(), Some(WemError::UnexpectedEnd));
}

#[test]
fn substitute_replaces_every_card() {
    let mut vars = StrMap::new();
    vars.insert("v".to_string(), "V".to_string());
    let date = Some("2024".to_string());
    let out = substitute(
        &toks(&["%NAME%-%DATE%", "%DQ%", "%SRC%/x", "%v%", "plain"]),
        &vars,
        &arg("%Y"),
        &date,
    )
    .unwrap();
    assert_eq!(out, toks(&["proj-2024", "\"", "/s/x", "V", "plain"]));
}

#[test]
fn substitute_errors() {
    let vars = StrMap::new();
    let date = Some("d".to_string());
    assert_eq!(
        substitute(&toks(&["ok", "%nope%"]), &vars, &arg("x"), &date).err(),
        Some(WemError::UndeclaredVariable)
    );
    assert_eq!(
        substitute(&toks(&["%NAME"]), &vars, &arg("x"), &date).err(),
        Some(WemError::UnclosedCard)
    );
    assert_eq!(
        substitute(&toks(&["%DATE%"]), &vars, &arg("x"), &None).err(),
        Some(WemError::InvalidTimeFormat)
    );
}

#[test]
fn val_parser_renders_plain_time_format_as_itself() {
    let vars = StrMap::new();
    let out = val_parser(&toks(&["on %DATE%"]), &vars, &arg("fixed")).unwrap();
    assert_eq!(out, toks(&["on fixed"]));
}

#[test]
fn val_parser_renders_the_year() {
    let vars = StrMap::new();
    let out = try_val_parser(&toks(&["%DATE%"]), &vars, &arg("%Y")).unwrap();
    assert_eq!(out.len(), 1);
    assert_eq!(out[0].len(), 4);
    assert!(out[0].chars().all(|c| c.is_ascii_digit()));
    assert_ne!(out[0], "%Y");
}

#[test]
fn val_parser_text_without_cards_is_kept() {
    let vars = StrMap::new();
    let out = val_parser(&toks(&["a b", "", "c"]), &vars, &arg("%d")).unwrap();
    assert_eq!(out, toks(&["a b", "", "c"]));
}

#[test]
fn parser_reads_nested_tree() {
    let lines = toks(&[
        "dir: src {",
        "  file(pre: \"fn main() {}\"): main.rs",
        "}",
        "file: README.md",
    ]);
    let lexed = lexer(lines).unwrap();
    let out = parser(lexed, "/start".to_string()).unwrap();
    let got: Vec<_> = out.iter().map(entry).collect();
    assert_eq!(
        got,
        vec![
            (Actions::DIR, "src".to_string(), "/start".to_string(), "".to_string()),
            (Actions::FILE, "main.rs".to_string(), "/start/src".to_string(), "fn main() {}\n".to_string()),
            (Actions::FILE, "README.md".to_string(), "/start".to_string(), "".to_string()),
        ]
    );
}

#[test]
fn parser_dir_block_closes_law() {
    let out = parser(toks(&["dir", ":", "a", "{", "}", "file", ":", "b"]), "/s".to_string()).unwrap();
    let got: Vec<_> = out.iter().map(entry).collect();
    assert_eq!(
        got,
        vec![
            (Actions::DIR, "a".to_string(), "/s".to_string(), "".to_string()),
            (Actions::FILE, "b".to_string(), "/s".to_string(), "".to_string()),
        ]
    );
}

#[test]
fn parser_entry_inside_dir_law() {
    let out = parser(toks(&["dir", ":", "a", "{", "file", ":", "f"]), "/s".to_string()).unwrap();
    assert_eq!(entry(&out[1]), (Actions::FILE, "f".to_string(), "/s/a".to_string(), "".to_string()));
}

#[test]
fn parser_multiple_pre_subcommands() {
    let out = parser(
        toks(&["file", "(", "pre", ":", "a", ",", "pre", ":", "\"", "x", "\"", ")", ":", "n"]),
        "/s".to_string(),
    )
    .unwrap();
    assert_eq!(entry(&out[0]), (Actions::FILE, "n".to_string(), "/s".to_string(), "ax\n".to_string()));
}

#[test]
fn parser_last_dir_name_is_read_again() {
    let out = parser(toks(&["dir", ":", "x"]), "/s".to_string()).unwrap();
    assert_eq!(out.len(), 1);
    assert_eq!(try_parser(toks(&["dir", ":", "dir"]), "/s".to_string()).err(), Some(WemError::UnexpectedEnd));
}

#[test]
fn parser_errors() {
    let s = || "/s".to_string();
    assert_eq!(parser(toks(&["dir", "x"]), s()).err(), Some(WemError::DirMissingColon));
    assert_eq!(parser(toks(&["file", "x"]), s()).err(), Some(WemError::FileMissingColon));
    assert_eq!(parser(toks(&["file", "(", "post"]), s()).err(), Some(WemError::UnknownFileSubcommand));
    assert_eq!(parser(toks(&["file", "(", "pre", "x"]), s()).err(), Some(WemError::PreMissingColon));
    assert_eq!(
        parser(toks(&["file", "(", "pre", ":", "a", "x"]), s()).err(),
        Some(WemError::BadSubcommandSeparator)
    );
    assert_eq!(parser(toks(&["file", ":", "\""]), s()).err(), Some(WemError::LongFileName));
    assert_eq!(
        parser(toks(&["file", "(", "pre", ":", "a", ")", "x"]), s()).err(),
        Some(WemError::FileMissingColon)
    );
    assert_eq!(try_parser(toks(&["dir"]), s()).err(), Some(WemError::UnexpectedEnd));
}

#[test]
fn desc_parser_reads_quoted_and_plain() {
    assert_eq!(desc_parser(toks(&["", "desc", ":", "\"", "A tool", "  ", "\""])).unwrap(), "A tool");
    assert_eq!(desc_parser(toks(&["desc", ":", "short"])).unwrap(), "short");
    assert_eq!(desc_parser(toks(&["desc", ":", "a", "desc", ":", "b"])).unwrap(), "a");
    assert_eq!(desc_parser(toks(&["none"])).unwrap(), "");
}

#[test]
fn desc_parser_errors() {
    assert_eq!(desc_parser(toks(&["desc", "("])).err(), Some(WemError::DescSubcommand));
    assert_eq!(desc_parser(toks(&["desc", "x"])).err(), Some(WemError::DescMissingColon));
    assert_eq!(try_desc_parser(&toks(&["desc"])).err(), Some(WemError::UnexpectedEnd));
}

#[test]
fn dref_parser_reads_reference() {
    assert_eq!(dref_parser(&toks(&["x", "dref", ":", "path", "dref", ":", "other"])).unwrap(), "path");
    assert_eq!(dref_parser(&toks(&[])).err(), Some(WemError::NoDref));
    assert_eq!(dref_parser(&toks(&["dref", "x"])).err(), Some(WemError::DrefMissingColon));
    assert_eq!(try_dref_parser(&toks(&["dref", ":"])).err(), Some(WemError::UnexpectedEnd));
}

#[test]
fn hash_maker_ignores_tokens_before_def() {
    let empty = hash_maker(&toks(&["", "dir", ":", "x", "=", "{"])).unwrap();
    assert!(empty.is_empty());
    let m = hash_maker(&toks(&["", "dir", ":", "x", "def", ":", "a", "=", "1"])).unwrap();
    let n = hash_maker(&toks(&["def", ":", "a", "=", "1"])).unwrap();
    assert_eq!(m.len(), 1);
    assert_eq!(n.len(), 1);
    assert_eq!(m.get(&"a".to_string()), Some(&"1".to_string()));
    assert_eq!(n.get(&"a".to_string()), Some(&"1".to_string()));
}
