use wem::arg::MakeCommand;
use wem::error::WemError;
use wem::general_func::{does_contain_string, does_contain_vec};
use wem::make::{describe_script, display_reference_text, make_arg_from, read_dir_entry, substitute_pretexts};
use wem::paths::{del_filename, file_names, path_to_filename};
use wem::search_org;
use wem::str_map::StrMap;
use wem::structure::{Actions, Config, ExecInfo, MakeArg, VarInfo};
use wem::wem_structure;
use wem::lexer::lexer;
use wem::tree::try_parser;
use wem::writer::create_wem;

fn s(x: &str) -> String {
    x.to_string()
}

fn info(action: Actions, name: &str, location: &str, pretext: &str) -> ExecInfo {
    ExecInfo { action, name: s(name), location: s(location), pretext: s(pretext) }
}

#[test]
fn del_filename_drops_last_component() {
    assert_eq!(del_filename(s("/home/user/file.txt")).unwrap(), "/home/user");
    assert_eq!(del_filename(s("a/b/")).unwrap(), "a/b");
    assert_eq!(del_filename(s("/file")).err(), Some(WemError::NoParentPath));
    assert_eq!(del_filename(s("noslash")).err(), Some(WemError::NoParentPath));
}

#[test]
fn path_to_filename_reverses_first_component() {
    assert_eq!(path_to_filename(&s("abc/def")).unwrap(), "cba");
    assert_eq!(path_to_filename(&s("/x")).unwrap(), "");
    assert_eq!(path_to_filename(&s("abc")).err(), Some(WemError::NoPathSeparator));
}

#[test]
fn contains_helpers() {
    assert!(does_contain_vec(s("hello"), vec!['x', 'l']));
    assert!(!does_contain_vec(s("hello"), vec!['x', 'y']));
    assert!(!does_contain_vec(s(""), vec!['a']));
    assert!(search_org::does_contain_vec(s("a:b"), vec![':']));
    let v = vec![s("a"), s("dref")];
    assert!(does_contain_string(&v, s("dref")));
    assert!(!does_contain_string(&v, s("dre")));
}

#[test]
fn exec_info_constructors() {
    let e = ExecInfo::new();
    assert_eq!(e.action, Actions::DIR);
    assert_eq!((e.name.as_str(), e.location.as_str(), e.pretext.as_str()), ("", "", ""));
    let f = info(Actions::FILE, "n", "/l", "old").from_pre(vec![s("a"), s("b")]);
    assert_eq!(f.action, Actions::FILE);
    assert_eq!((f.name.as_str(), f.location.as_str(), f.pretext.as_str()), ("n", "/l", "ab"));
    let w = wem_structure::ExecInfo::new();
    assert_eq!(w.action, wem_structure::Actions::DIR);
    let v = VarInfo::new();
    assert_eq!((v.name.as_str(), v.var.as_str()), ("", ""));
}

#[test]
fn make_arg_defaults_to_config() {
    let cmd = MakeCommand {
        reference_name: s("rust"),
        project_name: None,
        reference_source: None,
        time_format: Some(s("%Y")),
        output: Some(s("/out")),
    };
    let cfg = Config { reference_path: s("/refs"), time_format: s("%d") };
    let a = make_arg_from(cmd, cfg);
    assert_eq!(
        (a.ref_name.as_str(), a.pro_name.as_str(), a.ref_src.as_str(), a.time_fmt.as_str()),
        ("rust", "rust", "/refs", "%Y")
    );
    assert_eq!(a.output, Some(s("/out")));
    let b = MakeArg::from(s("r"), s("p"), s("src"), s("t"), None);
    assert_eq!((b.ref_name.as_str(), b.pro_name.as_str(), b.ref_src.as_str(), b.time_fmt.as_str()), ("r", "p", "src", "t"));
    assert_eq!(b.output, None);
}

#[test]
fn create_wem_writes_script() {
    let tree = vec![
        info(Actions::DIR, "src", "/w", ""),
        info(Actions::FILE, "main.rs", "/w/src", "fn main() {}\n"),
        info(Actions::FILE, "README.md", "/w", ""),
    ];
    let out = create_wem(&tree, Some(s("demo")));
    assert_eq!(
        out,
        "desc: \"demo\"\ndef: {\n0 = \"fn main() {}\n\"\n}\n\ndir:src {\n   file(pre: \"%0%\"):main.rs\n}\nfile:README.md\n}\n"
    );
}

#[test]
fn create_wem_numbers_variables_in_order() {
    let tree = vec![
        info(Actions::FILE, "a", "/w", "A"),
        info(Actions::FILE, "b", "/w", ""),
        info(Actions::FILE, "c", "/w", "C"),
    ];
    let out = create_wem(&tree, None);
    assert_eq!(
        out,
        "def: {\n0 = \"A\"\n1 = \"C\"\n}\n\nfile(pre: \"%0%\"):a\nfile:b\nfile(pre: \"%1%\"):c\n}\n"
    );
}

#[test]
fn listing_pads_names() {
    let out = display_reference_text(
        &s("/refs"),
        &vec![s("/refs/a"), s("/refs/bbb")],
        &vec![s("a"), s("bbb")],
        &vec![s("first"), s("second")],
    );
    assert_eq!(out, "from /refs\na:    first\nbbb:  second\n");
}

#[test]
fn describe_script_trims_description() {
    assert_eq!(describe_script(vec![s("desc: \"  hi  \"")]).unwrap(), "hi");
    assert_eq!(describe_script(vec![s("desc")]).err(), Some(WemError::UnexpectedEnd));
}

#[test]
fn read_dir_entry_records_paths() {
    let first = read_dir_entry(0, &s("/w"), false, &vec![], s("/w/x"), s("x")).unwrap();
    assert_eq!(first.action, Actions::DIR);
    assert_eq!((first.name.as_str(), first.location.as_str(), first.pretext.as_str()), ("x", "/w", ""));
    let f = read_dir_entry(1, &s("/w"), true, &vec![s("a"), s(""), s("b")], s("/w/x/f.txt"), s("f.txt")).unwrap();
    assert_eq!(f.action, Actions::FILE);
    assert_eq!((f.location.as_str(), f.pretext.as_str()), ("/w/x", "a\nb\n"));
    assert_eq!(read_dir_entry(1, &s("/w"), true, &vec![], s("f"), s("f")).err(), Some(WemError::NoParentPath));
}

#[test]
fn substitute_pretexts_falls_back() {
    let vars = StrMap::new();
    let a = MakeArg::from(s("r"), s("proj"), s("/s"), s("fmt"), None);
    let parsed = vec![info(Actions::FILE, "a", "/l", "%NAME%!"), info(Actions::FILE, "b", "/l", "%nope%")];
    let out = substitute_pretexts(&parsed, &vars, &a).unwrap();
    assert_eq!(out[0].pretext, "proj!");
    assert_eq!(out[1].pretext, "Error pretext");
    assert_eq!(out[1].name, "b");
    let bad = vec![info(Actions::FILE, "a", "/l", "%open")];
    assert_eq!(substitute_pretexts(&bad, &vars, &a).err(), Some(WemError::UnclosedCard));
}

#[test]
fn str_map_insert_get_extend() {
    let mut m: StrMap<String> = StrMap::new();
    assert!(m.is_empty());
    m.insert(s("a"), s("1"));
    m.insert(s("a"), s("2"));
    assert_eq!(m.get(&s("a")), Some(&s("2")));
    assert_eq!(m.len(), 1);
    let mut other: StrMap<String> = StrMap::new();
    other.insert(s("a"), s("3"));
    other.insert(s("b"), s("4"));
    m.extend_from(&other);
    assert_eq!(m.get(&s("a")), Some(&s("3")));
    assert_eq!(m.get(&s("b")), Some(&s("4")));
    assert!(!m.is_empty());
    assert_eq!(m.key_at(1), "b");
    assert_eq!(m.value_at(1), "4");
}

fn reads_back(tree: &Vec<ExecInfo>, out: String, start: &str) {
    let lines: Vec<String> = out.lines().map(String::from).collect();
    let back = try_parser(lexer(lines).unwrap(), s(start)).unwrap();
    assert_eq!(back.len(), tree.len());
    for (x, y) in back.iter().zip(tree.iter()) {
        assert_eq!(x.action, y.action);
        assert_eq!(x.name, y.name);
        assert_eq!(x.location, y.location);
        assert_eq!(x.pretext, y.pretext);
    }
}

#[test]
fn written_walk_reads_back() {
    let tree = vec![
        info(Actions::DIR, "n", "/r", ""),
        info(Actions::DIR, "a", "/r/n", ""),
        info(Actions::FILE, "f", "/r/n/a", ""),
        info(Actions::FILE, "g", "/r/n", ""),
    ];
    let out = create_wem(&tree, None);
    assert_eq!(out, "dir:n {\n   dir:a {\n      file:f\n   }\n   file:g\n}\n");
    reads_back(&tree, out, "/r");
}

#[test]
fn create_wem_counts_depth_across_siblings() {
    let tree = vec![
        info(Actions::DIR, "n", "/r", ""),
        info(Actions::DIR, "a", "/r/n", ""),
        info(Actions::FILE, "f", "/r/n/a", ""),
        info(Actions::DIR, "c", "/r/n", ""),
        info(Actions::FILE, "g", "/r/n/c", ""),
    ];
    let out = create_wem(&tree, None);
    assert_eq!(
        out,
        "dir:n {\n   dir:a {\n      file:f\n   }\n   dir:c {\n         file:g\n}\n"
    );
    reads_back(&tree, out, "/r");
}

#[test]
fn create_wem_closes_one_level_per_step() {
    let tree = vec![
        info(Actions::DIR, "n", "/r", ""),
        info(Actions::DIR, "a", "/r/n", ""),
        info(Actions::DIR, "b", "/r/n/a", ""),
        info(Actions::FILE, "f", "/r/n/a/b", ""),
        info(Actions::FILE, "g", "/r/n", ""),
    ];
    let out = create_wem(&tree, None);
    assert_eq!(
        out,
        "dir:n {\n   dir:a {\n      dir:b {\n         file:f\n      }\n   file:g\n}\n"
    );
}

#[test]
fn create_wem_single_file_with_pretext() {
    let tree = vec![info(Actions::FILE, "f", "/r", "hi\n")];
    let out = create_wem(&tree, Some(s("d")));
    assert_eq!(out, "desc: \"d\"\ndef: {\n0 = \"hi\n\"\n}\n\nfile(pre: \"%0%\"):f\n}\n");
}

#[test]
fn create_wem_opens_directory_with_recorded_path() {
    let tree = vec![
        info(Actions::DIR, "a", "/L", ""),
        info(Actions::FILE, "x", "/L", ""),
        info(Actions::FILE, "y", "/L/a", ""),
    ];
    let out = create_wem(&tree, None);
    assert_eq!(out, "dir:a {\nfile:x\n   file:y\n}\n");
}

#[test]
fn file_names_take_the_last_component() {
    assert_eq!(file_names(&vec![s("/refs/a.wem"), s("b")]).unwrap(), vec![s("a.wem"), s("b")]);
    assert_eq!(file_names(&vec![s("/refs/a.wem"), s("/x/..")]).err(), Some(WemError::NoFileName));
    assert_eq!(file_names(&vec![s("a/b/."), s("a//c/")]).unwrap(), vec![s("b"), s("c")]);
    assert_eq!(file_names(&vec![s("/")]).err(), Some(WemError::NoFileName));
}

#[test]
fn lines_lex_apart() {
    let a = vec![s("dir: a {"), s("   file(pre: \"x y\"): b")];
    let b = vec![s("}"), s("file: c")];
    let whole = lexer([a.clone(), b.clone()].concat()).unwrap();
    let ra = lexer(a).unwrap();
    let rb = lexer(b).unwrap();
    assert_eq!(whole, [ra, rb[1..].to_vec()].concat());
}
