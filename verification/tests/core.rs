use tau::compare::compare_dir;
use tau::context::Details;
use tau::error::Error;
use tau::fstree::{FsEntry, FsTree};
use tau::path::{up, AbsPath};
use tau::replace::{render, replace_command, NamedArg};
use tau::strings::{lowercase, persistent_str, persistent_str_optional, str_eq};

fn file(name: &str) -> FsEntry {
    FsEntry { name: name.to_string(), tree: FsTree::File }
}

fn dir(name: &str, entries: Vec<FsEntry>) -> FsEntry {
    FsEntry { name: name.to_string(), tree: FsTree::Dir(entries) }
}

fn root(entries: Vec<FsEntry>) -> FsTree {
    FsTree::Dir(entries)
}

fn path(comps: &[&str]) -> AbsPath {
    AbsPath { components: comps.iter().map(|s| s.to_string()).collect() }
}

fn opts(names: &[&str]) -> Vec<String> {
    names.iter().map(|s| s.to_string()).collect()
}

#[test]
fn subset_skeleton_matches() {
    let template = root(vec![file("Cargo.toml"), dir("src", vec![file("main.rs")])]);
    let candidate = root(vec![
        file("Cargo.toml"),
        file("Cargo.lock"),
        dir("src", vec![file("main.rs"), file("extra.rs")]),
        dir("target", vec![]),
    ]);
    assert!(matches!(compare_dir(&template, &candidate, &opts(&[])), Ok(true)));
}

#[test]
fn removing_required_file_flips_to_false() {
    let template = root(vec![file("Cargo.toml"), dir("src", vec![file("main.rs")])]);
    let candidate = root(vec![file("Cargo.toml"), dir("src", vec![file("extra.rs")])]);
    assert!(matches!(compare_dir(&template, &candidate, &opts(&[])), Ok(false)));
}

#[test]
fn junk_only_in_template_is_ignored() {
    let template = root(vec![
        file(".DS_Store"),
        file("Thumbs.db"),
        file("a.txt"),
        dir("sub", vec![file(".DS_Store"), file("b.txt")]),
    ]);
    let clean = root(vec![file("a.txt"), dir("sub", vec![file("b.txt")])]);
    let candidate = root(vec![file("a.txt"), dir("sub", vec![file("b.txt")])]);
    assert!(matches!(compare_dir(&template, &candidate, &opts(&[])), Ok(true)));
    assert!(matches!(compare_dir(&clean, &candidate, &opts(&[])), Ok(true)));
}

#[test]
fn optional_file_may_be_absent() {
    let template = root(vec![file("a.txt"), file("notes.md")]);
    let candidate = root(vec![file("a.txt")]);
    assert!(matches!(compare_dir(&template, &candidate, &opts(&["notes.md"])), Ok(true)));
    assert!(matches!(compare_dir(&template, &candidate, &opts(&[])), Ok(false)));
}

#[test]
fn optional_directory_is_not_recursed_into() {
    let template = root(vec![file("a.txt"), dir("docs", vec![file("guide.md")])]);
    let candidate = root(vec![file("a.txt"), dir("docs", vec![file("other.md")])]);
    assert!(matches!(compare_dir(&template, &candidate, &opts(&["docs"])), Ok(true)));
    assert!(matches!(compare_dir(&template, &candidate, &opts(&[])), Ok(false)));
}

#[test]
fn nested_optional_path_with_separator() {
    let template = root(vec![dir("src", vec![file("main.rs"), file("gen.rs")])]);
    let candidate = root(vec![dir("src", vec![file("main.rs")])]);
    assert!(matches!(compare_dir(&template, &candidate, &opts(&["src/gen.rs"])), Ok(true)));
    assert!(matches!(compare_dir(&template, &candidate, &opts(&["./src/gen.rs"])), Ok(true)));
    assert!(matches!(compare_dir(&template, &candidate, &opts(&["gen.rs"])), Ok(false)));
}

#[test]
fn descending_into_non_directory_is_a_read_failure() {
    let template = root(vec![dir("src", vec![file("main.rs")])]);
    let candidate = root(vec![file("src")]);
    assert!(matches!(compare_dir(&template, &candidate, &opts(&[])), Err(Error::ReadFailure)));
}

#[test]
fn comparing_files_as_roots_is_a_read_failure() {
    let template = FsTree::File;
    let candidate = root(vec![]);
    assert!(matches!(compare_dir(&template, &candidate, &opts(&[])), Err(Error::ReadFailure)));
}

#[test]
fn ancestor_walk_excludes_boundary() {
    let home = path(&["home", "user"]);
    let start = path(&["home", "user", "work", "proj"]);
    let visited = up(&home, &start);
    assert_eq!(visited.len(), 2);
    assert!(visited[0] == path(&["home", "user", "work", "proj"]));
    assert!(visited[1] == path(&["home", "user", "work"]));
    for v in &visited {
        assert!(!(*v == home));
    }
}

#[test]
fn ancestor_walk_terminates_outside_boundary() {
    let home = path(&["home", "user"]);
    let start = path(&["tmp", "x"]);
    let visited = up(&home, &start);
    assert_eq!(visited.len(), 3);
    assert!(visited[0] == path(&["tmp", "x"]));
    assert!(visited[1] == path(&["tmp"]));
    assert!(visited[2] == path(&[]));
}

#[test]
fn ancestor_walk_from_boundary_visits_nothing() {
    let home = path(&["home", "user"]);
    let visited = up(&home, &path(&["home", "user"]));
    assert_eq!(visited.len(), 0);
}

#[test]
fn render_paths() {
    assert_eq!(render(&path(&["home", "u", "p"])), "/home/u/p");
    assert_eq!(render(&path(&[])), "/");
}

#[test]
fn expand_workspace_placeholder() {
    let details = Details::from(&path(&["home", "u", "proj"]));
    let r = replace_command(&"{{workspace}}/out".to_string(), &details, &vec![]);
    assert_eq!(r.unwrap(), "/home/u/proj/out");
}

#[test]
fn expand_src_placeholder() {
    let details = Details::from(&path(&["home", "u", "proj"]));
    let r = replace_command(&"ls {{src}}".to_string(), &details, &vec![]);
    assert_eq!(r.unwrap(), "ls /home/u/proj/src");
}

#[test]
fn expand_missing_argument_fails() {
    let details = Details::from(&path(&["home", "u", "proj"]));
    let r = replace_command(&"{{name}}".to_string(), &details, &vec![]);
    match r {
        Err(Error::MissingArgument { command }) => assert_eq!(command, "{{name}}"),
        _ => panic!("expected a missing-argument failure"),
    }
}

#[test]
fn expand_bound_argument() {
    let details = Details::from(&path(&["home", "u", "proj"]));
    let args = vec![NamedArg { name: "name".to_string(), value: "x".to_string() }];
    let r = replace_command(&"{{name}}".to_string(), &details, &args);
    assert_eq!(r.unwrap(), "x");
}

#[test]
fn expand_literal_beats_argument_binding() {
    let details = Details::from(&path(&["w"]));
    let args = vec![NamedArg { name: "workspace".to_string(), value: "elsewhere".to_string() }];
    let r = replace_command(&"{{workspace}}".to_string(), &details, &args);
    assert_eq!(r.unwrap(), "/w");
}

#[test]
fn expand_copies_plain_text_and_stray_braces() {
    let details = Details::from(&path(&["w"]));
    let r = replace_command(&"echo {hi} }} {{".to_string(), &details, &vec![]);
    assert_eq!(r.unwrap(), "echo {hi} }} {{");
}

#[test]
fn expand_processes_every_token() {
    let details = Details::from(&path(&["w"]));
    let args = vec![NamedArg { name: "a".to_string(), value: "1".to_string() }];
    let r = replace_command(&"{{a}} {{workspace}} {{a}}".to_string(), &details, &args);
    assert_eq!(r.unwrap(), "1 /w 1");
}

#[test]
fn error_messages() {
    assert_eq!(Error::NotEmpty.message(), "The directory is not empty");
    assert_eq!(Error::AlreadyExists.message(), "Project already exists");
    assert_eq!(Error::TemplateNotFound.message(), "Template not found");
    assert_eq!(Error::ProjectNotFound.message(), "Project not found");
    assert_eq!(Error::CommandNotFound.message(), "Command not found");
    assert_eq!(Error::HomeDirectoryUnavailable.message(), "Home directory not found");
    assert_eq!(
        Error::MissingArgument { command: "{{x}}".to_string() }.message(),
        "the argument is missing or does not exist\nCommand: {{x}}"
    );
}

#[test]
fn persistent_strings() {
    assert_eq!(persistent_str("abc".to_string()), "abc");
    assert_eq!(persistent_str_optional(Some("d".to_string())), "d");
    assert_eq!(persistent_str_optional(None), "");
}

#[test]
fn string_helpers() {
    assert!(str_eq("abc", "abc"));
    assert!(!str_eq("abc", "abd"));
    assert!(!str_eq("abc", "ab"));
    assert_eq!(lowercase("BUILD"), "build");
    assert_eq!(lowercase(""), "");
}

#[test]
fn expand_lazy_token_takes_first_close() {
    let details = Details::from(&path(&["w"]));
    let args = vec![NamedArg { name: "a".to_string(), value: "1".to_string() }];
    let r = replace_command(&"{{a}}}".to_string(), &details, &args);
    assert_eq!(r.unwrap(), "1}");
}

#[test]
fn expand_empty_token_is_left_alone() {
    let details = Details::from(&path(&["w"]));
    let r = replace_command(&"{{}}".to_string(), &details, &vec![]);
    assert_eq!(r.unwrap(), "{{}}");
}

#[test]
fn expand_unclosed_token_is_left_alone() {
    let details = Details::from(&path(&["w"]));
    let args = vec![NamedArg { name: "a".to_string(), value: "1".to_string() }];
    let r = replace_command(&"{{a}".to_string(), &details, &args);
    assert_eq!(r.unwrap(), "{{a}");
}

#[test]
fn expand_triple_brace_name_includes_brace() {
    let details = Details::from(&path(&["w"]));
    let args = vec![NamedArg { name: "{a".to_string(), value: "1".to_string() }];
    let r = replace_command(&"{{{a}}".to_string(), &details, &args);
    assert_eq!(r.unwrap(), "1");
}

#[test]
fn deeper_level_mismatch_is_found() {
    let template = root(vec![dir("a", vec![dir("b", vec![file("needed.txt")])])]);
    let candidate = root(vec![dir("a", vec![dir("b", vec![file("other.txt")])])]);
    assert!(matches!(compare_dir(&template, &candidate, &opts(&[])), Ok(false)));
}
