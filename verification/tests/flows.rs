use tau::context::{
    Arg, CommandEntry, CommandProject, Config, Context, Details, NewPlan, Output, ProjectConfig,
    Task, TemplateEntry,
};
use tau::directory::Directory;
use tau::error::Error;
use tau::exec::{Commands, CommandsEntry, Group};
use tau::fstree::{FsEntry, FsTree};
use tau::locate::{choose_template, Ancestor, AssetEntry, Assets, Resolution};
use tau::path::AbsPath;
use tau::replace::NamedArg;

fn file(name: &str) -> FsEntry {
    FsEntry { name: name.to_string(), tree: FsTree::File }
}

fn root(entries: Vec<FsEntry>) -> FsTree {
    FsTree::Dir(entries)
}

fn path(comps: &[&str]) -> AbsPath {
    AbsPath { components: comps.iter().map(|s| s.to_string()).collect() }
}

fn template(name: &str, routes: Vec<AbsPath>) -> TemplateEntry {
    TemplateEntry {
        name: name.to_string(),
        project: ProjectConfig { optional_files: vec![], commands: vec![], routes },
    }
}

fn asset(name: &str, tree: FsTree) -> AssetEntry {
    AssetEntry { name: name.to_string(), tree }
}

fn has_route(routes: &Vec<AbsPath>, p: &AbsPath) -> bool {
    routes.iter().any(|r| r == p)
}

#[test]
fn details_join_src() {
    let d = Details::from(&path(&["home", "u", "p"]));
    assert!(d.workspace == path(&["home", "u", "p"]));
    assert!(d.src == path(&["home", "u", "p", "src"]));
}

#[test]
fn directory_resource_paths() {
    let d = Directory::from_root(path(&["cfg", "tau"]));
    assert!(d.config == path(&["cfg", "tau", "config.json"]));
    assert!(d.templates == path(&["cfg", "tau", "templates"]));
    assert!(d.commands == path(&["cfg", "tau", "commands.json"]));
}

#[test]
fn add_route_moves_template_out_and_registers() {
    let mut config = Config { templates: vec![template("rust", vec![])] };
    let dest = path(&["home", "u", "p"]);
    let ctx = config.add_route(dest, "rust".to_string()).unwrap();
    assert_eq!(ctx.template_name, "rust");
    assert!(has_route(&ctx.project_config.routes, &path(&["home", "u", "p"])));
    assert_eq!(config.templates.len(), 0);
}

#[test]
fn add_route_unknown_template_fails() {
    let mut config = Config { templates: vec![template("rust", vec![])] };
    let r = config.add_route(path(&["x"]), "node".to_string());
    assert!(matches!(r, Err(Error::TemplateNotFound)));
    assert_eq!(config.templates.len(), 1);
}

#[test]
fn restore_puts_template_back() {
    let mut config = Config { templates: vec![template("a", vec![]), template("b", vec![])] };
    let ctx = config.add_route(path(&["p"]), "a".to_string()).unwrap();
    assert_eq!(config.templates.len(), 1);
    config.restore(ctx.template_name, ctx.project_config);
    assert_eq!(config.templates.len(), 2);
    assert_eq!(config.templates[1].name, "a");
    assert!(has_route(&config.templates[1].project.routes, &path(&["p"])));
}

#[test]
fn cached_route_resolves_when_structure_still_matches() {
    let proj = path(&["home", "u", "proj"]);
    let mut config = Config {
        templates: vec![template("rust", vec![path(&["home", "u", "proj"])])],
    };
    let assets = Assets { entries: vec![asset("rust", root(vec![file("Cargo.toml")]))] };
    let ancestors = vec![Ancestor { path: proj, tree: root(vec![file("Cargo.toml")]) }];
    let r = Context::this(&mut config, &assets, &ancestors).unwrap();
    match r {
        Resolution::Resolved(ctx) => {
            assert_eq!(ctx.template_name, "rust");
            assert!(ctx.details.workspace == path(&["home", "u", "proj"]));
            assert!(has_route(&ctx.project_config.routes, &path(&["home", "u", "proj"])));
        },
        _ => panic!("expected a resolved context"),
    }
}

#[test]
fn stale_route_is_evicted_and_stays_out() {
    let proj = path(&["home", "u", "proj"]);
    let mut config = Config {
        templates: vec![template("rust", vec![path(&["home", "u", "proj"])])],
    };
    let assets = Assets { entries: vec![asset("rust", root(vec![file("Cargo.toml")]))] };
    let ancestors = vec![Ancestor { path: proj, tree: root(vec![file("package.json")]) }];
    let r = Context::this(&mut config, &assets, &ancestors);
    assert!(matches!(r, Err(Error::ProjectNotFound)));
    assert_eq!(config.templates[0].project.routes.len(), 0);
    let ancestors2 = vec![
        Ancestor { path: path(&["home", "u", "proj"]), tree: root(vec![file("package.json")]) },
    ];
    let r2 = Context::this(&mut config, &assets, &ancestors2);
    assert!(matches!(r2, Err(Error::ProjectNotFound)));
    assert_eq!(config.templates[0].project.routes.len(), 0);
}

#[test]
fn cold_search_resolves_single_match() {
    let mut config = Config { templates: vec![template("rust", vec![])] };
    let assets = Assets { entries: vec![asset("rust", root(vec![file("Cargo.toml")]))] };
    let ancestors = vec![
        Ancestor { path: path(&["home", "u", "proj", "src"]), tree: root(vec![file("lib.rs")]) },
        Ancestor { path: path(&["home", "u", "proj"]), tree: root(vec![file("Cargo.toml")]) },
    ];
    let r = Context::this(&mut config, &assets, &ancestors).unwrap();
    match r {
        Resolution::Resolved(ctx) => {
            assert_eq!(ctx.template_name, "rust");
            assert!(ctx.details.workspace == path(&["home", "u", "proj"]));
            assert!(has_route(&ctx.project_config.routes, &path(&["home", "u", "proj"])));
        },
        _ => panic!("expected a resolved context"),
    }
}

#[test]
fn cold_search_ambiguity_lists_both_names_in_order() {
    let mut config = Config {
        templates: vec![template("alpha", vec![]), template("beta", vec![])],
    };
    let assets = Assets {
        entries: vec![
            asset("alpha", root(vec![file("x")])),
            asset("beta", root(vec![file("x")])),
        ],
    };
    let ancestors = vec![
        Ancestor { path: path(&["home", "u", "p"]), tree: root(vec![file("x")]) },
    ];
    let r = Context::this(&mut config, &assets, &ancestors).unwrap();
    match r {
        Resolution::Ambiguous { path: found, coincidences } => {
            assert!(found == path(&["home", "u", "p"]));
            assert_eq!(coincidences.len(), 2);
            assert_eq!(coincidences[0], "alpha");
            assert_eq!(coincidences[1], "beta");
            let ctx = choose_template(&mut config, found, &coincidences, 1).unwrap();
            assert_eq!(ctx.template_name, "beta");
            assert!(has_route(&ctx.project_config.routes, &path(&["home", "u", "p"])));
        },
        _ => panic!("expected an ambiguous resolution"),
    }
}

#[test]
fn cold_search_missing_asset_directory_fails() {
    let mut config = Config { templates: vec![template("rust", vec![])] };
    let assets = Assets { entries: vec![] };
    let ancestors = vec![
        Ancestor { path: path(&["home", "u", "p"]), tree: root(vec![file("x")]) },
    ];
    let r = Context::this(&mut config, &assets, &ancestors);
    assert!(matches!(r, Err(Error::TemplateNotFound)));
}

#[test]
fn nothing_matches_means_project_not_found() {
    let mut config = Config { templates: vec![template("rust", vec![])] };
    let assets = Assets { entries: vec![asset("rust", root(vec![file("Cargo.toml")]))] };
    let ancestors = vec![
        Ancestor { path: path(&["home", "u", "p"]), tree: root(vec![file("readme")]) },
    ];
    let r = Context::this(&mut config, &assets, &ancestors);
    assert!(matches!(r, Err(Error::ProjectNotFound)));
}

#[test]
fn in_place_creation_on_nonempty_directory_fails() {
    let config = Config { templates: vec![template("rust", vec![])] };
    let cwd = path(&["home", "u", "p"]);
    let r = Context::new(&".".to_string(), None, &cwd, 1, false, &config);
    assert!(matches!(r, Err(Error::NotEmpty)));
}

#[test]
fn in_place_creation_on_empty_directory_registers_route() {
    let mut config = Config { templates: vec![template("rust", vec![])] };
    let cwd = path(&["home", "u", "p"]);
    let plan = Context::new(&".".to_string(), None, &cwd, 0, false, &config).unwrap();
    match plan {
        NewPlan::Selected { dest, name } => {
            assert!(dest == path(&["home", "u", "p"]));
            assert_eq!(name, "rust");
            let ctx = config.create_project(dest, name, true).unwrap();
            assert_eq!(ctx.template_name, "rust");
            assert!(has_route(&ctx.project_config.routes, &path(&["home", "u", "p"])));
        },
        _ => panic!("expected a selected template"),
    }
}

#[test]
fn named_creation_on_existing_path_fails() {
    let config = Config { templates: vec![template("rust", vec![])] };
    let cwd = path(&["home", "u"]);
    let r = Context::new(&"proj".to_string(), None, &cwd, 5, true, &config);
    assert!(matches!(r, Err(Error::AlreadyExists)));
}

#[test]
fn named_creation_builds_child_destination() {
    let config = Config { templates: vec![template("rust", vec![])] };
    let cwd = path(&["home", "u"]);
    let plan = Context::new(&"proj".to_string(), None, &cwd, 5, false, &config).unwrap();
    match plan {
        NewPlan::Selected { dest, name } => {
            assert!(dest == path(&["home", "u", "proj"]));
            assert_eq!(name, "rust");
        },
        _ => panic!("expected a selected template"),
    }
}

#[test]
fn creation_without_templates_fails() {
    let config = Config { templates: vec![] };
    let r = Context::new(&"proj".to_string(), None, &path(&["h"]), 0, false, &config);
    assert!(matches!(r, Err(Error::TemplateNotFound)));
}

#[test]
fn creation_with_several_templates_asks_for_a_choice() {
    let config = Config { templates: vec![template("a", vec![]), template("b", vec![])] };
    let plan = Context::new(&"proj".to_string(), None, &path(&["h"]), 0, false, &config).unwrap();
    match plan {
        NewPlan::Choice { dest, names } => {
            assert!(dest == path(&["h", "proj"]));
            assert_eq!(names, vec!["a".to_string(), "b".to_string()]);
        },
        _ => panic!("expected a choice among template names"),
    }
}

#[test]
fn creation_with_missing_asset_directory_fails() {
    let mut config = Config { templates: vec![template("rust", vec![])] };
    let r = config.create_project(path(&["d"]), "rust".to_string(), false);
    assert!(matches!(r, Err(Error::TemplateNotFound)));
    assert_eq!(config.templates.len(), 1);
}

fn build_context() -> Context {
    Context {
        details: Details::from(&path(&["home", "u", "p"])),
        project_config: ProjectConfig {
            optional_files: vec![],
            commands: vec![CommandEntry {
                name: "build".to_string(),
                body: CommandProject {
                    tasks: vec![
                        Task {
                            name: "compile".to_string(),
                            command: "cargo build --manifest-path {{workspace}}/Cargo.toml"
                                .to_string(),
                            output: Output::Required,
                        },
                        Task {
                            name: "label".to_string(),
                            command: "echo {{label}}".to_string(),
                            output: Output::Silent,
                        },
                    ],
                    args: Some(vec![Arg {
                        name: "label".to_string(),
                        description: Some("a tag for the run".to_string()),
                    }]),
                    description: None,
                },
            }],
            routes: vec![],
        },
        template_name: "rust".to_string(),
    }
}

#[test]
fn exec_plan_expands_every_task_in_order() {
    let ctx = build_context();
    let args = vec![NamedArg { name: "label".to_string(), value: "v1".to_string() }];
    let plan = ctx.exec_plan(&"BUILD".to_string(), &args).unwrap();
    assert_eq!(plan.len(), 2);
    assert_eq!(plan[0].name, "compile");
    assert_eq!(plan[0].command, "cargo build --manifest-path /home/u/p/Cargo.toml");
    assert_eq!(plan[1].name, "label");
    assert_eq!(plan[1].command, "echo v1");
}

#[test]
fn exec_plan_unknown_command_fails() {
    let ctx = build_context();
    let r = ctx.exec_plan(&"deploy".to_string(), &vec![]);
    assert!(matches!(r, Err(Error::CommandNotFound)));
}

#[test]
fn exec_plan_missing_argument_names_the_failing_command() {
    let ctx = build_context();
    let r = ctx.exec_plan(&"build".to_string(), &vec![]);
    match r {
        Err(Error::MissingArgument { command }) => assert_eq!(command, "echo {{label}}"),
        _ => panic!("expected a missing-argument failure"),
    }
}

#[test]
fn reference_catalog_holds_plain_data() {
    let catalog = Commands {
        groups: vec![CommandsEntry {
            name: "git".to_string(),
            groups: vec![Group {
                name: "basics".to_string(),
                description: Some("everyday commands".to_string()),
                commands: vec!["git status".to_string()],
            }],
        }],
    };
    assert_eq!(catalog.groups[0].groups[0].commands[0], "git status");
}

#[test]
fn cached_route_hit_on_higher_ancestor() {
    let mut config = Config {
        templates: vec![template("rust", vec![path(&["home", "u", "proj"])])],
    };
    let assets = Assets { entries: vec![asset("rust", root(vec![file("Cargo.toml")]))] };
    let ancestors = vec![
        Ancestor { path: path(&["home", "u", "proj", "src"]), tree: root(vec![file("lib.rs")]) },
        Ancestor { path: path(&["home", "u", "proj"]), tree: root(vec![file("Cargo.toml")]) },
    ];
    let r = Context::this(&mut config, &assets, &ancestors).unwrap();
    match r {
        Resolution::Resolved(ctx) => {
            assert!(ctx.details.workspace == path(&["home", "u", "proj"]));
        },
        _ => panic!("expected a resolved context"),
    }
}

#[test]
fn evicted_route_falls_back_to_cold_search() {
    let proj = path(&["home", "u", "proj"]);
    let mut config = Config {
        templates: vec![
            template("rust", vec![path(&["home", "u", "proj"])]),
            template("node", vec![]),
        ],
    };
    let assets = Assets {
        entries: vec![
            asset("rust", root(vec![file("Cargo.toml")])),
            asset("node", root(vec![file("package.json")])),
        ],
    };
    let ancestors = vec![Ancestor { path: proj, tree: root(vec![file("package.json")]) }];
    let r = Context::this(&mut config, &assets, &ancestors).unwrap();
    match r {
        Resolution::Resolved(ctx) => {
            assert_eq!(ctx.template_name, "node");
            assert!(has_route(&ctx.project_config.routes, &path(&["home", "u", "proj"])));
        },
        _ => panic!("expected a resolved context"),
    }
    assert_eq!(config.templates.len(), 1);
    assert_eq!(config.templates[0].name, "rust");
    assert_eq!(config.templates[0].project.routes.len(), 0);
}

#[test]
fn eviction_keeps_unrelated_routes() {
    let proj = path(&["home", "u", "proj"]);
    let elsewhere = path(&["home", "u", "other"]);
    let mut config = Config {
        templates: vec![template("rust", vec![path(&["home", "u", "proj"]), elsewhere])],
    };
    let assets = Assets { entries: vec![asset("rust", root(vec![file("Cargo.toml")]))] };
    let ancestors = vec![Ancestor { path: proj, tree: root(vec![file("readme")]) }];
    let r = Context::this(&mut config, &assets, &ancestors);
    assert!(matches!(r, Err(Error::ProjectNotFound)));
    assert_eq!(config.templates[0].project.routes.len(), 1);
    assert!(has_route(&config.templates[0].project.routes, &path(&["home", "u", "other"])));
}
