use vstd::prelude::*;

use crate::error::Error;
use crate::path::AbsPath;
use crate::strings::{str_eq, string_eq, strings_eq};

verus! {

broadcast use vstd::std_specs::vec::group_vec_axioms;

/// Output-visibility mode of a task: whether its captured stdout is shown.
#[derive(Clone, Copy)]
pub enum Output {
    Optional,
    Required,
    Silent,
}

/// A declared command argument: a name, and a description for help output.
/// Every declared argument is mandatory.
pub struct Arg {
    pub name: String,
    pub description: Option<String>,
}

/// One named shell-command step of a template, run in declared order.
pub struct Task {
    pub name: String,
    pub command: String,
    pub output: Output,
}

/// A named command of a template: its tasks, its declared arguments, and a
/// description.
pub struct CommandProject {
    pub tasks: Vec<Task>,
    pub args: Option<Vec<Arg>>,
    pub description: Option<String>,
}

/// A command of a template, under the name it is invoked by.
pub struct CommandEntry {
    pub name: String,
    pub body: CommandProject,
}

/// Per-template options: the files allowed to be absent from a project, the
/// template's commands, and the Route Set of confirmed project paths.
pub struct ProjectConfig {
    pub optional_files: Vec<String>,
    pub commands: Vec<CommandEntry>,
    pub routes: Vec<AbsPath>,
}

/// One template of the store, under its unique name.
pub struct TemplateEntry {
    pub name: String,
    pub project: ProjectConfig,
}

/// The durable configuration: an ordered mapping from template name to its
/// per-template options.
pub struct Config {
    pub templates: Vec<TemplateEntry>,
}

/// Resolved paths of one project: its root and its `src` directory.
pub struct Details {
    pub workspace: AbsPath,
    pub src: AbsPath,
}

/// The per-invocation binding of a resolved project to one template's
/// definitions; it owns the template's options until they are written back.
pub struct Context {
    pub details: Details,
    pub project_config: ProjectConfig,
    pub template_name: String,
}

/// Route Sets hold each path at most once.
pub open spec fn paths_distinct(rs: Seq<Seq<Seq<char>>>) -> bool {
    forall|k: int, l: int| 0 <= k < l < rs.len() ==> rs[k] != rs[l]
}

/// Template names are unique, and every Route Set holds distinct paths.
pub open spec fn wf_config(c: Config) -> bool {
    &&& forall|i: int, j: int|
        0 <= i < j < c.templates@.len() ==> c.templates@[i].name@ != c.templates@[j].name@
    &&& forall|i: int|
        0 <= i < c.templates@.len() ==> paths_distinct(
            #[trigger] c.templates@[i].project.routes.deep_view(),
        )
}

/// Whether the store has a template of this name.
pub open spec fn has_template(ts: Seq<TemplateEntry>, name: Seq<char>) -> bool {
    exists|i: int| 0 <= i < ts.len() && #[trigger] ts[i].name@ == name
}

/// The index of the template of this name; meaningful when names are unique
/// and `has_template` holds.
pub open spec fn template_idx(ts: Seq<TemplateEntry>, name: Seq<char>) -> int {
    choose|i: int| 0 <= i < ts.len() && #[trigger] ts[i].name@ == name
}

/// The template names, in store order.
pub open spec fn names_of(ts: Seq<TemplateEntry>) -> Seq<Seq<char>> {
    ts.map_values(|t: TemplateEntry| t.name@)
}

/// Find the index of the template named `name`.
pub fn find_template(ts: &Vec<TemplateEntry>, name: &String) -> (r: Option<usize>)
    requires
        forall|i: int, j: int| 0 <= i < j < ts@.len() ==> ts@[i].name@ != ts@[j].name@,
    ensures
        match r {
            Some(i) => has_template(ts@, name@) && i == template_idx(ts@, name@) && i < ts@.len()
                && ts@[i as int].name@ == name@,
            None => !has_template(ts@, name@),
        },
{
    let mut i: usize = 0;
    while i < ts.len()
        invariant
            i <= ts@.len(),
            forall|j: int| 0 <= j < i ==> ts@[j].name@ != name@,
            forall|i: int, j: int| 0 <= i < j < ts@.len() ==> ts@[i].name@ != ts@[j].name@,
        decreases ts@.len() - i,
    {
        if string_eq(&ts[i].name, name) {
            proof {
                let k = template_idx(ts@, name@);
                assert(ts@[k].name@ == name@);
                assert(k == i as int);
            }
            return Some(i);
        }
        i = i + 1;
    }
    None
}

/// Collect the template names, in store order.
pub fn template_names(config: &Config) -> (r: Vec<String>)
    ensures
        r.deep_view() == names_of(config.templates@),
{
    let mut r: Vec<String> = Vec::new();
    let mut i: usize = 0;
    while i < config.templates.len()
        invariant
            i <= config.templates@.len(),
            r.deep_view().len() == i,
            forall|j: int| 0 <= j < i ==> r.deep_view()[j] == config.templates@[j].name@,
        decreases config.templates@.len() - i,
    {
        let ghost dv = r.deep_view();
        r.push(config.templates[i].name.clone());
        proof {
            assert(r.deep_view() =~= dv.push(config.templates@[i as int].name@));
        }
        i = i + 1;
    }
    proof {
        assert(r.deep_view() =~= names_of(config.templates@));
    }
    r
}

/// Whether a Route Set holds the path `p`.
pub fn routes_has(routes: &Vec<AbsPath>, p: &AbsPath) -> (r: bool)
    ensures
        r == routes.deep_view().contains(p@),
{
    let mut k: usize = 0;
    while k < routes.len()
        invariant
            k <= routes@.len(),
            forall|m: int| 0 <= m < k ==> routes.deep_view()[m] != p@,
        decreases routes@.len() - k,
    {
        if strings_eq(&routes[k].components, &p.components) {
            proof {
                assert(routes.deep_view()[k as int] == p@);
            }
            return true;
        }
        proof {
            assert(routes.deep_view()[k as int] == routes@[k as int]@);
        }
        k = k + 1;
    }
    proof {
        if routes.deep_view().contains(p@) {
            let m = choose|m: int|
                0 <= m < routes.deep_view().len() && routes.deep_view()[m] == p@;
            assert(routes.deep_view()[m] != p@);
        }
    }
    false
}

/// Insert `p` into a Route Set unless it is already there.
pub fn route_insert(routes: &mut Vec<AbsPath>, p: AbsPath)
    ensures
        old(routes).deep_view().contains(p@) ==> *final(routes) == *old(routes),
        !old(routes).deep_view().contains(p@) ==> final(routes)@ == old(routes)@.push(p),
        final(routes).deep_view() == if old(routes).deep_view().contains(p@) {
            old(routes).deep_view()
        } else {
            old(routes).deep_view().push(p@)
        },
        paths_distinct(old(routes).deep_view()) ==> paths_distinct(final(routes).deep_view()),
{
    if !routes_has(routes, &p) {
        let ghost dv = routes.deep_view();
        let ghost pv = p@;
        routes.push(p);
        proof {
            assert(routes.deep_view() =~= dv.push(pv));
            if paths_distinct(dv) {
                assert forall|k: int, l: int|
                    0 <= k < l < routes.deep_view().len() implies routes.deep_view()[k]
                    != routes.deep_view()[l] by {
                    if l == dv.len() {
                        if routes.deep_view()[k] == pv {
                            assert(dv[k] == pv);
                            assert(dv.contains(pv));
                        }
                    }
                }
            }
        }
    }
}

/// Remove `p` from a Route Set, if it is there.
pub fn route_remove(routes: &mut Vec<AbsPath>, p: &AbsPath)
    requires
        paths_distinct(old(routes).deep_view()),
    ensures
        paths_distinct(final(routes).deep_view()),
        !old(routes).deep_view().contains(p@) ==> *final(routes) == *old(routes),
        forall|q: Seq<Seq<char>>|
            #[trigger] final(routes).deep_view().contains(q) <==> (old(
                routes,
            ).deep_view().contains(q) && q != p@),
{
    let ghost dv0 = routes.deep_view();
    let mut k: usize = 0;
    while k < routes.len()
        invariant
            k <= routes@.len(),
            *routes == *old(routes),
            routes.deep_view() == dv0,
            paths_distinct(dv0),
            forall|m: int| 0 <= m < k ==> dv0[m] != p@,
        decreases routes@.len() - k,
    {
        if strings_eq(&routes[k].components, &p.components) {
            proof {
                assert(dv0[k as int] == p@);
                assert(dv0.contains(p@));
            }
            let ghost pre: Seq<AbsPath> = routes@;
            let _ = routes.remove(k);
            proof {
                assert(routes@ =~= pre.remove(k as int));
                let dv1 = routes.deep_view();
                assert forall|m: int| 0 <= m < dv1.len() implies dv1[m] == if m < k {
                    dv0[m]
                } else {
                    dv0[m + 1]
                } by {
                    if m < k {
                        assert(routes@[m] == pre[m]);
                    } else {
                        assert(routes@[m] == pre[m + 1]);
                    }
                }
                assert forall|q: Seq<Seq<char>>| #[trigger] dv1.contains(q) implies (
                dv0.contains(q) && q != p@) by {
                    let m = choose|m: int| 0 <= m < dv1.len() && dv1[m] == q;
                    if m < k {
                        assert(dv0[m] == q);
                        assert(dv0[m] != dv0[k as int]);
                    } else {
                        assert(dv0[m + 1] == q);
                        assert(dv0[k as int] != dv0[m + 1]);
                    }
                }
                assert forall|q: Seq<Seq<char>>| dv0.contains(q) && q != p@ implies #[trigger] dv1.contains(
                    q,
                ) by {
                    let m = choose|m: int| 0 <= m < dv0.len() && dv0[m] == q;
                    if m < k {
                        assert(dv1[m] == q);
                    } else {
                        assert(m != k);
                        assert(dv1[m - 1] == q);
                    }
                }
                assert forall|a: int, b: int|
                    0 <= a < b < dv1.len() implies dv1[a] != dv1[b] by {
                    if b < k {
                    } else if a < k {
                        assert(dv1[a] == dv0[a] && dv1[b] == dv0[b + 1]);
                    } else {
                        assert(dv1[a] == dv0[a + 1] && dv1[b] == dv0[b + 1]);
                    }
                }
            }
            return;
        }
        k = k + 1;
    }
    proof {
        assert forall|q: Seq<Seq<char>>| #[trigger] dv0.contains(q) implies q != p@ by {
            let m = choose|m: int| 0 <= m < dv0.len() && dv0[m] == q;
        }
        if dv0.contains(p@) {
            assert(p@ != p@);
        }
    }
}

impl Details {
    /// Resolve a project's paths from its root: the `src` directory sits
    /// directly under the workspace.
    pub fn from(workspace: &AbsPath) -> (d: Details)
        ensures
            d.workspace@ == workspace@,
            d.src@ == workspace@.push("src"@),
    {
        let name = String::from_str("src");
        let src = workspace.child(&name);
        Details { workspace: workspace.duplicate(), src }
    }
}

impl Config {
    /// Add a confirmed project path to the named template's Route Set, and
    /// move that template out of the store into a fresh Context.  Fails
    /// exactly when the store has no template of that name.
    pub fn add_route(&mut self, project_path: AbsPath, template_name: String) -> (r: Result<
        Context,
        Error,
    >)
        requires
            wf_config(*old(self)),
        ensures
            wf_config(*final(self)),
            has_template(old(self).templates@, template_name@) ==> ({
                let i = template_idx(old(self).templates@, template_name@);
                &&& r is Ok
                &&& final(self).templates@ == old(self).templates@.remove(i)
                &&& r->Ok_0.template_name == template_name
                &&& r->Ok_0.details.workspace@ == project_path@
                &&& r->Ok_0.details.src@ == project_path@.push("src"@)
                &&& r->Ok_0.project_config.optional_files == old(self).templates@[i].project.optional_files
                &&& r->Ok_0.project_config.commands == old(self).templates@[i].project.commands
                &&& r->Ok_0.project_config.routes.deep_view() == if old(self).templates@[i].project.routes.deep_view().contains(project_path@) {
                    old(self).templates@[i].project.routes.deep_view()
                } else {
                    old(self).templates@[i].project.routes.deep_view().push(project_path@)
                }
            }),
            !has_template(old(self).templates@, template_name@) ==> r == Err::<
                Context,
                Error,
            >(Error::TemplateNotFound) && *final(self) == *old(self),
    {
        match find_template(&self.templates, &template_name) {
            Some(i) => {
                let mut entry = self.templates.remove(i);
                let details = Details::from(&project_path);
                proof {
                    assert(paths_distinct(entry.project.routes.deep_view()));
                }
                route_insert(&mut entry.project.routes, project_path);
                proof {
                    assert forall|a: int, b: int|
                        0 <= a < b < self.templates@.len() implies self.templates@[a].name@
                        != self.templates@[b].name@ by {
                        if b < i {
                        } else if a < i {
                            assert(self.templates@[b] == old(self).templates@[b + 1]);
                        } else {
                            assert(self.templates@[a] == old(self).templates@[a + 1]);
                            assert(self.templates@[b] == old(self).templates@[b + 1]);
                        }
                    }
                    assert forall|a: int|
                        0 <= a < self.templates@.len() implies paths_distinct(
                        #[trigger] self.templates@[a].project.routes.deep_view()) by {
                        if a < i {
                        } else {
                            assert(self.templates@[a] == old(self).templates@[a + 1]);
                        }
                    }
                }
                Ok(Context { details, project_config: entry.project, template_name })
            },
            None => Err(Error::TemplateNotFound),
        }
    }

    /// Put a template back into the store under its name: in place if the
    /// name is present, appended otherwise.
    pub fn restore(&mut self, template_name: String, project: ProjectConfig) -> (idx: usize)
        requires
            wf_config(*old(self)),
            paths_distinct(project.routes.deep_view()),
        ensures
            wf_config(*final(self)),
            has_template(old(self).templates@, template_name@) ==> ({
                let i = template_idx(old(self).templates@, template_name@);
                idx == i && final(self).templates@ == old(self).templates@.update(
                    i,
                    TemplateEntry { name: template_name, project },
                )
            }),
            !has_template(old(self).templates@, template_name@) ==> idx == old(self).templates@.len() && final(self).templates@ == old(self).templates@.push(
                TemplateEntry { name: template_name, project },
            ),
    {
        let ghost entry_v = TemplateEntry { name: template_name, project };
        match find_template(&self.templates, &template_name) {
            Some(i) => {
                let ghost pre = self.templates@;
                let _ = self.templates.remove(i);
                self.templates.insert(i, TemplateEntry { name: template_name, project });
                proof {
                    assert(self.templates@ =~= pre.update(i as int, entry_v));
                    assert forall|a: int, b: int|
                        0 <= a < b < self.templates@.len() implies self.templates@[a].name@
                        != self.templates@[b].name@ by {
                        assert(pre[a].name@ != pre[b].name@);
                        assert(entry_v.name@ == pre[i as int].name@);
                    }
                }
                i
            },
            None => {
                let idx = self.templates.len();
                self.templates.push(TemplateEntry { name: template_name, project });
                proof {
                    assert forall|a: int, b: int|
                        0 <= a < b < self.templates@.len() implies self.templates@[a].name@
                        != self.templates@[b].name@ by {
                        if b == old(self).templates@.len() {
                            assert(!has_template(old(self).templates@, entry_v.name@));
                            if old(self).templates@[a].name@ == entry_v.name@ {
                                assert(has_template(old(self).templates@, entry_v.name@));
                            }
                        }
                    }
                }
                idx
            },
        }
    }
}

/// What the new-project flow decided: either a template is settled, or the
/// caller must let the user choose among all template names.
pub enum NewPlan {
    Selected { dest: AbsPath, name: String },
    Choice { dest: AbsPath, names: Vec<String> },
}

impl Context {
    /// Decide the destination and the template of a new project.  `.` as
    /// the project name asks for in-place creation, allowed only in an
    /// empty current directory; any other name becomes a child of the
    /// current directory, which must not exist yet.  Without an explicit
    /// template name, a single stored template is taken; several demand a
    /// choice; none is an error.
    pub fn new(
        project_name: &String,
        template_name: Option<&String>,
        cwd: &AbsPath,
        cwd_entry_count: usize,
        dest_exists: bool,
        config: &Config,
    ) -> (r: Result<NewPlan, Error>)
        ensures
            ({
                let in_place = project_name@ == "."@;
                let dest_v = if in_place {
                    cwd@
                } else {
                    cwd@.push(project_name@)
                };
                if in_place && cwd_entry_count > 0 {
                    r == Err::<NewPlan, Error>(Error::NotEmpty)
                } else if !in_place && dest_exists {
                    r == Err::<NewPlan, Error>(Error::AlreadyExists)
                } else {
                    match template_name {
                        Some(n) => r matches Ok(NewPlan::Selected { dest, name }) && dest@
                            == dest_v && name@ == n@,
                        None => if config.templates@.len() == 0 {
                            r == Err::<NewPlan, Error>(Error::TemplateNotFound)
                        } else if config.templates@.len() == 1 {
                            r matches Ok(NewPlan::Selected { dest, name }) && dest@ == dest_v
                                && name@ == config.templates@[0].name@
                        } else {
                            r matches Ok(NewPlan::Choice { dest, names }) && dest@ == dest_v
                                && names.deep_view() == names_of(config.templates@)
                        },
                    }
                }
            }),
    {
        let in_place = str_eq(project_name.as_str(), ".");
        if in_place {
            if cwd_entry_count > 0 {
                return Err(Error::NotEmpty);
            }
        } else {
            if dest_exists {
                return Err(Error::AlreadyExists);
            }
        }
        let dest = if in_place {
            cwd.duplicate()
        } else {
            cwd.child(project_name)
        };
        match template_name {
            Some(n) => Ok(NewPlan::Selected { dest, name: n.clone() }),
            None => {
                if config.templates.len() == 0 {
                    Err(Error::TemplateNotFound)
                } else if config.templates.len() == 1 {
                    Ok(NewPlan::Selected { dest, name: config.templates[0].name.clone() })
                } else {
                    Ok(NewPlan::Choice { dest, names: template_names(config) })
                }
            },
        }
    }
}

impl Config {
    /// Register a newly created project under the chosen template, once the
    /// caller has checked on disk whether that template's asset directory
    /// exists.  Fails exactly when the asset directory is missing or the
    /// store has no template of that name.
    pub fn create_project(
        &mut self,
        dest: AbsPath,
        template_name: String,
        template_dir_exists: bool,
    ) -> (r: Result<Context, Error>)
        requires
            wf_config(*old(self)),
        ensures
            wf_config(*final(self)),
            !template_dir_exists ==> r == Err::<Context, Error>(Error::TemplateNotFound) && *final(self) == *old(self),
            template_dir_exists && has_template(old(self).templates@, template_name@) ==> ({
                let i = template_idx(old(self).templates@, template_name@);
                &&& r is Ok
                &&& final(self).templates@ == old(self).templates@.remove(i)
                &&& r->Ok_0.template_name == template_name
                &&& r->Ok_0.details.workspace@ == dest@
                &&& r->Ok_0.details.src@ == dest@.push("src"@)
                &&& r->Ok_0.project_config.routes.deep_view().contains(dest@)
            }),
            template_dir_exists && !has_template(old(self).templates@, template_name@) ==> r
                == Err::<Context, Error>(Error::TemplateNotFound) && *final(self) == *old(self),
    {
        if !template_dir_exists {
            return Err(Error::TemplateNotFound);
        }
        let r = self.add_route(dest, template_name);
        proof {
            if has_template(old(self).templates@, template_name@) {
                let i = template_idx(old(self).templates@, template_name@);
                let rs = old(self).templates@[i].project.routes.deep_view();
                if rs.contains(dest@) {
                } else {
                    assert(rs.push(dest@)[rs.len() as int] == dest@);
                }
            }
        }
        r
    }
}

} // verus!
