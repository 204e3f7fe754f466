use vstd::prelude::*;

use crate::context::{CommandEntry, CommandProject, Context, Output, Task};
use crate::error::Error;
use crate::replace::{expand_from, render_spec, replace_command, NamedArg};
use crate::strings::{lower_of, lowercase, string_eq};

verus! {

broadcast use vstd::std_specs::vec::group_vec_axioms;

/// A labeled group of reference commands, shown on request and never run.
pub struct Group {
    pub name: String,
    pub description: Option<String>,
    pub commands: Vec<String>,
}

/// One label of the reference catalog with its groups.
pub struct CommandsEntry {
    pub name: String,
    pub groups: Vec<Group>,
}

/// The catalog of reference command groups: an ordered mapping from label
/// to groups, read from disk and treated as opaque data.
pub struct Commands {
    pub groups: Vec<CommandsEntry>,
}

/// The command of this name, if the template declares one.
pub open spec fn command_lookup(cs: Seq<CommandEntry>, name: Seq<char>) -> Option<CommandProject>
    decreases cs.len(),
{
    if cs.len() == 0 {
        None
    } else if cs[0].name@ == name {
        Some(cs[0].body)
    } else {
        command_lookup(cs.drop_first(), name)
    }
}

/// One task made ready to run: its display name, its fully expanded command
/// line, and its output-visibility mode.
pub struct PreparedTask {
    pub name: String,
    pub command: String,
    pub output: Output,
}

/// The first task whose command template holds an unresolved placeholder.
pub open spec fn first_missing(
    tasks: Seq<Task>,
    ws: Seq<char>,
    src: Seq<char>,
    args: Seq<NamedArg>,
) -> Option<int>
    decreases tasks.len(),
{
    if tasks.len() == 0 {
        None
    } else if expand_from(tasks[0].command@, 0, ws, src, args).missing {
        Some(0)
    } else {
        match first_missing(tasks.drop_first(), ws, src, args) {
            Some(k) => Some(k + 1),
            None => None,
        }
    }
}

/// Where `first_missing` points, that task's expansion fails and every
/// earlier one succeeds.
pub proof fn lemma_first_missing(
    tasks: Seq<Task>,
    ws: Seq<char>,
    src: Seq<char>,
    args: Seq<NamedArg>,
)
    ensures
        match first_missing(tasks, ws, src, args) {
            Some(k) => 0 <= k < tasks.len() && expand_from(tasks[k].command@, 0, ws, src, args)
                .missing && forall|y: int|
                0 <= y < k ==> !expand_from(#[trigger] tasks[y].command@, 0, ws, src, args)
                    .missing,
            None => forall|y: int|
                0 <= y < tasks.len() ==> !expand_from(
                    #[trigger] tasks[y].command@,
                    0,
                    ws,
                    src,
                    args,
                ).missing,
        },
    decreases tasks.len(),
{
    if tasks.len() == 0 {
    } else {
        lemma_first_missing(tasks.drop_first(), ws, src, args);
        assert forall|y: int| 1 <= y < tasks.len() implies tasks.drop_first()[y - 1]
            == tasks[y] by {}
    }
}

impl Context {
    /// Look up a task command under its name, folded to lower case as
    /// `str::to_lowercase` folds it.
    pub fn find_command<'a>(&'a self, command: &String) -> (r: Result<&'a CommandProject, Error>)
        ensures
            match r {
                Ok(cp) => command_lookup(self.project_config.commands@, lower_of(command@))
                    == Some(*cp),
                Err(e) => command_lookup(self.project_config.commands@, lower_of(command@))
                    is None && e == (Error::CommandNotFound),
            },
    {
        let lowered = lowercase(command.as_str());
        self.find_command_lowered(&lowered)
    }

    /// Look up a task command under its exact name.
    pub fn find_command_lowered<'a>(&'a self, name: &String) -> (r: Result<
        &'a CommandProject,
        Error,
    >)
        ensures
            match r {
                Ok(cp) => command_lookup(self.project_config.commands@, name@) == Some(*cp),
                Err(e) => command_lookup(self.project_config.commands@, name@) is None && e == (
                Error::CommandNotFound),
            },
    {
        let cs = &self.project_config.commands;
        let mut k: usize = 0;
        proof {
            assert(cs@.skip(0) =~= cs@);
        }
        while k < cs.len()
            invariant
                k <= cs@.len(),
                cs@ == self.project_config.commands@,
                command_lookup(cs@, name@) == command_lookup(cs@.skip(k as int), name@),
            decreases cs@.len() - k,
        {
            proof {
                assert(cs@.skip(k as int).len() > 0);
                assert(cs@.skip(k as int)[0] == cs@[k as int]);
            }
            if string_eq(&cs[k].name, name) {
                return Ok(&cs[k].body);
            }
            proof {
                assert(cs@.skip(k as int).drop_first() =~= cs@.skip(k + 1));
            }
            k = k + 1;
        }
        proof {
            assert(cs@.skip(cs@.len() as int).len() == 0);
        }
        Err(Error::CommandNotFound)
    }

    /// Prepare every task of the named command, in declaration order: look
    /// the command up under its lower-cased name and expand each task's
    /// placeholders.  Fails when the command is unknown, or with the first
    /// task whose expansion leaves a placeholder unresolved.
    pub fn exec_plan(&self, command: &String, args: &Vec<NamedArg>) -> (r: Result<
        Vec<PreparedTask>,
        Error,
    >)
        ensures
            ({
                let ws = render_spec(self.details.workspace@);
                let src = render_spec(self.details.src@);
                match command_lookup(self.project_config.commands@, lower_of(command@)) {
                    None => r == Err::<Vec<PreparedTask>, Error>(Error::CommandNotFound),
                    Some(cp) => match first_missing(cp.tasks@, ws, src, args@) {
                        Some(k) => r == Err::<Vec<PreparedTask>, Error>(
                            Error::MissingArgument { command: cp.tasks@[k].command },
                        ),
                        None => (r matches Ok(plan) && plan@.len() == cp.tasks@.len() && forall|
                            x: int,
                        |
                            0 <= x < plan@.len() ==> {
                                &&& (#[trigger] plan@[x]).name == cp.tasks@[x].name
                                &&& plan@[x].command@ == expand_from(
                                    cp.tasks@[x].command@,
                                    0,
                                    ws,
                                    src,
                                    args@,
                                ).text
                                &&& plan@[x].output == cp.tasks@[x].output
                            }),
                    },
                }
            }),
    {
        let ghost ws = render_spec(self.details.workspace@);
        let ghost src = render_spec(self.details.src@);
        let cp = match self.find_command(command) {
            Ok(cp) => cp,
            Err(e) => {
                return Err(e);
            },
        };
        let mut plan: Vec<PreparedTask> = Vec::new();
        let mut x: usize = 0;
        while x < cp.tasks.len()
            invariant
                x <= cp.tasks@.len(),
                ws == render_spec(self.details.workspace@),
                src == render_spec(self.details.src@),
                command_lookup(self.project_config.commands@, lower_of(command@)) == Some(*cp),
                plan@.len() == x,
                forall|y: int|
                    0 <= y < x ==> !expand_from(#[trigger] cp.tasks@[y].command@, 0, ws, src, args@)
                        .missing,
                forall|y: int|
                    0 <= y < x ==> {
                        &&& (#[trigger] plan@[y]).name == cp.tasks@[y].name
                        &&& plan@[y].command@ == expand_from(
                            cp.tasks@[y].command@,
                            0,
                            ws,
                            src,
                            args@,
                        ).text
                        &&& plan@[y].output == cp.tasks@[y].output
                    },
            decreases cp.tasks@.len() - x,
        {
            let task = &cp.tasks[x];
            match replace_command(&task.command, &self.details, args) {
                Ok(expanded) => {
                    plan.push(
                        PreparedTask {
                            name: task.name.clone(),
                            command: expanded,
                            output: task.output,
                        },
                    );
                },
                Err(e) => {
                    proof {
                        lemma_first_missing(cp.tasks@, ws, src, args@);
                        match first_missing(cp.tasks@, ws, src, args@) {
                            Some(k) => {
                                if k < x as int {
                                } else if k > x as int {
                                }
                                assert(k == x as int);
                            },
                            None => {
                                assert(false);
                            },
                        }
                    }
                    return Err(e);
                },
            }
            x = x + 1;
        }
        proof {
            lemma_first_missing(cp.tasks@, ws, src, args@);
            match first_missing(cp.tasks@, ws, src, args@) {
                Some(k) => {
                    assert(false);
                },
                None => {},
            }
        }
        Ok(plan)
    }
}

} // verus!
