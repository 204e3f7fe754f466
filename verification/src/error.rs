use vstd::prelude::*;

verus! {

/// Every way an invocation can fail.  Each variant is terminal for the
/// current invocation and is reported as a single human-readable line.
#[derive(Debug)]
pub enum Error {
    /// In-place creation was asked for, but the target directory has content.
    NotEmpty,
    /// The named creation target already exists.
    AlreadyExists,
    /// A template name is absent from the store, or its asset directory is
    /// missing on disk.
    TemplateNotFound,
    /// No ancestor directory structurally matches any known template.
    ProjectNotFound,
    /// The requested task name is absent from the resolved template.
    CommandNotFound,
    /// A required placeholder could not be resolved; carries the original
    /// command template text for diagnostics.
    MissingArgument { command: String },
    /// The host has no resolvable home directory, so the ancestor boundary
    /// is undefined.
    HomeDirectoryUnavailable,
    /// A directory could not be read.
    ReadFailure,
}

/// The one-line report for each error kind.
pub open spec fn message_spec(e: Error) -> Seq<char> {
    match e {
        Error::NotEmpty => "The directory is not empty"@,
        Error::AlreadyExists => "Project already exists"@,
        Error::TemplateNotFound => "Template not found"@,
        Error::ProjectNotFound => "Project not found"@,
        Error::CommandNotFound => "Command not found"@,
        Error::MissingArgument { command } => "the argument is missing or does not exist\nCommand: "@
            + command@,
        Error::HomeDirectoryUnavailable => "Home directory not found"@,
        Error::ReadFailure => "The directory could not be read"@,
    }
}

impl Error {
    /// The human-readable line reported for this error.
    pub fn message(&self) -> (r: String)
        ensures
            r@ == message_spec(*self),
    {
        match self {
            Error::NotEmpty => String::from_str("The directory is not empty"),
            Error::AlreadyExists => String::from_str("Project already exists"),
            Error::TemplateNotFound => String::from_str("Template not found"),
            Error::ProjectNotFound => String::from_str("Project not found"),
            Error::CommandNotFound => String::from_str("Command not found"),
            Error::MissingArgument { command } => {
                let mut m = String::from_str("the argument is missing or does not exist\nCommand: ");
                m.append(command.as_str());
                m
            },
            Error::HomeDirectoryUnavailable => String::from_str("Home directory not found"),
            Error::ReadFailure => String::from_str("The directory could not be read"),
        }
    }
}

} // verus!
