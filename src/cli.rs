use vstd::prelude::*;

verus! {

/// The subcommands besides installing a template.
#[derive(PartialEq, Eq, Structural, Clone, Copy, Debug)]
pub enum Command {
    /// List all installed templates.
    List,
    /// Create a new template.
    Create,
    /// Install the default templates.
    Defaults,
}

/// The command line: a subcommand, or the template to install.
pub struct Args {
    pub command: Option<Command>,
    /// The project name, which is otherwise asked for.
    pub name: Option<String>,
    /// Whether to work in a non-empty directory, or replace an existing template.
    pub force: bool,
    /// The template to install.
    pub template: Option<String>,
}

/// What one invocation does.
pub enum Action {
    /// Install the template that answers to this query.
    Install(String),
    /// Run a subcommand.
    Run(Command),
}

/// Why a command line asks for nothing that can be done.
#[derive(PartialEq, Eq, Structural, Clone, Copy, Debug)]
pub enum UsageError {
    /// Neither a subcommand nor a template was given.
    NothingToDo,
    /// Both a subcommand and a template were given.
    Conflicting,
}

impl UsageError {
    /// The message shown for this error.
    pub fn message(&self) -> (r: &'static str)
        ensures
            *self == UsageError::NothingToDo ==> r@ == "You need to give me something to do"@,
            *self == UsageError::Conflicting ==> r@
                == "Can't install a template and run a command simultaneously"@,
    {
        match self {
            UsageError::NothingToDo => "You need to give me something to do",
            UsageError::Conflicting => "Can't install a template and run a command simultaneously",
        }
    }
}

impl Args {
    /// The action asked for: exactly one of a subcommand and a template must
    /// be given.
    pub fn action(self) -> (r: Result<Action, UsageError>)
        ensures
            match (self.command, self.template) {
                (None, None) => r == Err::<Action, UsageError>(UsageError::NothingToDo),
                (Some(_), Some(_)) => r == Err::<Action, UsageError>(UsageError::Conflicting),
                (None, Some(t)) => r == Ok::<Action, UsageError>(Action::Install(t)),
                (Some(c), None) => r == Ok::<Action, UsageError>(Action::Run(c)),
            },
    {
        match (self.command, self.template) {
            (None, None) => Err(UsageError::NothingToDo),
            (Some(_), Some(_)) => Err(UsageError::Conflicting),
            (None, Some(t)) => Ok(Action::Install(t)),
            (Some(c), None) => Ok(Action::Run(c)),
        }
    }
}

} // verus!
