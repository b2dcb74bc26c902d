//! Project scaffolding from file-tree templates: `$variable` substitution,
//! a registry of installed templates, and the decisions of applying one.

mod text;
pub mod vars;
pub mod subst;
pub mod template;
pub mod apply;
pub mod cli;

pub use vars::Vars;
pub use subst::apply_template;
pub use template::{Registry, Template};

pub use apply::{
    check_destination, check_exit, command_argv, is_metadata_name, plan_entry, split_command,
    ApplyError, CommandOutcome, EntryAction,
};
pub use cli::{Action, Args, Command, UsageError};
