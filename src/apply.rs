use vstd::prelude::*;

use crate::subst::{apply_template, substitute};
use crate::text::{chars_of, string_from_chars};
use crate::vars::Vars;

verus! {

/// What the result of a post-copy command was.
#[derive(Clone, Debug)]
pub enum CommandOutcome {
    /// The command ran and exited with this status code.
    Exited(i32),
    /// The command ran and ended without a status code (killed by a signal).
    Killed,
    /// The command could not be started, for the reason given.
    SpawnFailed(String),
}

/// Why applying a template failed.
#[derive(Clone, Debug)]
pub enum ApplyError {
    /// No installed template answers to the query.
    TemplateNotFound { query: String },
    /// The destination already holds entries and no override was asked for.
    DestinationNotEmpty,
    /// Creating a directory, or reading, writing or copying a file failed.
    IoFailure { path: String, cause: String },
    /// A post-copy command did not exit with status 0.
    CommandFailure { command: String, outcome: CommandOutcome },
}

/// What to do with one entry of a template's tree.
#[derive(PartialEq, Eq, Structural, Clone, Copy, Debug)]
pub enum EntryAction {
    /// Metadata: never copied.
    Skip,
    /// A directory: created at the same relative place.
    CreateDir,
    /// A file: written at the same relative place, text substituted.
    WriteFile,
}

/// The prefix of the names of metadata files.
pub open spec fn metadata_prefix() -> Seq<char> {
    seq!['.', 'm', 'e', 't', 'a']
}

/// Whether an entry named `name` is template metadata.
pub open spec fn is_metadata(name: Seq<char>) -> bool {
    name.len() >= metadata_prefix().len() && name.subrange(0, metadata_prefix().len() as int)
        == metadata_prefix()
}

/// Whether the file name `name` marks template metadata.
pub fn is_metadata_name(name: &str) -> (r: bool)
    ensures
        r == is_metadata(name@),
{
    let cs = chars_of(name);
    let prefix: Vec<char> = vec!['.', 'm', 'e', 't', 'a'];
    assert(prefix@ == metadata_prefix());
    if cs.len() < prefix.len() {
        return false;
    }
    let mut i: usize = 0;
    while i < prefix.len()
        invariant
            prefix@ == metadata_prefix(),
            cs@ == name@,
            cs@.len() >= prefix@.len(),
            i <= prefix@.len(),
            forall|k: int| 0 <= k < i ==> cs@[k] == prefix@[k],
        decreases prefix@.len() - i,
    {
        if cs[i] != prefix[i] {
            assert(cs@.subrange(0, 5)[i as int] != metadata_prefix()[i as int]);
            return false;
        }
        i = i + 1;
    }
    assert(cs@.subrange(0, 5) =~= metadata_prefix());
    true
}

/// What to do with the entry named `name` of a template's tree.
pub fn plan_entry(name: &str, is_dir: bool) -> (r: EntryAction)
    ensures
        r == (if is_metadata(name@) {
            EntryAction::Skip
        } else if is_dir {
            EntryAction::CreateDir
        } else {
            EntryAction::WriteFile
        }),
{
    if is_metadata_name(name) {
        EntryAction::Skip
    } else if is_dir {
        EntryAction::CreateDir
    } else {
        EntryAction::WriteFile
    }
}

/// Refuses a destination that already holds entries, unless `force` is set.
pub fn check_destination(has_entries: bool, force: bool) -> (r: Result<(), ApplyError>)
    ensures
        r is Ok <==> (!has_entries || force),
        r is Err ==> r->Err_0 is DestinationNotEmpty,
{
    if has_entries && !force {
        Err(ApplyError::DestinationNotEmpty)
    } else {
        Ok(())
    }
}

/// Accepts a post-copy command's outcome only when it exited with status 0.
pub fn check_exit(command: String, outcome: CommandOutcome) -> (r: Result<(), ApplyError>)
    ensures
        r is Ok <==> outcome == CommandOutcome::Exited(0),
        r is Err ==> r->Err_0 == (ApplyError::CommandFailure { command, outcome }),
{
    match outcome {
        CommandOutcome::Exited(code) => {
            if code == 0 {
                Ok(())
            } else {
                Err(ApplyError::CommandFailure { command, outcome: CommandOutcome::Exited(code) })
            }
        },
        _ => Err(ApplyError::CommandFailure { command, outcome }),
    }
}

/// The pieces of `s` between single spaces: `n` spaces make `n + 1` pieces,
/// empty ones included.
pub open spec fn split_spaces(s: Seq<char>) -> Seq<Seq<char>>
    decreases s.len(),
{
    if s.len() == 0 {
        seq![Seq::empty()]
    } else {
        let r = split_spaces(s.drop_last());
        if s.last() == ' ' {
            r.push(Seq::empty())
        } else {
            r.update(r.len() - 1, r.last().push(s.last()))
        }
    }
}

/// The views of a sequence of strings.
pub open spec fn views(v: Seq<String>) -> Seq<Seq<char>> {
    v.map_values(|s: String| s@)
}

/// Splits `cmd` at each single space: the first piece names the program, the
/// others are its arguments.
pub fn split_command(cmd: &str) -> (r: Vec<String>)
    ensures
        views(r@) == split_spaces(cmd@),
        r@.len() >= 1,
{
    let t = chars_of(cmd);
    let mut pieces: Vec<String> = Vec::new();
    let mut cur: Vec<char> = Vec::new();
    let mut i: usize = 0;
    assert(t@.subrange(0, 0) =~= Seq::<char>::empty());
    assert(views(pieces@).push(cur@) =~= split_spaces(Seq::<char>::empty()));
    while i < t.len()
        invariant
            i <= t@.len(),
            views(pieces@).push(cur@) == split_spaces(t@.subrange(0, i as int)),
        decreases t@.len() - i,
    {
        let c = t[i];
        let ghost pre = t@.subrange(0, i as int);
        assert(t@.subrange(0, i + 1).drop_last() =~= pre);
        if c == ' ' {
            let piece = string_from_chars(&cur);
            pieces.push(piece);
            cur = Vec::new();
            assert(views(pieces@).push(cur@) =~= split_spaces(pre).push(Seq::empty()));
        } else {
            let ghost r = split_spaces(pre);
            cur.push(c);
            assert(views(pieces@).push(cur@) =~= r.update(r.len() - 1, r.last().push(c)));
        }
        i = i + 1;
    }
    assert(t@.subrange(0, t@.len() as int) =~= t@);
    let last = string_from_chars(&cur);
    pieces.push(last);
    assert(views(pieces@) =~= split_spaces(cmd@));
    pieces
}

/// The program and arguments of a post-copy command: the command with its
/// variables substituted, split at each single space.
pub fn command_argv(command: &str, vars: &Vars) -> (r: Vec<String>)
    ensures
        views(r@) == split_spaces(substitute(command@, vars@)),
        r@.len() >= 1,
{
    let text = apply_template(command, vars);
    split_command(text.as_str())
}

} // verus!
