//! What the words on the command line ask for.
use vstd::prelude::*;
use crate::text::{join, joined, texts};
use crate::todo::{clone_text, text_of};

verus! {

/// The command line, taken apart.
#[derive(Debug)]
pub struct Cli {
    pub command: Option<SubCommand>,
    /// The directory to use in place of `.todo`.
    pub dir: Option<String>,
}

/// The subcommands of the command line.
#[derive(Debug)]
pub enum SubCommand {
    /// Create a record; the words of `text` become its title.
    Add { text: Vec<String>, body: Option<String> },
    /// Open a record in the editor, or give it the body `body`.
    Edit { id: String, body: Option<String> },
    /// Mark a record as done.
    Done { id: String },
    /// Open a record that is done again.
    Reopen { id: String },
    /// Delete a record; `force` stands for the confirmation.
    Delete { id: String, force: bool },
    /// List the records; `all` includes those that are done.
    List { all: bool },
    /// Assign a record, to `name` where there is one.
    Assign { id: String, name: Option<String> },
    /// Take the assignment from a record.
    Unassign { id: String },
}

/// What is to be done.
#[derive(Debug)]
pub enum Command {
    Create { title: String, body: Option<String> },
    Edit { id: String, body: Option<String> },
    Done(String),
    Reopen(String),
    Delete { id: String, force: bool },
    List { all: bool },
    Assign { id: String, name: Option<String> },
    Unassign(String),
    /// Run the interactive session.
    Tui,
    /// Print the open records, without colour.
    PlainList,
}

/// What a `Command` holds, with texts as sequences of characters.
pub enum CommandView {
    Create { title: Seq<char>, body: Option<Seq<char>> },
    Edit { id: Seq<char>, body: Option<Seq<char>> },
    Done(Seq<char>),
    Reopen(Seq<char>),
    Delete { id: Seq<char>, force: bool },
    List { all: bool },
    Assign { id: Seq<char>, name: Option<Seq<char>> },
    Unassign(Seq<char>),
    Tui,
    PlainList,
}

impl View for Command {
    type V = CommandView;

    open spec fn view(&self) -> CommandView {
        match *self {
            Command::Create { title, body } => CommandView::Create {
                title: title@,
                body: text_of(body),
            },
            Command::Edit { id, body } => CommandView::Edit { id: id@, body: text_of(body) },
            Command::Done(id) => CommandView::Done(id@),
            Command::Reopen(id) => CommandView::Reopen(id@),
            Command::Delete { id, force } => CommandView::Delete { id: id@, force },
            Command::List { all } => CommandView::List { all },
            Command::Assign { id, name } => CommandView::Assign { id: id@, name: text_of(name) },
            Command::Unassign(id) => CommandView::Unassign(id@),
            Command::Tui => CommandView::Tui,
            Command::PlainList => CommandView::PlainList,
        }
    }
}

/// The command that a command line stands for. Each subcommand gives the
/// command of its kind, with the words of a new title joined by single
/// spaces. No subcommand at all asks for the interactive session where the
/// output goes to a terminal, and for the plain list where it does not.
pub open spec fn resolve_spec(cli: Cli, is_tty: bool) -> CommandView {
    match cli.command {
        Some(SubCommand::Add { text, body }) => CommandView::Create {
            title: joined(texts(text@), seq![' ']),
            body: text_of(body),
        },
        Some(SubCommand::Edit { id, body }) => CommandView::Edit { id: id@, body: text_of(body) },
        Some(SubCommand::Done { id }) => CommandView::Done(id@),
        Some(SubCommand::Reopen { id }) => CommandView::Reopen(id@),
        Some(SubCommand::Delete { id, force }) => CommandView::Delete { id: id@, force },
        Some(SubCommand::List { all }) => CommandView::List { all },
        Some(SubCommand::Assign { id, name }) => CommandView::Assign {
            id: id@,
            name: text_of(name),
        },
        Some(SubCommand::Unassign { id }) => CommandView::Unassign(id@),
        None => if is_tty {
            CommandView::Tui
        } else {
            CommandView::PlainList
        },
    }
}

/// The command that the command line `cli` stands for; `is_tty` says
/// whether the output goes to a terminal.
pub fn resolve_command(cli: &Cli, is_tty: bool) -> (command: Command)
    ensures
        command@ == resolve_spec(*cli, is_tty),
{
    match &cli.command {
        Some(SubCommand::Add { text, body }) => {
            proof {
                reveal_strlit(" ");
                assert(" "@ =~= seq![' ']);
            }
            Command::Create { title: join(text, " "), body: clone_text(body) }
        },
        Some(SubCommand::Edit { id, body }) => Command::Edit {
            id: id.clone(),
            body: clone_text(body),
        },
        Some(SubCommand::Done { id }) => Command::Done(id.clone()),
        Some(SubCommand::Reopen { id }) => Command::Reopen(id.clone()),
        Some(SubCommand::Delete { id, force }) => Command::Delete { id: id.clone(), force: *force },
        Some(SubCommand::List { all }) => Command::List { all: *all },
        Some(SubCommand::Assign { id, name }) => Command::Assign {
            id: id.clone(),
            name: clone_text(name),
        },
        Some(SubCommand::Unassign { id }) => Command::Unassign(id.clone()),
        None => if is_tty {
            Command::Tui
        } else {
            Command::PlainList
        },
    }
}

} // verus!
