//! The command line as plain values, and what it asks the program to do.
use vstd::prelude::*;

verus! {

/// The parsed command line.
#[derive(Debug, Clone)]
pub struct Cli {
    pub command: Option<Command>,
    /// A script to run directly by name (`zrun "script-name"`).
    pub script: Option<String>,
    /// Extra script search directories, highest priority first.
    pub dirs: Option<Vec<String>>,
    /// Show what would run without executing.
    pub dry_run: bool,
    /// Don't clear the screen before running a script.
    pub no_clear: bool,
}

/// The subcommands.
#[derive(Debug, Clone)]
pub enum Command {
    /// Launch the interactive picker.
    Choose,
    /// Run a script by name.
    Run { name: String },
    /// List the scripts, optionally only those with a tag.
    List { tag: Option<String> },
    /// Print a script's contents.
    Show { name: String },
    /// Open a script in the editor.
    Edit { name: String },
    /// Print a script's full path.
    Which { name: String },
    /// Show the run history, or clear it.
    History { clear: bool },
    /// List all tags.
    Tags,
}

/// What the program does for a command line.
#[derive(Debug, Clone, PartialEq, Eq)]
pub enum Plan {
    List { tag: Option<String> },
    Show { name: String },
    Which { name: String },
    Edit { name: String },
    History { clear: bool },
    Tags,
    /// Run the script of this name.
    Run { name: String },
    /// Open the interactive picker.
    Pick,
}

/// A `Plan` as plain values.
pub enum PlanView {
    List { tag: Option<Seq<char>> },
    Show { name: Seq<char> },
    Which { name: Seq<char> },
    Edit { name: Seq<char> },
    History { clear: bool },
    Tags,
    Run { name: Seq<char> },
    Pick,
}

pub open spec fn plan_view(p: Plan) -> PlanView {
    match p {
        Plan::List { tag } => PlanView::List {
            tag: match tag {
                Some(t) => Some(t@),
                None => None,
            },
        },
        Plan::Show { name } => PlanView::Show { name: name@ },
        Plan::Which { name } => PlanView::Which { name: name@ },
        Plan::Edit { name } => PlanView::Edit { name: name@ },
        Plan::History { clear } => PlanView::History { clear },
        Plan::Tags => PlanView::Tags,
        Plan::Run { name } => PlanView::Run { name: name@ },
        Plan::Pick => PlanView::Pick,
    }
}

/// What the command line asks for: the subcommand if it names one; without
/// one (or with `pick`), the script given by name, or else the picker.
pub open spec fn plan_spec(cli: Cli) -> PlanView {
    match cli.command {
        Some(Command::List { tag }) => PlanView::List {
            tag: match tag {
                Some(t) => Some(t@),
                None => None,
            },
        },
        Some(Command::Show { name }) => PlanView::Show { name: name@ },
        Some(Command::Which { name }) => PlanView::Which { name: name@ },
        Some(Command::Edit { name }) => PlanView::Edit { name: name@ },
        Some(Command::History { clear }) => PlanView::History { clear },
        Some(Command::Tags) => PlanView::Tags,
        Some(Command::Run { name }) => PlanView::Run { name: name@ },
        _ => match cli.script {
            Some(name) => PlanView::Run { name: name@ },
            None => PlanView::Pick,
        },
    }
}

impl Cli {
    /// What the command line asks the program to do (see `plan_spec`).
    pub fn plan(&self) -> (r: Plan)
        ensures
            plan_view(r) == plan_spec(*self),
    {
        match &self.command {
            Some(Command::List { tag }) => Plan::List { tag: tag.clone() },
            Some(Command::Show { name }) => Plan::Show { name: name.clone() },
            Some(Command::Which { name }) => Plan::Which { name: name.clone() },
            Some(Command::Edit { name }) => Plan::Edit { name: name.clone() },
            Some(Command::History { clear }) => Plan::History { clear: *clear },
            Some(Command::Tags) => Plan::Tags,
            Some(Command::Run { name }) => Plan::Run { name: name.clone() },
            _ => match &self.script {
                Some(name) => Plan::Run { name: name.clone() },
                None => Plan::Pick,
            },
        }
    }
}

} // verus!
