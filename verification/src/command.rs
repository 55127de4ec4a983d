//! Reading the command line.

use vstd::prelude::*;
use crate::text::same_text;
use crate::utils::{is_version_number, well_formed_tag};

verus! {

/// What the command line asks for.
#[derive(Clone, Debug, PartialEq, Eq)]
pub enum Command {
    /// Nothing stands after the program's name.
    Missing,
    /// `current`: show the selected version.
    Current,
    /// `list`: show the releases.
    List,
    /// `install`: install a version.
    Install,
    /// `remove`: remove a version.
    Remove,
    /// `switch`: select a version.
    Switch,
    /// `--help` or `-h`.
    Help,
    /// `--version` or `-v`.
    Version,
    /// A version tag alone: install it, or select it where it is
    /// installed. `extra` tells that more words follow, which are not
    /// read.
    Tag { version: String, extra: bool },
    /// Anything else. `message` says so and repeats the words.
    Unsupported { message: String },
}

/// A `Command` over characters.
pub enum CommandView {
    Missing,
    Current,
    List,
    Install,
    Remove,
    Switch,
    Help,
    Version,
    Tag { version: Seq<char>, extra: bool },
    Unsupported { message: Seq<char> },
}

impl DeepView for Command {
    type V = CommandView;

    open spec fn deep_view(&self) -> CommandView {
        match self {
            Command::Missing => CommandView::Missing,
            Command::Current => CommandView::Current,
            Command::List => CommandView::List,
            Command::Install => CommandView::Install,
            Command::Remove => CommandView::Remove,
            Command::Switch => CommandView::Switch,
            Command::Help => CommandView::Help,
            Command::Version => CommandView::Version,
            Command::Tag { version, extra } => CommandView::Tag { version: version@, extra: *extra },
            Command::Unsupported { message } => CommandView::Unsupported { message: message@ },
        }
    }
}

/// How the answer to an unknown first word begins.
pub const UNSUPPORTED_ARG_STR: &'static str =
    "The first argument does not match whith any option we support.\nPlease use 'cvm --help' to view all possible options.\nGiven options: ";

/// Each of `words` with a space after it, one after the other.
pub open spec fn spaced(words: Seq<Seq<char>>) -> Seq<char>
    decreases words.len(),
{
    if words.len() == 0 {
        Seq::empty()
    } else {
        spaced(words.drop_last()) + words.last().push(' ')
    }
}

/// What the command line `args` asks for; `args[0]` is the program's
/// name and decides nothing.
pub open spec fn command_of(args: Seq<Seq<char>>) -> CommandView {
    if args.len() < 2 {
        CommandView::Missing
    } else if args[1] == "current"@ {
        CommandView::Current
    } else if args[1] == "list"@ {
        CommandView::List
    } else if args[1] == "install"@ {
        CommandView::Install
    } else if args[1] == "remove"@ {
        CommandView::Remove
    } else if args[1] == "switch"@ {
        CommandView::Switch
    } else if args[1] == "--help"@ || args[1] == "-h"@ {
        CommandView::Help
    } else if args[1] == "--version"@ || args[1] == "-v"@ {
        CommandView::Version
    } else if well_formed_tag(args[1]) {
        CommandView::Tag { version: args[1], extra: args.len() != 2 }
    } else {
        CommandView::Unsupported { message: UNSUPPORTED_ARG_STR@ + spaced(args) }
    }
}

fn unsupported(args: &Vec<String>) -> (message: String)
    ensures
        message@ == UNSUPPORTED_ARG_STR@ + spaced(args.deep_view()),
{
    let mut message = UNSUPPORTED_ARG_STR.to_string();
    let ghost all = args.deep_view();
    let mut i: usize = 0;
    assert(all.take(0) =~= Seq::<Seq<char>>::empty());
    assert(message@ =~= UNSUPPORTED_ARG_STR@ + spaced(all.take(0)));
    while i < args.len()
        invariant
            i <= args.len(),
            all == args.deep_view(),
            message@ == UNSUPPORTED_ARG_STR@ + spaced(all.take(i as int)),
        decreases args.len() - i,
    {
        proof {
            let next = all.take(i + 1);
            assert(next.drop_last() =~= all.take(i as int));
            assert(next.last() == args@[i as int]@);
            reveal_strlit(" ");
            assert(" "@ =~= seq![' ']);
        }
        message.append(args[i].as_str());
        message.append(" ");
        assert(message@ =~= UNSUPPORTED_ARG_STR@ + spaced(all.take(i + 1)));
        i += 1;
    }
    assert(all.take(args.len() as int) =~= all);
    message
}

/// Reads the command line `args`.
pub fn process_arguments(args: &Vec<String>) -> (command: Command)
    ensures
        command.deep_view() == command_of(args.deep_view()),
{
    if args.len() < 2 {
        return Command::Missing;
    }
    assert(args.deep_view()[1] == args@[1]@);
    let word = args[1].as_str();
    if same_text(word, "current") {
        Command::Current
    } else if same_text(word, "list") {
        Command::List
    } else if same_text(word, "install") {
        Command::Install
    } else if same_text(word, "remove") {
        Command::Remove
    } else if same_text(word, "switch") {
        Command::Switch
    } else if same_text(word, "--help") || same_text(word, "-h") {
        Command::Help
    } else if same_text(word, "--version") || same_text(word, "-v") {
        Command::Version
    } else if is_version_number(word) {
        Command::Tag { version: args[1].clone(), extra: args.len() != 2 }
    } else {
        Command::Unsupported { message: unsupported(args) }
    }
}

} // verus!
