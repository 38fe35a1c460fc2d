use vstd::prelude::*;

verus! {

/// The command line: the repository to work on and what to do there.
pub struct Cli {
    /// Path to the git repository; the current directory when absent.
    pub path: Option<String>,
    pub command: Option<Commands>,
}

/// What the tool is asked to do.
pub enum Commands {
    /// Start a stack from the current branch.
    New { prefix: Option<String>, name: Option<String> },
    /// Stack a new branch on top of the current stack.
    Add { name: Option<String> },
    /// Drop the checked-out branch from its stack.
    Remove,
    /// List every stack, or the branches of the current one.
    List,
    /// Switch to another stack, or to another branch of the current one.
    Change,
    /// Pull, rebase and publish every branch of the current stack.
    Sync,
    /// Switch to the base branch of the current stack.
    Base,
    /// Switch to the branch above the checkout.
    Up,
    /// Switch to the branch below the checkout.
    Down,
    /// Work with the pull requests of the current stack.
    Pr { cmd: PrCommands },
    /// Forget every stack and delete its branches.
    Reset,
}

/// What to do with the pull requests of the current stack.
#[derive(Debug, Clone, Copy, PartialEq, Eq, Structural)]
pub enum PrCommands {
    /// Open the missing pull requests and describe the chain in each.
    New,
    /// List the open pull requests of the stack.
    List,
    /// Merge the stack's pull requests one by one into its base.
    Merge,
}

} // verus!
