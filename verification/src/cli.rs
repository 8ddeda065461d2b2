//! The arguments of the command-line tools and of the matching MCP tools.
use vstd::prelude::*;
use crate::strings::{contains_seq, contains_str};
use crate::text::{lowercase, to_lowercase};

verus! {

/// The command line: an optional command and output switches.
#[derive(Debug, Clone)]
pub struct Cli {
    pub command: Option<Commands>,
    pub verbose: bool,
    pub quiet: bool,
}

/// The commands.
#[derive(Debug, Clone)]
pub enum Commands {
    Profile(ProfileArgs),
    Search(SearchArgs),
    Login(LoginCommand),
    Feed(FeedArgs),
    Thread(ThreadArgs),
    Post(PostArgs),
    React(ReactArgs),
}

/// Arguments of `profile`: the account to show.
#[derive(Debug, Clone)]
pub struct ProfileArgs {
    pub account: String,
}

/// Arguments of `search`: whose posts, the search terms, and a limit.
#[derive(Debug, Clone)]
pub struct SearchArgs {
    pub from: String,
    pub query: String,
    pub limit: Option<usize>,
}

/// Arguments of `post`: the account, the text, and the post replied to.
#[derive(Debug, Clone)]
pub struct PostArgs {
    pub postAs: String,
    pub text: String,
    pub replyTo: Option<String>,
}

/// Arguments of `feed`.
#[derive(Debug, Clone)]
pub struct FeedArgs {
    pub feed: Option<String>,
    pub viewAs: Option<String>,
    pub continueAtCursor: Option<String>,
    pub limit: Option<usize>,
}

/// Arguments of `thread`.
#[derive(Debug, Clone)]
pub struct ThreadArgs {
    pub postURI: String,
    pub viewAs: Option<String>,
}

/// Arguments of `react`: the account and the posts to like, unlike, repost
/// or delete.
#[derive(Debug, Clone)]
pub struct ReactArgs {
    pub reactAs: String,
    pub like: Vec<String>,
    pub unlike: Vec<String>,
    pub repost: Vec<String>,
    pub delete: Vec<String>,
}

/// Arguments of `login`: a subcommand, or the handle, app password and
/// service to log in with.
#[derive(Debug, Clone)]
pub struct LoginCommand {
    pub command: Option<LoginSubcommands>,
    pub handle: Option<String>,
    pub password: Option<String>,
    pub service: Option<String>,
}

/// The subcommands of `login`.
#[derive(Debug, Clone)]
pub enum LoginSubcommands {
    List,
    Default { handle: String },
    Delete { handle: Option<String> },
}

/// The exit status for a failure, read from its lowercased message: 1 for
/// invalid input or usage, 2 for network or connection trouble, 3 for
/// something not found, 4 for a timeout, 5 for anything else; the first of
/// these that applies wins.
pub open spec fn spec_exit_code(message: Seq<char>) -> i32 {
    let m = lowercase(message);
    if contains_seq(m, "invalid"@) || contains_seq(m, "usage"@) {
        1
    } else if contains_seq(m, "network"@) || contains_seq(m, "connection"@) {
        2
    } else if contains_seq(m, "not found"@) {
        3
    } else if contains_seq(m, "timeout"@) {
        4
    } else {
        5
    }
}

/// The exit status of the command-line tool for a failure with `message`.
pub fn get_exit_code(message: &str) -> (r: i32)
    ensures
        r == spec_exit_code(message@),
{
    let m = to_lowercase(message);
    if contains_str(m.as_str(), "invalid") || contains_str(m.as_str(), "usage") {
        1
    } else if contains_str(m.as_str(), "network") || contains_str(m.as_str(), "connection") {
        2
    } else if contains_str(m.as_str(), "not found") {
        3
    } else if contains_str(m.as_str(), "timeout") {
        4
    } else {
        5
    }
}

} // verus!
