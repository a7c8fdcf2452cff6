//! The tiered command outcome protocol and its rendering policy.
//!
//! A command handler returns a `CommandResult`: success (with an optional
//! reply message), an external failure (a user-correctable problem, safe to
//! show), or an internal failure (a structured error chain, never shown in
//! detail). `render_plan` translates an outcome into the one render action
//! the dispatcher performs: a rich reply, a reaction glyph, or a generic
//! internal-error notice together with diagnostic log data.

use vstd::prelude::*;
use vstd::string::StringExecFns;

verus! {

/// A chain of error messages, outermost context first.
#[derive(Debug)]
pub struct ErrorChain {
    pub links: Vec<String>,
}

impl ErrorChain {
    /// A chain of one message.
    pub fn new(message: String) -> (r: ErrorChain)
        ensures
            r.links.deep_view() == seq![message@],
    {
        let mut links: Vec<String> = Vec::new();
        links.push(message);
        proof {
            assert(links.deep_view() =~= seq![message@]);
        }
        ErrorChain { links }
    }

    /// Prepends a context message, so the chain reads outermost first.
    pub fn chain_context(self, context: String) -> (r: ErrorChain)
        ensures
            r.links.deep_view() == seq![context@] + self.links.deep_view(),
    {
        let ghost pre = self.links.deep_view();
        let mut links = self.links;
        links.insert(0, context);
        proof {
            assert(links.deep_view() =~~= seq![context@] + pre);
        }
        ErrorChain { links }
    }
}

/// A successful outcome, optionally carrying a reply message.
pub struct CommandSuccess {
    pub message: Option<String>,
}

impl Default for CommandSuccess {
    /// A silent success: no reply message.
    fn default() -> (r: Self)
        ensures
            r.message is None,
    {
        CommandSuccess { message: None }
    }
}

impl CommandSuccess {
    /// Attaches a reply message to the success.
    pub fn message(self, message: String) -> (r: Self)
        ensures
            r.message == Some(message),
    {
        CommandSuccess { message: Some(message) }
    }
}

impl From<String> for CommandSuccess {
    fn from(message: String) -> (r: Self) {
        CommandSuccess { message: Some(message) }
    }
}

impl vstd::std_specs::convert::FromSpecImpl<String> for CommandSuccess {
    open spec fn obeys_from_spec() -> bool {
        true
    }

    open spec fn from_spec(message: String) -> Self {
        CommandSuccess { message: Some(message) }
    }
}

/// A user-correctable failure, optionally carrying a reply message
/// describing the problem; rendered to the user, never logged as an error.
pub struct ExternalCommandFailure {
    pub message: Option<String>,
}

impl Default for ExternalCommandFailure {
    /// A silent rejection: no reply message.
    fn default() -> (r: Self)
        ensures
            r.message is None,
    {
        ExternalCommandFailure { message: None }
    }
}

impl ExternalCommandFailure {
    /// Attaches a reply message describing the problem.
    pub fn message(self, message: String) -> (r: Self)
        ensures
            r.message == Some(message),
    {
        ExternalCommandFailure { message: Some(message) }
    }

    /// Wraps this failure as a `CommandFailure`.
    pub fn wrap(self) -> (r: CommandFailure)
        ensures
            r == CommandFailure::External(self),
    {
        CommandFailure::External(self)
    }
}

/// An unexpected failure: a bug or an environment problem, carrying a
/// structured error chain that is logged but never shown to the user.
#[derive(Debug)]
pub struct InternalCommandFailure {
    pub error: ErrorChain,
}

/// A failed outcome, classified as internal (a bug, logged) or external
/// (user error, shown).
pub enum CommandFailure {
    Internal(InternalCommandFailure),
    External(ExternalCommandFailure),
}

impl From<String> for CommandFailure {
    fn from(message: String) -> (r: Self) {
        CommandFailure::External(ExternalCommandFailure { message: Some(message) })
    }
}

impl vstd::std_specs::convert::FromSpecImpl<String> for CommandFailure {
    open spec fn obeys_from_spec() -> bool {
        true
    }

    open spec fn from_spec(message: String) -> Self {
        CommandFailure::External(ExternalCommandFailure { message: Some(message) })
    }
}

impl From<ErrorChain> for CommandFailure {
    fn from(error: ErrorChain) -> (r: Self) {
        CommandFailure::Internal(InternalCommandFailure { error })
    }
}

impl vstd::std_specs::convert::FromSpecImpl<ErrorChain> for CommandFailure {
    open spec fn obeys_from_spec() -> bool {
        true
    }

    open spec fn from_spec(error: ErrorChain) -> Self {
        CommandFailure::Internal(InternalCommandFailure { error })
    }
}

/// What a command handler returns.
pub type CommandResult = Result<CommandSuccess, CommandFailure>;

/// What resolving a message's originating channel found: a public guild
/// channel, some other kind of channel, or a resolution error.
pub enum ChannelResolution {
    Guild { guild_id: u64, channel_id: u64 },
    NotPublic,
    Failed { error: ErrorChain },
}

/// The precondition check for commands that must run in a public channel:
/// a resolved guild channel passes its identifiers through; any other
/// channel is a user-correctable failure; a resolution error is an internal
/// failure with context.
pub fn check_public_channel(resolution: ChannelResolution) -> (r: Result<
    (u64, u64),
    CommandFailure,
>)
    ensures
        resolution matches ChannelResolution::Guild { guild_id, channel_id } ==> r == Ok::<
            (u64, u64),
            CommandFailure,
        >((guild_id, channel_id)),
        resolution is NotPublic ==> (r matches Err(CommandFailure::External(f)) && f.message
            matches Some(m) && m@ == "This command must be run in a public channel."@),
        resolution matches ChannelResolution::Failed { error } ==> (r matches Err(
            CommandFailure::Internal(f),
        ) && f.error.links.deep_view() == seq!["could not get channel for message"@]
            + error.links.deep_view()),
{
    match resolution {
        ChannelResolution::Guild { guild_id, channel_id } => Ok((guild_id, channel_id)),
        ChannelResolution::NotPublic => Err(
            CommandFailure::External(
                ExternalCommandFailure {
                    message: Some("This command must be run in a public channel.".to_owned()),
                },
            ),
        ),
        ChannelResolution::Failed { error } => Err(
            CommandFailure::Internal(
                InternalCommandFailure {
                    error: error.chain_context("could not get channel for message".to_owned()),
                },
            ),
        ),
    }
}

/// The color tint of a successful rich reply.
pub const SUCCESS_COLOR: u32 = 0x196358;

/// The color tint of a failure rich reply.
pub const FAILURE_COLOR: u32 = 0x63191b;

/// The reaction glyph that signals silent success.
pub const CHECK_MARK: char = '\u{2705}';

/// The reaction glyph that signals silent rejection.
pub const CROSS_MARK: char = '\u{274c}';

/// One rich reply to send: an optional color tint and a description.
pub struct ReplyPlan {
    pub color: Option<u32>,
    pub description: String,
}

/// The diagnostic record emitted for an internal failure: the command name,
/// the message identifier, the raw parameter tokens, and the full error
/// chain.
pub struct InternalLog {
    pub command_name: String,
    pub message_id: u64,
    pub params: Vec<String>,
    pub chain: Vec<String>,
}

/// The one render action a dispatch ends in: at most one reply or one
/// reaction, and a diagnostic record exactly for internal failures.
pub struct RenderPlan {
    pub reply: Option<ReplyPlan>,
    pub reaction: Option<char>,
    pub log: Option<InternalLog>,
}

/// Translates a command outcome into the render action the dispatcher
/// performs: success with a message is a tinted reply; silent success is a
/// checkmark reaction; an external failure mirrors that with the failure
/// tint and a cross-mark; an internal failure is a generic notice plus a
/// diagnostic record.
pub fn render_plan(outcome: CommandResult, command_name: String, message_id: u64, params: Vec<
    String,
>) -> (r: RenderPlan)
    ensures
        outcome matches Ok(s) ==> {
            &&& s.message matches Some(m) ==> r.reply == Some(
                ReplyPlan { color: Some(SUCCESS_COLOR), description: m },
            ) && r.reaction is None && r.log is None
            &&& s.message is None ==> r.reply is None && r.reaction == Some(CHECK_MARK) && r.log
                is None
        },
        outcome matches Err(CommandFailure::External(f)) ==> {
            &&& f.message matches Some(m) ==> r.reply == Some(
                ReplyPlan { color: Some(FAILURE_COLOR), description: m },
            ) && r.reaction is None && r.log is None
            &&& f.message is None ==> r.reply is None && r.reaction == Some(CROSS_MARK) && r.log
                is None
        },
        outcome matches Err(CommandFailure::Internal(f)) ==> (r.reply matches Some(p) && p.color
            is None && p.description@
            == "An internal error happened while processing this command."@) && r.reaction is None
            && r.log == Some(
            InternalLog { command_name, message_id, params, chain: f.error.links },
        ),
{
    match outcome {
        Ok(success) => match success.message {
            Some(m) => RenderPlan {
                reply: Some(ReplyPlan { color: Some(SUCCESS_COLOR), description: m }),
                reaction: None,
                log: None,
            },
            None => RenderPlan { reply: None, reaction: Some(CHECK_MARK), log: None },
        },
        Err(CommandFailure::External(failure)) => match failure.message {
            Some(m) => RenderPlan {
                reply: Some(ReplyPlan { color: Some(FAILURE_COLOR), description: m }),
                reaction: None,
                log: None,
            },
            None => RenderPlan { reply: None, reaction: Some(CROSS_MARK), log: None },
        },
        Err(CommandFailure::Internal(failure)) => RenderPlan {
            reply: Some(
                ReplyPlan {
                    color: None,
                    description: "An internal error happened while processing this command.".to_owned(),
                },
            ),
            reaction: None,
            log: Some(
                InternalLog { command_name, message_id, params, chain: failure.error.links },
            ),
        },
    }
}

} // verus!
