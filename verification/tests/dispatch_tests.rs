use lalafell::commands::{
    check_public_channel, render_plan, ChannelResolution, CommandFailure, CommandResult,
    CommandSuccess, ErrorChain, ExternalCommandFailure, InternalCommandFailure, CHECK_MARK,
    CROSS_MARK, FAILURE_COLOR, SUCCESS_COLOR,
};
use lalafell::listener::{CommandListener, RouteDecision};

fn listener_with_ping() -> CommandListener<u32> {
    let mut l: CommandListener<u32> = CommandListener::new("!");
    l.add_command(&vec!["ping".to_string(), "p".to_string()], 7);
    l
}

fn decision_parts(d: RouteDecision) -> Option<(usize, String, Vec<String>)> {
    match d {
        RouteDecision::Ignored => None,
        RouteDecision::Execute {
            target,
            name,
            params,
        } => Some((target, name, params)),
    }
}

#[test]
fn aliases_resolve_to_same_handler_case_insensitively() {
    let l = listener_with_ping();
    let a = l.lookup("PING").expect("PING resolves");
    let b = l.lookup("p").expect("p resolves");
    assert_eq!(a, b);
    assert_eq!(*l.handler(a).unwrap(), 7);
}

#[test]
fn unknown_name_resolves_to_none() {
    let l = listener_with_ping();
    assert!(l.lookup("pong").is_none());
}

#[test]
fn first_registration_of_a_name_wins() {
    let mut l: CommandListener<u32> = CommandListener::new("!");
    l.add_command(&vec!["ping".to_string()], 1);
    l.add_command(&vec!["ping".to_string(), "pong".to_string()], 2);
    let ping = l.lookup("ping").unwrap();
    let pong = l.lookup("pong").unwrap();
    assert_eq!(*l.handler(ping).unwrap(), 1);
    assert_eq!(*l.handler(pong).unwrap(), 2);
}

#[test]
fn plain_chatter_is_ignored() {
    let l = listener_with_ping();
    match l.route("hello there") {
        RouteDecision::Ignored => {}
        RouteDecision::Execute { .. } => panic!("chatter must not dispatch"),
    }
}

#[test]
fn empty_content_is_ignored() {
    let l = listener_with_ping();
    assert!(decision_parts(l.route("")).is_none());
}

#[test]
fn unknown_command_is_ignored() {
    let l = listener_with_ping();
    assert!(decision_parts(l.route("!pong now")).is_none());
}

#[test]
fn known_command_routes_with_params() {
    let l = listener_with_ping();
    let (target, name, params) = decision_parts(l.route("!ping a \"b c\"")).unwrap();
    assert_eq!(*l.handler(target).unwrap(), 7);
    assert_eq!(name, "ping");
    assert_eq!(params, vec!["a".to_string(), "b c".to_string()]);
}

#[test]
fn command_name_is_case_insensitive() {
    let l = listener_with_ping();
    let (target, name, _) = decision_parts(l.route("!PING")).unwrap();
    assert_eq!(*l.handler(target).unwrap(), 7);
    assert_eq!(name, "ping");
}

#[test]
fn routing_twice_gives_identical_decisions() {
    let l = listener_with_ping();
    let a = decision_parts(l.route("!ping x y"));
    let b = decision_parts(l.route("!ping x y"));
    assert_eq!(a, b);
    let c = decision_parts(l.route("hello there"));
    let d = decision_parts(l.route("hello there"));
    assert!(c.is_none() && d.is_none());
}

#[test]
fn silent_success_is_one_checkmark_reaction() {
    let outcome: CommandResult = Ok(CommandSuccess::default());
    let plan = render_plan(outcome, "ping".to_string(), 555, vec![]);
    assert!(plan.reply.is_none());
    assert_eq!(plan.reaction, Some(CHECK_MARK));
    assert!(plan.log.is_none());
}

#[test]
fn success_message_is_one_tinted_reply() {
    let outcome: CommandResult = Ok(CommandSuccess::default().message("done".to_string()));
    let plan = render_plan(outcome, "ping".to_string(), 555, vec![]);
    let reply = plan.reply.expect("one reply");
    assert_eq!(reply.color, Some(SUCCESS_COLOR));
    assert_eq!(reply.description, "done");
    assert!(plan.reaction.is_none());
    assert!(plan.log.is_none());
}

#[test]
fn silent_external_failure_is_cross_mark() {
    let outcome: CommandResult = Err(ExternalCommandFailure::default().wrap());
    let plan = render_plan(outcome, "ping".to_string(), 555, vec![]);
    assert!(plan.reply.is_none());
    assert_eq!(plan.reaction, Some(CROSS_MARK));
    assert!(plan.log.is_none());
}

#[test]
fn external_failure_message_is_failure_tinted_reply() {
    let outcome: CommandResult = Err(ExternalCommandFailure::default()
        .message("bad input".to_string())
        .wrap());
    let plan = render_plan(outcome, "ping".to_string(), 555, vec![]);
    let reply = plan.reply.expect("one reply");
    assert_eq!(reply.color, Some(FAILURE_COLOR));
    assert_eq!(reply.description, "bad input");
    assert!(plan.reaction.is_none());
}

#[test]
fn internal_failure_is_generic_reply_plus_log() {
    let error = ErrorChain::new("database gone".to_string());
    let outcome: CommandResult =
        Err(CommandFailure::Internal(InternalCommandFailure { error }));
    let plan = render_plan(
        outcome,
        "ban".to_string(),
        999,
        vec!["spammer".to_string()],
    );
    let reply = plan.reply.expect("one reply");
    assert_eq!(
        reply.description,
        "An internal error happened while processing this command."
    );
    assert!(reply.color.is_none());
    assert!(plan.reaction.is_none());
    let log = plan.log.expect("a diagnostic record");
    assert_eq!(log.command_name, "ban");
    assert_eq!(log.message_id, 999);
    assert_eq!(log.params, vec!["spammer".to_string()]);
    assert_eq!(log.chain, vec!["database gone".to_string()]);
}

#[test]
fn render_constants_are_the_documented_values() {
    assert_eq!(SUCCESS_COLOR, 0x196358);
    assert_eq!(FAILURE_COLOR, 0x63191b);
    assert_eq!(CHECK_MARK, '\u{2705}');
    assert_eq!(CROSS_MARK, '\u{274c}');
}

#[test]
fn multi_character_prefix_is_stripped_whole() {
    let mut l: CommandListener<u32> = CommandListener::new("::");
    l.add_command(&vec!["ping".to_string()], 3);
    let (target, name, _) = decision_parts(l.route("::PING now")).unwrap();
    assert_eq!(*l.handler(target).unwrap(), 3);
    assert_eq!(name, "ping");
    assert!(decision_parts(l.route(":ping now")).is_none());
}

#[test]
fn guild_channel_passes_check() {
    let r = check_public_channel(ChannelResolution::Guild {
        guild_id: 10,
        channel_id: 20,
    });
    assert_eq!(r.ok(), Some((10, 20)));
}

#[test]
fn private_channel_is_external_failure() {
    let r = check_public_channel(ChannelResolution::NotPublic);
    match r.unwrap_err() {
        CommandFailure::External(f) => {
            assert_eq!(
                f.message.unwrap(),
                "This command must be run in a public channel."
            );
        }
        CommandFailure::Internal(_) => panic!("wrong channel type is user error"),
    }
}

#[test]
fn resolution_error_is_internal_with_context() {
    let error = ErrorChain::new("http timeout".to_string());
    let r = check_public_channel(ChannelResolution::Failed { error });
    match r.unwrap_err() {
        CommandFailure::Internal(f) => {
            assert_eq!(
                f.error.links,
                vec![
                    "could not get channel for message".to_string(),
                    "http timeout".to_string()
                ]
            );
        }
        CommandFailure::External(_) => panic!("resolution failure is internal"),
    }
}

#[test]
fn error_chain_prepends_context() {
    let chain = ErrorChain::new("inner".to_string())
        .chain_context("middle".to_string())
        .chain_context("outer".to_string());
    assert_eq!(
        chain.links,
        vec![
            "outer".to_string(),
            "middle".to_string(),
            "inner".to_string()
        ]
    );
}

#[test]
fn success_from_string_carries_message() {
    let s = CommandSuccess::from("hi".to_string());
    assert_eq!(s.message, Some("hi".to_string()));
}

#[test]
fn failure_from_string_is_external() {
    let f = CommandFailure::from("try again".to_string());
    match f {
        CommandFailure::External(x) => assert_eq!(x.message.unwrap(), "try again"),
        CommandFailure::Internal(_) => panic!("a plain message is external"),
    }
}

#[test]
fn failure_from_chain_is_internal() {
    let f = CommandFailure::from(ErrorChain::new("boom".to_string()));
    match f {
        CommandFailure::Internal(x) => assert_eq!(x.error.links, vec!["boom".to_string()]),
        CommandFailure::External(_) => panic!("an error chain is internal"),
    }
}
