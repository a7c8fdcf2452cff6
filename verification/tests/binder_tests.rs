use lalafell::commands::CommandFailure;
use lalafell::params::{
    bind_params, params, BindError, BoundParams, BoundValue, FieldSpec, FieldType, MalformedKind,
    ParamSchema,
};

fn required(name: &str, ty: FieldType) -> FieldSpec {
    FieldSpec {
        name: name.to_string(),
        ty,
        default: None,
        help: String::new(),
    }
}

fn optional(name: &str, ty: FieldType, default: &str) -> FieldSpec {
    FieldSpec {
        name: name.to_string(),
        ty,
        default: Some(default.to_string()),
        help: String::new(),
    }
}

fn schema(positional: Vec<FieldSpec>, flags: Vec<FieldSpec>, usage: &str) -> ParamSchema {
    ParamSchema {
        positional,
        flags,
        usage: usage.to_string(),
    }
}

fn text_of(v: &BoundValue) -> &str {
    match v {
        BoundValue::Text(s) => s.as_str(),
        BoundValue::Entity(_) => panic!("expected a text value"),
    }
}

fn id_of(v: &BoundValue) -> u64 {
    match v {
        BoundValue::Text(_) => panic!("expected an entity value"),
        BoundValue::Entity(e) => e.id,
    }
}

#[test]
fn positional_text_binds_verbatim() {
    let s = schema(vec![required("who", FieldType::Text)], vec![], "!greet <who>");
    let b: BoundParams = bind_params(&s, &vec!["world".to_string()]).unwrap();
    assert_eq!(b.positional.len(), 1);
    assert_eq!(text_of(&b.positional[0]), "world");
}

#[test]
fn missing_required_positional_is_not_enough_params() {
    let s = schema(vec![required("who", FieldType::Text)], vec![], "!greet <who>");
    let e = bind_params(&s, &vec![]).unwrap_err();
    assert_eq!(e, BindError::NotEnoughParams);
}

#[test]
fn missing_parameter_reply_contains_usage_string() {
    let s = schema(vec![required("who", FieldType::Text)], vec![], "!greet <who>");
    let f = params(&s, &vec![]).unwrap_err();
    match f {
        CommandFailure::External(x) => {
            let m = x.message.expect("a reply message");
            assert!(m.contains("Not enough parameters."));
            assert!(m.contains("!greet <who>"));
        }
        CommandFailure::Internal(_) => panic!("missing parameter must stay external"),
    }
}

#[test]
fn default_fills_absent_positional() {
    let s = schema(
        vec![
            required("who", FieldType::Text),
            optional("count", FieldType::Text, "1"),
        ],
        vec![],
        "!greet <who> [count]",
    );
    let b = bind_params(&s, &vec!["world".to_string()]).unwrap();
    assert_eq!(text_of(&b.positional[1]), "1");
}

#[test]
fn mention_field_binds_from_mention_syntax() {
    let s = schema(vec![required("target", FieldType::UserRef)], vec![], "!ban <target>");
    let b = bind_params(&s, &vec!["<@123456>".to_string()]).unwrap();
    assert_eq!(id_of(&b.positional[0]), 123456);
}

#[test]
fn mention_field_binds_from_raw_id() {
    let s = schema(vec![required("target", FieldType::UserRef)], vec![], "!ban <target>");
    let b = bind_params(&s, &vec!["123456".to_string()]).unwrap();
    assert_eq!(id_of(&b.positional[0]), 123456);
}

#[test]
fn bad_mention_is_invalid_target_not_internal() {
    let s = schema(vec![required("target", FieldType::UserRef)], vec![], "!ban <target>");
    let e = bind_params(&s, &vec!["abc".to_string()]).unwrap_err();
    assert_eq!(e, BindError::InvalidTarget);
    let f = params(&s, &vec!["abc".to_string()]).unwrap_err();
    match f {
        CommandFailure::External(x) => {
            assert_eq!(x.message.unwrap(), "Invalid target.");
        }
        CommandFailure::Internal(_) => panic!("invalid target must stay external"),
    }
}

#[test]
fn bad_channel_and_role_are_type_specific() {
    let sc = schema(vec![required("chan", FieldType::ChannelRef)], vec![], "u");
    assert_eq!(
        bind_params(&sc, &vec!["x".to_string()]).unwrap_err(),
        BindError::InvalidChannel
    );
    let sr = schema(vec![required("role", FieldType::RoleRef)], vec![], "u");
    assert_eq!(
        bind_params(&sr, &vec!["x".to_string()]).unwrap_err(),
        BindError::InvalidRole
    );
}

#[test]
fn flag_binds_following_token() {
    let s = schema(
        vec![required("who", FieldType::Text)],
        vec![optional("reason", FieldType::Text, "none given")],
        "u",
    );
    let b = bind_params(
        &s,
        &vec![
            "--reason".to_string(),
            "spam".to_string(),
            "world".to_string(),
        ],
    )
    .unwrap();
    assert_eq!(text_of(&b.positional[0]), "world");
    assert_eq!(text_of(&b.flags[0]), "spam");
}

#[test]
fn absent_flag_takes_default() {
    let s = schema(
        vec![],
        vec![optional("reason", FieldType::Text, "none given")],
        "u",
    );
    let b = bind_params(&s, &vec![]).unwrap();
    assert_eq!(text_of(&b.flags[0]), "none given");
}

#[test]
fn unknown_flag_is_malformed() {
    let s = schema(vec![], vec![], "u");
    let e = bind_params(&s, &vec!["--bogus".to_string(), "x".to_string()]).unwrap_err();
    assert_eq!(e, BindError::Malformed(MalformedKind::UnknownFlag));
}

#[test]
fn duplicate_flag_is_malformed() {
    let s = schema(vec![], vec![optional("r", FieldType::Text, "d")], "u");
    let e = bind_params(
        &s,
        &vec![
            "--r".to_string(),
            "a".to_string(),
            "--r".to_string(),
            "b".to_string(),
        ],
    )
    .unwrap_err();
    assert_eq!(e, BindError::Malformed(MalformedKind::DuplicateFlag));
}

#[test]
fn flag_without_value_is_malformed() {
    let s = schema(vec![], vec![optional("r", FieldType::Text, "d")], "u");
    let e = bind_params(&s, &vec!["--r".to_string()]).unwrap_err();
    assert_eq!(e, BindError::Malformed(MalformedKind::FlagMissingValue));
}

#[test]
fn too_many_positionals_is_malformed() {
    let s = schema(vec![required("who", FieldType::Text)], vec![], "u");
    let e = bind_params(&s, &vec!["a".to_string(), "b".to_string()]).unwrap_err();
    assert_eq!(e, BindError::Malformed(MalformedKind::TooManyParams));
}

#[test]
fn malformed_escalates_to_internal_with_context() {
    let s = schema(vec![], vec![], "u");
    let f = params(&s, &vec!["--bogus".to_string(), "x".to_string()]).unwrap_err();
    match f {
        CommandFailure::Internal(x) => {
            assert_eq!(x.error.links.len(), 2);
            assert_eq!(x.error.links[0], "could not parse params");
            assert_eq!(x.error.links[1], "unrecognized flag");
        }
        CommandFailure::External(_) => panic!("schema violations must escalate"),
    }
}
