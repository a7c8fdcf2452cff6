//! The parameter schema binder: maps the token sequence following a command
//! name onto a declared schema of positional fields and named flags, with
//! structured error classification.
//!
//! Binding walks the tokens once: a token of the form `--name` names a flag
//! whose value is the following token; every other token is positional.
//! Fields then bind in declaration order; a field without a supplied value
//! falls back to its default, and a required field without either is a
//! missing-parameter condition. Helper-reference fields try mention syntax
//! first and fall back to raw numeric parsing; failure is a type-specific
//! invalid-reference condition. Everything else (an unknown or duplicated
//! flag, a flag without a value, too many positional tokens) is a generic
//! parse error, deliberately escalated as an internal failure: it is treated
//! as a bug, not user error.

use vstd::prelude::*;
use vstd::string::StringExecFns;

use crate::commands::{CommandFailure, ErrorChain, ExternalCommandFailure, InternalCommandFailure};
use crate::helpers::{spec_parse_entity, parse_entity, EntityKind, EntityRef};
use crate::text::find_string;

verus! {

/// The semantic type of one schema field.
#[derive(Clone, Copy, PartialEq, Eq, Structural, Debug)]
pub enum FieldType {
    /// Bound verbatim.
    Text,
    /// A user reference: mention syntax or raw identifier.
    UserRef,
    /// A channel reference: mention syntax or raw identifier.
    ChannelRef,
    /// A role reference: mention syntax or raw identifier.
    RoleRef,
}

/// One declared parameter: its name (for a flag, without the leading `--`),
/// its semantic type, its default value, and its help text. A field without
/// a default is required: binding fails when no value is supplied for it.
pub struct FieldSpec {
    pub name: String,
    pub ty: FieldType,
    pub default: Option<String>,
    pub help: String,
}

/// The mathematical view of a field declaration.
pub struct FieldSpecV {
    pub name: Seq<char>,
    pub ty: FieldType,
    pub default: Option<Seq<char>>,
    pub help: Seq<char>,
}

impl View for FieldSpec {
    type V = FieldSpecV;

    open spec fn view(&self) -> FieldSpecV {
        FieldSpecV {
            name: self.name@,
            ty: self.ty,
            default: match self.default {
                Some(d) => Some(d@),
                None => None,
            },
            help: self.help@,
        }
    }
}

impl DeepView for FieldSpec {
    type V = FieldSpecV;

    open spec fn deep_view(&self) -> FieldSpecV {
        self.view()
    }
}

/// A command's declared parameters: ordered positional fields, named flags,
/// and the human-readable usage string shown on a missing parameter.
pub struct ParamSchema {
    pub positional: Vec<FieldSpec>,
    pub flags: Vec<FieldSpec>,
    pub usage: String,
}

/// The mathematical view of a schema.
pub struct ParamSchemaV {
    pub positional: Seq<FieldSpecV>,
    pub flags: Seq<FieldSpecV>,
    pub usage: Seq<char>,
}

impl View for ParamSchema {
    type V = ParamSchemaV;

    open spec fn view(&self) -> ParamSchemaV {
        ParamSchemaV {
            positional: self.positional.deep_view(),
            flags: self.flags.deep_view(),
            usage: self.usage@,
        }
    }
}

/// One bound parameter value.
#[derive(Debug)]
pub enum BoundValue {
    Text(String),
    Entity(EntityRef),
}

/// The mathematical view of a bound value.
pub enum BoundValueV {
    Text(Seq<char>),
    Entity(EntityRef),
}

impl View for BoundValue {
    type V = BoundValueV;

    open spec fn view(&self) -> BoundValueV {
        match self {
            BoundValue::Text(s) => BoundValueV::Text(s@),
            BoundValue::Entity(e) => BoundValueV::Entity(*e),
        }
    }
}

impl DeepView for BoundValue {
    type V = BoundValueV;

    open spec fn deep_view(&self) -> BoundValueV {
        self.view()
    }
}

/// A populated parameter structure: one value per declared field, in
/// declaration order.
#[derive(Debug)]
pub struct BoundParams {
    pub positional: Vec<BoundValue>,
    pub flags: Vec<BoundValue>,
}

/// The mathematical view of a populated parameter structure.
pub struct BoundParamsV {
    pub positional: Seq<BoundValueV>,
    pub flags: Seq<BoundValueV>,
}

impl View for BoundParams {
    type V = BoundParamsV;

    open spec fn view(&self) -> BoundParamsV {
        BoundParamsV { positional: self.positional.deep_view(), flags: self.flags.deep_view() }
    }
}

/// The schema-level violations that no user is expected to cause; each is
/// escalated as an internal failure.
#[derive(Clone, Copy, PartialEq, Eq, Structural, Debug)]
pub enum MalformedKind {
    UnknownFlag,
    FlagMissingValue,
    DuplicateFlag,
    TooManyParams,
}

/// The classified binding conditions.
#[derive(Clone, Copy, PartialEq, Eq, Structural, Debug)]
pub enum BindError {
    /// A required field had neither a supplied value nor a default.
    NotEnoughParams,
    /// A user-reference field parsed as neither mention syntax nor number.
    InvalidTarget,
    /// A channel-reference field parsed as neither mention syntax nor number.
    InvalidChannel,
    /// A role-reference field parsed as neither mention syntax nor number.
    InvalidRole,
    /// Any other schema violation; escalated, not shown to the user.
    Malformed(MalformedKind),
}

/// Whether a token names a flag: it begins with `--`.
pub open spec fn is_flag_token(t: Seq<char>) -> bool {
    t.len() >= 2 && t[0] == '-' && t[1] == '-'
}

/// The declared flag names of a field list, in order.
pub open spec fn flag_names_of(fields: Seq<FieldSpecV>) -> Seq<Seq<char>> {
    fields.map_values(|f: FieldSpecV| f.name)
}

/// Splits a token sequence into positional tokens and a flag-to-value map,
/// walking from token `i` with what was already collected. A `--name` token
/// must name a declared flag, must not repeat, and takes the next token as
/// its value.
pub open spec fn spec_split(
    tokens: Seq<Seq<char>>,
    flag_names: Seq<Seq<char>>,
    i: int,
    pos: Seq<Seq<char>>,
    fl: Map<Seq<char>, Seq<char>>,
) -> Result<(Seq<Seq<char>>, Map<Seq<char>, Seq<char>>), MalformedKind>
    decreases tokens.len() - i,
{
    if i < 0 || i >= tokens.len() {
        Ok((pos, fl))
    } else {
        let t = tokens[i];
        if is_flag_token(t) {
            let name = t.subrange(2, t.len() as int);
            if !flag_names.contains(name) {
                Err(MalformedKind::UnknownFlag)
            } else if fl.contains_key(name) {
                Err(MalformedKind::DuplicateFlag)
            } else if i + 1 >= tokens.len() {
                Err(MalformedKind::FlagMissingValue)
            } else {
                spec_split(tokens, flag_names, i + 2, pos, fl.insert(name, tokens[i + 1]))
            }
        } else {
            spec_split(tokens, flag_names, i + 1, pos.push(t), fl)
        }
    }
}

/// Binds one raw token to a field's semantic type.
pub open spec fn spec_bind_value(ty: FieldType, raw: Seq<char>) -> Result<BoundValueV, BindError> {
    match ty {
        FieldType::Text => Ok(BoundValueV::Text(raw)),
        FieldType::UserRef => match spec_parse_entity(EntityKind::Mention, raw) {
            Some(id) => Ok(BoundValueV::Entity(EntityRef { kind: EntityKind::Mention, id })),
            None => Err(BindError::InvalidTarget),
        },
        FieldType::ChannelRef => match spec_parse_entity(EntityKind::Channel, raw) {
            Some(id) => Ok(BoundValueV::Entity(EntityRef { kind: EntityKind::Channel, id })),
            None => Err(BindError::InvalidChannel),
        },
        FieldType::RoleRef => match spec_parse_entity(EntityKind::Role, raw) {
            Some(id) => Ok(BoundValueV::Entity(EntityRef { kind: EntityKind::Role, id })),
            None => Err(BindError::InvalidRole),
        },
    }
}

/// Binds the positional fields from `i` on, in declaration order: the
/// supplied token at the field's position, else the field's default, else a
/// missing-parameter condition.
pub open spec fn spec_bind_positionals(
    fields: Seq<FieldSpecV>,
    pos: Seq<Seq<char>>,
    i: int,
    acc: Seq<BoundValueV>,
) -> Result<Seq<BoundValueV>, BindError>
    decreases fields.len() - i,
{
    if i < 0 || i >= fields.len() {
        Ok(acc)
    } else {
        let f = fields[i];
        let raw_opt = if i < pos.len() {
            Some(pos[i])
        } else {
            f.default
        };
        match raw_opt {
            None => Err(BindError::NotEnoughParams),
            Some(raw) => match spec_bind_value(f.ty, raw) {
                Err(e) => Err(e),
                Ok(v) => spec_bind_positionals(fields, pos, i + 1, acc.push(v)),
            },
        }
    }
}

/// Binds the flag fields from `i` on, in declaration order: the supplied
/// value under the field's name, else the field's default, else a
/// missing-parameter condition.
pub open spec fn spec_bind_flags(
    fields: Seq<FieldSpecV>,
    fl: Map<Seq<char>, Seq<char>>,
    i: int,
    acc: Seq<BoundValueV>,
) -> Result<Seq<BoundValueV>, BindError>
    decreases fields.len() - i,
{
    if i < 0 || i >= fields.len() {
        Ok(acc)
    } else {
        let f = fields[i];
        let raw_opt = if fl.contains_key(f.name) {
            Some(fl[f.name])
        } else {
            f.default
        };
        match raw_opt {
            None => Err(BindError::NotEnoughParams),
            Some(raw) => match spec_bind_value(f.ty, raw) {
                Err(e) => Err(e),
                Ok(v) => spec_bind_flags(fields, fl, i + 1, acc.push(v)),
            },
        }
    }
}

/// What binding a token sequence against a schema yields: a populated
/// parameter structure, or the first classified condition in binding order
/// (splitting, then positional fields, then flags).
pub open spec fn spec_bind(schema: ParamSchemaV, tokens: Seq<Seq<char>>) -> Result<
    BoundParamsV,
    BindError,
> {
    match spec_split(tokens, flag_names_of(schema.flags), 0, Seq::empty(), Map::empty()) {
        Err(k) => Err(BindError::Malformed(k)),
        Ok((pos, fl)) => {
            if pos.len() > schema.positional.len() {
                Err(BindError::Malformed(MalformedKind::TooManyParams))
            } else {
                match spec_bind_positionals(schema.positional, pos, 0, Seq::empty()) {
                    Err(e) => Err(e),
                    Ok(ps) => match spec_bind_flags(schema.flags, fl, 0, Seq::empty()) {
                        Err(e) => Err(e),
                        Ok(fs) => Ok(BoundParamsV { positional: ps, flags: fs }),
                    },
                }
            }
        },
    }
}

fn is_flag(t: &String) -> (r: bool)
    ensures
        r == is_flag_token(t@),
{
    let s = t.as_str();
    let n = s.unicode_len();
    n >= 2 && s.get_char(0) == '-' && s.get_char(1) == '-'
}

fn flag_name(t: &String) -> (r: String)
    requires
        is_flag_token(t@),
    ensures
        r@ == t@.subrange(2, t@.len() as int),
{
    let s = t.as_str();
    let n = s.unicode_len();
    s.substring_char(2, n).to_owned()
}

fn find_flag_spec(fields: &Vec<FieldSpec>, name: &String) -> (r: Option<usize>)
    ensures
        match r {
            Some(j) => j < fields.deep_view().len() && fields.deep_view()[j as int].name == name@,
            None => !flag_names_of(fields.deep_view()).contains(name@),
        },
{
    let mut j: usize = 0;
    while j < fields.len()
        invariant
            0 <= j <= fields@.len(),
            forall|k: int| 0 <= k < j ==> #[trigger] fields.deep_view()[k].name != name@,
        decreases fields@.len() - j,
    {
        if fields[j].name == *name {
            proof {
                assert(fields.deep_view()[j as int].name == name@);
            }
            return Some(j);
        }
        proof {
            assert(fields.deep_view()[j as int].name != name@);
        }
        j = j + 1;
    }
    proof {
        let fnames = flag_names_of(fields.deep_view());
        assert(!fnames.contains(name@)) by {
            assert(forall|k: int|
                0 <= k < fnames.len() ==> #[trigger] fnames[k] == fields.deep_view()[k].name);
        }
    }
    None
}


/// Binds one raw token to a field's semantic type; failure is the
/// type-specific invalid-reference condition.
pub fn bind_value(ty: FieldType, raw: &String) -> (r: Result<BoundValue, BindError>)
    ensures
        match r {
            Ok(v) => spec_bind_value(ty, raw@) == Ok::<BoundValueV, BindError>(v@),
            Err(e) => spec_bind_value(ty, raw@) == Err::<BoundValueV, BindError>(e),
        },
{
    match ty {
        FieldType::Text => Ok(BoundValue::Text(raw.clone())),
        FieldType::UserRef => match parse_entity(EntityKind::Mention, raw.as_str()) {
            Some(e) => Ok(BoundValue::Entity(e)),
            None => Err(BindError::InvalidTarget),
        },
        FieldType::ChannelRef => match parse_entity(EntityKind::Channel, raw.as_str()) {
            Some(e) => Ok(BoundValue::Entity(e)),
            None => Err(BindError::InvalidChannel),
        },
        FieldType::RoleRef => match parse_entity(EntityKind::Role, raw.as_str()) {
            Some(e) => Ok(BoundValue::Entity(e)),
            None => Err(BindError::InvalidRole),
        },
    }
}

/// Binds the token sequence following a command name against the command's
/// schema, yielding a populated parameter structure or the first classified
/// condition.
pub fn bind_params(schema: &ParamSchema, tokens: &Vec<String>) -> (r: Result<
    BoundParams,
    BindError,
>)
    ensures
        match r {
            Ok(b) => spec_bind(schema@, tokens.deep_view()) == Ok::<BoundParamsV, BindError>(b@),
            Err(e) => spec_bind(schema@, tokens.deep_view()) == Err::<BoundParamsV, BindError>(e),
        },
{
    let ghost tdv = tokens.deep_view();
    let ghost fnames = flag_names_of(schema@.flags);
    let mut pos: Vec<String> = Vec::new();
    let mut seen: Vec<String> = Vec::new();
    let mut vals: Vec<String> = Vec::new();
    let ghost mut fl: Map<Seq<char>, Seq<char>> = Map::empty();
    proof {
        assert(pos.deep_view() =~= Seq::<Seq<char>>::empty());
    }
    let mut i: usize = 0;
    while i < tokens.len()
        invariant
            0 <= i <= tokens@.len(),
            tdv == tokens.deep_view(),
            fnames == flag_names_of(schema@.flags),
            seen@.len() == vals@.len(),
            forall|x: Seq<char>| #[trigger]
                fl.contains_key(x) <==> seen.deep_view().contains(x),
            forall|j: int|
                0 <= j < seen.deep_view().len() ==> fl[#[trigger] seen.deep_view()[j]]
                    == vals.deep_view()[j],
            spec_split(tdv, fnames, 0, Seq::empty(), Map::empty()) == spec_split(
                tdv,
                fnames,
                i as int,
                pos.deep_view(),
                fl,
            ),
        decreases tokens@.len() - i,
    {
        proof {
            assert(tdv[i as int] == tokens@[i as int]@);
        }
        let t = &tokens[i];
        if is_flag(t) {
            let name = flag_name(t);
            match find_flag_spec(&schema.flags, &name) {
                None => {
                    return Err(BindError::Malformed(MalformedKind::UnknownFlag));
                },
                Some(j) => {
                    proof {
                        assert(fnames.contains(name@)) by {
                            assert(fnames[j as int] == schema@.flags[j as int].name);
                        }
                    }
                },
            }
            match find_string(&seen, &name) {
                Some(_) => {
                    return Err(BindError::Malformed(MalformedKind::DuplicateFlag));
                },
                None => {},
            }
            if i + 1 >= tokens.len() {
                return Err(BindError::Malformed(MalformedKind::FlagMissingValue));
            }
            proof {
                assert(tdv[i as int + 1] == tokens@[i as int + 1]@);
            }
            let val = tokens[i + 1].clone();
            let ghost seen_pre = seen.deep_view();
            let ghost vals_pre = vals.deep_view();
            seen.push(name);
            vals.push(val);
            proof {
                assert(seen.deep_view() =~= seen_pre.push(tdv[i as int].subrange(
                    2,
                    tdv[i as int].len() as int,
                )));
                assert(vals.deep_view() =~= vals_pre.push(tdv[i as int + 1]));
                let nm = tdv[i as int].subrange(2, tdv[i as int].len() as int);
                fl = fl.insert(nm, tdv[i as int + 1]);
                assert forall|x: Seq<char>| #[trigger]
                    fl.contains_key(x) <==> seen.deep_view().contains(x) by {
                    let sdv = seen.deep_view();
                    if fl.contains_key(x) {
                        if x == nm {
                            assert(sdv[sdv.len() - 1] == x);
                        } else {
                            let k = choose|k: int|
                                0 <= k < seen_pre.len() && seen_pre[k] == x;
                            assert(sdv[k] == x);
                        }
                    }
                    if sdv.contains(x) {
                        let k = choose|k: int| 0 <= k < sdv.len() && sdv[k] == x;
                        if k < seen_pre.len() {
                            assert(seen_pre[k] == x);
                        }
                    }
                }
                assert forall|j: int|
                    0 <= j < seen.deep_view().len() implies fl[#[trigger] seen.deep_view()[j]]
                    == vals.deep_view()[j] by {
                    let sdv = seen.deep_view();
                    if j < seen_pre.len() {
                        assert(seen_pre.contains(seen_pre[j]));
                        assert(sdv[j] != nm);
                    }
                }
            }
            i = i + 2;
        } else {
            let ghost pos_pre = pos.deep_view();
            pos.push(tokens[i].clone());
            proof {
                assert(pos.deep_view() =~= pos_pre.push(tdv[i as int]));
            }
            i = i + 1;
        }
    }
    if pos.len() > schema.positional.len() {
        proof {
            assert(pos.deep_view().len() == pos@.len());
            assert(schema@.positional.len() == schema.positional@.len());
        }
        return Err(BindError::Malformed(MalformedKind::TooManyParams));
    }
    let ghost posdv = pos.deep_view();
    proof {
        assert(posdv.len() == pos@.len());
        assert(schema@.positional.len() == schema.positional@.len());
    }
    let mut bound_pos: Vec<BoundValue> = Vec::new();
    proof {
        assert(bound_pos.deep_view() =~= Seq::<BoundValueV>::empty());
    }
    let mut k: usize = 0;
    while k < schema.positional.len()
        invariant
            0 <= k <= schema.positional@.len(),
            tdv == tokens.deep_view(),
            fnames == flag_names_of(schema@.flags),
            posdv == pos.deep_view(),
            posdv.len() == pos@.len(),
            seen@.len() == vals@.len(),
            forall|x: Seq<char>| #[trigger]
                fl.contains_key(x) <==> seen.deep_view().contains(x),
            forall|j: int|
                0 <= j < seen.deep_view().len() ==> fl[#[trigger] seen.deep_view()[j]]
                    == vals.deep_view()[j],
            spec_split(tdv, fnames, 0, Seq::empty(), Map::empty()) == Ok::<
                (Seq<Seq<char>>, Map<Seq<char>, Seq<char>>),
                MalformedKind,
            >((posdv, fl)),
            posdv.len() <= schema@.positional.len(),
            spec_bind_positionals(schema@.positional, posdv, 0, Seq::empty())
                == spec_bind_positionals(
                schema@.positional,
                posdv,
                k as int,
                bound_pos.deep_view(),
            ),
        decreases schema.positional@.len() - k,
    {
        proof {
            assert(schema@.positional[k as int] == schema.positional@[k as int]@);
        }
        let f = &schema.positional[k];
        let raw: String = if k < pos.len() {
            pos[k].clone()
        } else {
            match &f.default {
                Some(d) => d.clone(),
                None => {
                    return Err(BindError::NotEnoughParams);
                },
            }
        };
        match bind_value(f.ty, &raw) {
            Ok(v) => {
                let ghost acc_pre = bound_pos.deep_view();
                let ghost vv = v@;
                bound_pos.push(v);
                proof {
                    assert(bound_pos.deep_view() =~= acc_pre.push(vv));
                }
            },
            Err(e) => {
                return Err(e);
            },
        }
        k = k + 1;
    }
    let mut bound_fl: Vec<BoundValue> = Vec::new();
    proof {
        assert(bound_fl.deep_view() =~= Seq::<BoundValueV>::empty());
        assert(schema@.flags.len() == schema.flags@.len());
    }
    let mut k2: usize = 0;
    while k2 < schema.flags.len()
        invariant
            0 <= k2 <= schema.flags@.len(),
            tdv == tokens.deep_view(),
            fnames == flag_names_of(schema@.flags),
            posdv == pos.deep_view(),
            seen@.len() == vals@.len(),
            forall|x: Seq<char>| #[trigger]
                fl.contains_key(x) <==> seen.deep_view().contains(x),
            forall|j: int|
                0 <= j < seen.deep_view().len() ==> fl[#[trigger] seen.deep_view()[j]]
                    == vals.deep_view()[j],
            spec_split(tdv, fnames, 0, Seq::empty(), Map::empty()) == Ok::<
                (Seq<Seq<char>>, Map<Seq<char>, Seq<char>>),
                MalformedKind,
            >((posdv, fl)),
            posdv.len() <= schema@.positional.len(),
            spec_bind_positionals(schema@.positional, posdv, 0, Seq::empty()) == Ok::<
                Seq<BoundValueV>,
                BindError,
            >(bound_pos.deep_view()),
            spec_bind_flags(schema@.flags, fl, 0, Seq::empty()) == spec_bind_flags(
                schema@.flags,
                fl,
                k2 as int,
                bound_fl.deep_view(),
            ),
        decreases schema.flags@.len() - k2,
    {
        proof {
            assert(schema@.flags[k2 as int] == schema.flags@[k2 as int]@);
        }
        let f = &schema.flags[k2];
        let raw: String = match find_string(&seen, &f.name) {
            Some(j) => {
                proof {
                    assert(seen.deep_view().contains(f.name@)) by {
                        assert(seen.deep_view()[j as int] == f.name@);
                    }
                    assert(fl[f.name@] == vals.deep_view()[j as int]);
                    assert(vals.deep_view()[j as int] == vals@[j as int]@);
                }
                vals[j].clone()
            },
            None => match &f.default {
                Some(d) => d.clone(),
                None => {
                    return Err(BindError::NotEnoughParams);
                },
            },
        };
        match bind_value(f.ty, &raw) {
            Ok(v) => {
                let ghost acc_pre = bound_fl.deep_view();
                let ghost vv = v@;
                bound_fl.push(v);
                proof {
                    assert(bound_fl.deep_view() =~= acc_pre.push(vv));
                }
            },
            Err(e) => {
                return Err(e);
            },
        }
        k2 = k2 + 1;
    }
    let b = BoundParams { positional: bound_pos, flags: bound_fl };
    proof {
        assert(spec_bind(schema@, tdv) == Ok::<BoundParamsV, BindError>(b@));
    }
    Ok(b)
}

/// The user-facing text of a missing-parameter failure: a canned notice
/// followed by the command's configured usage string.
pub open spec fn missing_params_message(usage: Seq<char>) -> Seq<char> {
    "Not enough parameters.\n\nUSAGE:\n    "@ + usage
}

/// The diagnostic text recorded for each schema-level violation.
pub open spec fn malformed_text(k: MalformedKind) -> Seq<char> {
    match k {
        MalformedKind::UnknownFlag => "unrecognized flag"@,
        MalformedKind::FlagMissingValue => "flag is missing its value"@,
        MalformedKind::DuplicateFlag => "flag given more than once"@,
        MalformedKind::TooManyParams => "too many parameters"@,
    }
}

/// How a binding condition must be classified: the three user-correctable
/// conditions become canned external failures, and everything else is
/// escalated as an internal failure whose chain carries the parsing context.
pub open spec fn classified_failure(e: BindError, usage: Seq<char>, f: CommandFailure) -> bool {
    match e {
        BindError::NotEnoughParams => f matches CommandFailure::External(x) && x.message matches Some(
            m,
        ) && m@ == missing_params_message(usage),
        BindError::InvalidTarget => f matches CommandFailure::External(x) && x.message matches Some(
            m,
        ) && m@ == "Invalid target."@,
        BindError::InvalidChannel => f matches CommandFailure::External(x) && x.message
            matches Some(m) && m@ == "Invalid channel."@,
        BindError::InvalidRole => f matches CommandFailure::External(x) && x.message matches Some(
            m,
        ) && m@ == "Invalid role."@,
        BindError::Malformed(k) => f matches CommandFailure::Internal(x)
            && x.error.links.deep_view() == seq!["could not parse params"@, malformed_text(k)],
    }
}

/// Translates a binding condition into the command failure the dispatcher
/// renders, per the classification policy.
pub fn classify_bind_error(e: BindError, usage: &str) -> (r: CommandFailure)
    ensures
        classified_failure(e, usage@, r),
{
    match e {
        BindError::NotEnoughParams => {
            let mut m: String = "Not enough parameters.\n\nUSAGE:\n    ".to_owned();
            m.append(usage);
            CommandFailure::External(ExternalCommandFailure { message: Some(m) })
        },
        BindError::InvalidTarget => CommandFailure::External(
            ExternalCommandFailure { message: Some("Invalid target.".to_owned()) },
        ),
        BindError::InvalidChannel => CommandFailure::External(
            ExternalCommandFailure { message: Some("Invalid channel.".to_owned()) },
        ),
        BindError::InvalidRole => CommandFailure::External(
            ExternalCommandFailure { message: Some("Invalid role.".to_owned()) },
        ),
        BindError::Malformed(k) => {
            let text: String = match k {
                MalformedKind::UnknownFlag => "unrecognized flag".to_owned(),
                MalformedKind::FlagMissingValue => "flag is missing its value".to_owned(),
                MalformedKind::DuplicateFlag => "flag given more than once".to_owned(),
                MalformedKind::TooManyParams => "too many parameters".to_owned(),
            };
            let chain = ErrorChain::new(text).chain_context("could not parse params".to_owned());
            proof {
                assert(chain.links.deep_view() =~= seq![
                    "could not parse params"@,
                    malformed_text(k),
                ]);
            }
            CommandFailure::Internal(InternalCommandFailure { error: chain })
        },
    }
}

/// Binds the tokens against the schema and classifies any failure, as a
/// command implementation does before its business logic runs.
pub fn params(schema: &ParamSchema, tokens: &Vec<String>) -> (r: Result<
    BoundParams,
    CommandFailure,
>)
    ensures
        match spec_bind(schema@, tokens.deep_view()) {
            Ok(bv) => r matches Ok(b) && b@ == bv,
            Err(e) => r matches Err(f) && classified_failure(e, schema@.usage, f),
        },
{
    match bind_params(schema, tokens) {
        Ok(b) => Ok(b),
        Err(e) => Err(classify_bind_error(e, schema.usage.as_str())),
    }
}

} // verus!
