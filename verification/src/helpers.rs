//! Helper reference types: parsed wrappers around platform entity
//! identifiers, accepting either a platform mention syntax (a recognized
//! bracket form such as `<@123>`) or a raw numeric identifier string.
//!
//! The three entity kinds (user mention, channel, role) share one parser,
//! parameterized by the list of accepted bracket prefixes, tried most
//! specific first.

use vstd::prelude::*;

use crate::text::{spec_parse_u64, parse_u64};

verus! {

/// The kind of platform entity a reference names.
#[derive(Clone, Copy, PartialEq, Eq, Structural, Debug)]
pub enum EntityKind {
    Mention,
    Channel,
    Role,
}

/// A parsed reference to a platform entity. Once constructed, the wrapped
/// identifier is a valid unsigned integer.
#[derive(Clone, Copy, PartialEq, Eq, Structural, Debug)]
pub struct EntityRef {
    pub kind: EntityKind,
    pub id: u64,
}

/// The bracket prefixes accepted for each entity kind, most specific first.
pub open spec fn kind_prefixes(k: EntityKind) -> Seq<Seq<char>> {
    match k {
        EntityKind::Mention => seq![seq!['<', '@', '!'], seq!['<', '@']],
        EntityKind::Channel => seq![seq!['<', '#']],
        EntityKind::Role => seq![seq!['<', '@', '&']],
    }
}

/// Whether `s` is `p`, then at least one character, then a closing `>`.
pub open spec fn matches_bracket(s: Seq<char>, p: Seq<char>) -> bool {
    s.len() > p.len() && s.subrange(0, p.len() as int) == p && s.last() == '>'
}

/// The inner text of the first matching bracket form, or `s` itself when no
/// prefix matches.
pub open spec fn spec_strip(s: Seq<char>, ps: Seq<Seq<char>>) -> Seq<char>
    decreases ps.len(),
{
    if ps.len() == 0 {
        s
    } else if matches_bracket(s, ps[0]) {
        s.subrange(ps[0].len() as int, s.len() - 1)
    } else {
        spec_strip(s, ps.drop_first())
    }
}

/// What parsing an entity reference of kind `k` from token `s` yields:
/// mention syntax is tried first (most specific prefix first), falling back
/// to a raw numeric identifier.
pub open spec fn spec_parse_entity(k: EntityKind, s: Seq<char>) -> Option<u64> {
    spec_parse_u64(spec_strip(s, kind_prefixes(k)))
}

fn kind_prefix_list(k: EntityKind) -> (ps: Vec<Vec<char>>)
    ensures
        ps.deep_view() == kind_prefixes(k),
{
    match k {
        EntityKind::Mention => {
            let ps = vec![vec!['<', '@', '!'], vec!['<', '@']];
            proof {
                assert(ps.deep_view() =~~= kind_prefixes(k));
            }
            ps
        },
        EntityKind::Channel => {
            let ps = vec![vec!['<', '#']];
            proof {
                assert(ps.deep_view() =~~= kind_prefixes(k));
            }
            ps
        },
        EntityKind::Role => {
            let ps = vec![vec!['<', '@', '&']];
            proof {
                assert(ps.deep_view() =~~= kind_prefixes(k));
            }
            ps
        },
    }
}

fn bracket_matches(s: &str, p: &Vec<char>) -> (r: bool)
    ensures
        r == matches_bracket(s@, p@),
{
    let n = s.unicode_len();
    if n <= p.len() {
        return false;
    }
    if s.get_char(n - 1) != '>' {
        return false;
    }
    let mut i: usize = 0;
    while i < p.len()
        invariant
            0 <= i <= p@.len() < n == s@.len(),
            s@.last() == '>',
            forall|j: int| 0 <= j < i ==> s@[j] == p@[j],
        decreases p@.len() - i,
    {
        if s.get_char(i) != p[i] {
            assert(s@.subrange(0, p@.len() as int)[i as int] != p@[i as int]);
            return false;
        }
        i = i + 1;
    }
    proof {
        assert(s@.subrange(0, p@.len() as int) =~= p@);
    }
    true
}

/// Parses an entity reference of kind `kind` from one token, accepting a
/// bracket mention form or a raw numeric identifier.
pub fn parse_entity(kind: EntityKind, s: &str) -> (r: Option<EntityRef>)
    ensures
        match spec_parse_entity(kind, s@) {
            Some(id) => r == Some(EntityRef { kind, id }),
            None => r is None,
        },
{
    let ps = kind_prefix_list(kind);
    let n = s.unicode_len();
    proof {
        assert(ps.deep_view().skip(0) =~= ps.deep_view());
    }
    let mut i: usize = 0;
    while i < ps.len()
        invariant
            0 <= i <= ps@.len(),
            n == s@.len(),
            ps.deep_view() == kind_prefixes(kind),
            spec_strip(s@, ps.deep_view().skip(i as int)) == spec_strip(s@, kind_prefixes(kind)),
        decreases ps@.len() - i,
    {
        proof {
            let dv = ps.deep_view();
            assert(dv.skip(i as int)[0] == dv[i as int]);
            assert(dv.skip(i as int).drop_first() =~= dv.skip(i as int + 1));
        }
        let p = &ps[i];
        if bracket_matches(s, p) {
            proof {
                let dv = ps.deep_view();
                assert(dv.skip(i as int)[0] == p@);
                assert(spec_strip(s@, dv.skip(i as int)) == s@.subrange(
                    p@.len() as int,
                    s@.len() - 1,
                ));
            }
            let inner = s.substring_char(p.len(), n - 1);
            let id = match parse_u64(inner) {
                Some(v) => v,
                None => {
                    return None;
                },
            };
            return Some(EntityRef { kind, id });
        }
        proof {
            let dv = ps.deep_view();
            assert(p@ =~= dv[i as int]);
            assert(!matches_bracket(s@, dv.skip(i as int)[0]));
        }
        i = i + 1;
    }
    proof {
        assert(ps.deep_view().skip(i as int) =~= Seq::<Seq<char>>::empty());
    }
    let id = match parse_u64(s) {
        Some(v) => v,
        None => {
            return None;
        },
    };
    Some(EntityRef { kind, id })
}

/// Parses a user reference: `<@id>` or `<@!id>` mention syntax, or a raw
/// numeric identifier.
pub fn parse_mention_or_id(s: &str) -> (r: Option<EntityRef>)
    ensures
        match spec_parse_entity(EntityKind::Mention, s@) {
            Some(id) => r == Some(EntityRef { kind: EntityKind::Mention, id }),
            None => r is None,
        },
{
    parse_entity(EntityKind::Mention, s)
}

/// Parses a channel reference: `<#id>` mention syntax, or a raw numeric
/// identifier.
pub fn parse_channel_or_id(s: &str) -> (r: Option<EntityRef>)
    ensures
        match spec_parse_entity(EntityKind::Channel, s@) {
            Some(id) => r == Some(EntityRef { kind: EntityKind::Channel, id }),
            None => r is None,
        },
{
    parse_entity(EntityKind::Channel, s)
}

/// Parses a role reference: `<@&id>` mention syntax, or a raw numeric
/// identifier.
pub fn parse_role_or_id(s: &str) -> (r: Option<EntityRef>)
    ensures
        match spec_parse_entity(EntityKind::Role, s@) {
            Some(id) => r == Some(EntityRef { kind: EntityKind::Role, id }),
            None => r is None,
        },
{
    parse_entity(EntityKind::Role, s)
}

} // verus!
