//! The command registry and the per-message dispatch decision.
//!
//! A `CommandListener` holds an immutable-after-startup registry: lowercase
//! command names, each bound to one registered handler. Per inbound message,
//! `route` tokenizes the content, requires the configured prefix on the
//! first token, strips and lower-cases it, and looks the name up; anything
//! that is not a known command is silently ignored, since ordinary chatter
//! must not trigger errors.
//!
//! No two distinct commands may share a name. The registry resolves
//! conflicts deterministically: the first registration of a name wins, and a
//! later binding of an already-bound name is ignored.

use vstd::prelude::*;

use crate::text::{lower_seq, lower_string, lemma_lower_seq_idempotent, starts_with_seq,
    str_starts_with, find_string};
use crate::tokenizer::{spec_tokenize, tokenize};

verus! {

/// A command registry and dispatcher front end, generic over the handler
/// representation `H` (an opaque handle: a boxed handler, an index, or any
/// value the host associates commands with).
pub struct CommandListener<H> {
    prefix: String,
    names: Vec<String>,
    targets: Vec<usize>,
    handlers: Vec<H>,
}

/// The mathematical view of a listener: the prefix, the name table (each
/// name bound to an index into the handler table), and the handlers.
pub struct ListenerV<H> {
    pub prefix: Seq<char>,
    pub names: Seq<Seq<char>>,
    pub targets: Seq<usize>,
    pub handlers: Seq<H>,
}

impl<H> View for CommandListener<H> {
    type V = ListenerV<H>;

    closed spec fn view(&self) -> ListenerV<H> {
        ListenerV {
            prefix: self.prefix@,
            names: self.names.deep_view(),
            targets: self.targets@,
            handlers: self.handlers@,
        }
    }
}

impl<H> ListenerV<H> {
    /// Registry well-formedness: one target per name, every target in
    /// bounds, every name stored lower-case, and no name bound twice.
    pub open spec fn wf(self) -> bool {
        &&& self.names.len() == self.targets.len()
        &&& forall|i: int|
            0 <= i < self.targets.len() ==> (#[trigger] self.targets[i]) < self.handlers.len()
        &&& forall|i: int|
            0 <= i < self.names.len() ==> #[trigger] self.names[i] == lower_seq(self.names[i])
        &&& forall|i: int, j: int|
            0 <= i < self.names.len() && 0 <= j < self.names.len() && i != j
                ==> #[trigger] self.names[i] != #[trigger] self.names[j]
    }
}

/// The handler index bound to `name`, scanning the name table in order.
pub open spec fn spec_lookup(names: Seq<Seq<char>>, targets: Seq<usize>, name: Seq<char>) -> Option<
    usize,
>
    decreases names.len(),
{
    if names.len() == 0 || targets.len() == 0 {
        None
    } else if names[0] == name {
        Some(targets[0])
    } else {
        spec_lookup(names.drop_first(), targets.drop_first(), name)
    }
}

/// The name table after binding each alias of one registration, lower-cased,
/// to handler `h`; an alias already bound keeps its earlier binding.
pub open spec fn spec_register(
    names: Seq<Seq<char>>,
    targets: Seq<usize>,
    aliases: Seq<Seq<char>>,
    j: int,
    h: usize,
) -> (Seq<Seq<char>>, Seq<usize>)
    decreases aliases.len() - j,
{
    if j < 0 || j >= aliases.len() {
        (names, targets)
    } else {
        let a = lower_seq(aliases[j]);
        if names.contains(a) {
            spec_register(names, targets, aliases, j + 1, h)
        } else {
            spec_register(names.push(a), targets.push(h), aliases, j + 1, h)
        }
    }
}

/// What the dispatcher decides for one inbound message.
pub enum RouteDecision {
    /// Not a command: empty content, wrong prefix, or unknown name.
    Ignored,
    /// A command to execute: the handler index, the lower-cased command
    /// name, and the parameter tokens following it.
    Execute { target: usize, name: String, params: Vec<String> },
}

/// The mathematical view of a dispatch decision.
pub enum RouteDecisionV {
    Ignored,
    Execute { target: usize, name: Seq<char>, params: Seq<Seq<char>> },
}

impl View for RouteDecision {
    type V = RouteDecisionV;

    open spec fn view(&self) -> RouteDecisionV {
        match self {
            RouteDecision::Ignored => RouteDecisionV::Ignored,
            RouteDecision::Execute { target, name, params } => RouteDecisionV::Execute {
                target: *target,
                name: name@,
                params: params.deep_view(),
            },
        }
    }
}

/// The dispatch decision for one message: tokenize; ignore empty content or
/// a first token without the prefix; otherwise strip the prefix, fold case,
/// and look the name up, ignoring unknown names.
pub open spec fn spec_route(
    prefix: Seq<char>,
    names: Seq<Seq<char>>,
    targets: Seq<usize>,
    content: Seq<char>,
) -> RouteDecisionV {
    let toks = spec_tokenize(content);
    if toks.len() == 0 {
        RouteDecisionV::Ignored
    } else if !starts_with_seq(toks[0], prefix) {
        RouteDecisionV::Ignored
    } else {
        let cname = lower_seq(toks[0].skip(prefix.len() as int));
        match spec_lookup(names, targets, cname) {
            None => RouteDecisionV::Ignored,
            Some(h) => RouteDecisionV::Execute { target: h, name: cname, params: toks.drop_first() },
        }
    }
}

proof fn lemma_lookup_in_targets(names: Seq<Seq<char>>, targets: Seq<usize>, name: Seq<char>)
    requires
        names.len() == targets.len(),
        spec_lookup(names, targets, name) is Some,
    ensures
        targets.contains(spec_lookup(names, targets, name)->0),
    decreases names.len(),
{
    if names.len() > 0 {
        if names[0] == name {
            assert(targets[0] == spec_lookup(names, targets, name)->0);
        } else {
            lemma_lookup_in_targets(names.drop_first(), targets.drop_first(), name);
            let h = spec_lookup(names, targets, name)->0;
            let k = choose|k: int|
                0 <= k < targets.drop_first().len() && targets.drop_first()[k] == h;
            assert(targets[k + 1] == h);
        }
    }
}

impl<H> CommandListener<H> {
    /// An empty registry with the given command prefix.
    pub fn new(prefix: &str) -> (r: CommandListener<H>)
        ensures
            r@.prefix == prefix@,
            r@.names.len() == 0,
            r@.targets.len() == 0,
            r@.handlers.len() == 0,
            r@.wf(),
    {
        let r = CommandListener {
            prefix: prefix.to_owned(),
            names: Vec::new(),
            targets: Vec::new(),
            handlers: Vec::new(),
        };
        proof {
            assert(r@.names =~= Seq::<Seq<char>>::empty());
        }
        r
    }

    /// Registers `command` under every name in `names`, case-insensitively:
    /// each alias is lower-cased and bound to the new handler, except an
    /// alias that an earlier registration already bound, which keeps its
    /// earlier binding.
    pub fn add_command(&mut self, names: &Vec<String>, command: H)
        requires
            old(self)@.wf(),
        ensures
            final(self)@.wf(),
            final(self)@.prefix == old(self)@.prefix,
            final(self)@.handlers == old(self)@.handlers.push(command),
            (final(self)@.names, final(self)@.targets) == spec_register(
                old(self)@.names,
                old(self)@.targets,
                names.deep_view(),
                0,
                old(self)@.handlers.len() as usize,
            ),
    {
        let ghost orig_names = self@.names;
        let ghost orig_targets = self@.targets;
        let ghost adv = names.deep_view();
        let h = self.handlers.len();
        self.handlers.push(command);
        let mut j: usize = 0;
        while j < names.len()
            invariant
                0 <= j <= names@.len(),
                adv == names.deep_view(),
                self@.wf(),
                self@.prefix == old(self)@.prefix,
                self@.handlers == old(self)@.handlers.push(command),
                h == old(self)@.handlers.len(),
                spec_register(orig_names, orig_targets, adv, 0, h) == spec_register(
                    self@.names,
                    self@.targets,
                    adv,
                    j as int,
                    h,
                ),
            decreases names@.len() - j,
        {
            proof {
                assert(adv[j as int] == names@[j as int]@);
            }
            let folded = lower_string(names[j].as_str());
            match find_string(&self.names, &folded) {
                Some(_) => {
                    proof {
                        assert(self@.names.contains(lower_seq(adv[j as int])));
                    }
                },
                None => {
                    let ghost pre_names = self@.names;
                    let ghost pre_targets = self@.targets;
                    self.names.push(folded);
                    self.targets.push(h);
                    proof {
                        assert(self@.names =~= pre_names.push(lower_seq(adv[j as int])));
                        assert(self@.targets =~= pre_targets.push(h));
                        let a = lower_seq(adv[j as int]);
                        lemma_lower_seq_idempotent(adv[j as int]);
                        assert forall|i: int|
                            0 <= i < self@.names.len() implies #[trigger] self@.names[i]
                            == lower_seq(self@.names[i]) by {
                            if i < pre_names.len() {
                                assert(pre_names[i] == lower_seq(pre_names[i]));
                            }
                        }
                        assert forall|i: int, k: int|
                            0 <= i < self@.names.len() && 0 <= k < self@.names.len() && i != k
                            implies #[trigger] self@.names[i] != #[trigger] self@.names[k] by {
                            if i < pre_names.len() && k < pre_names.len() {
                            } else if i < pre_names.len() {
                                assert(!pre_names.contains(a));
                                assert(pre_names[i] != a);
                            } else if k < pre_names.len() {
                                assert(!pre_names.contains(a));
                                assert(pre_names[k] != a);
                            }
                        }
                    }
                },
            }
            j = j + 1;
        }
    }

    /// The handler at a given index, if the index is in bounds.
    pub fn handler(&self, i: usize) -> (h: Option<&H>)
        ensures
            match h {
                Some(x) => i < self@.handlers.len() && *x == self@.handlers[i as int],
                None => i >= self@.handlers.len(),
            },
    {
        if i < self.handlers.len() {
            Some(&self.handlers[i])
        } else {
            None
        }
    }

    fn scan_names(&self, folded: &String) -> (r: Option<usize>)
        requires
            self@.wf(),
        ensures
            r == spec_lookup(self@.names, self@.targets, folded@),
    {
        let ghost ndv = self@.names;
        let ghost tdv = self@.targets;
        proof {
            assert(ndv.skip(0) =~= ndv);
            assert(tdv.skip(0) =~= tdv);
        }
        let mut i: usize = 0;
        while i < self.names.len()
            invariant
                0 <= i <= ndv.len(),
                ndv == self@.names,
                tdv == self@.targets,
                ndv.len() == tdv.len(),
                ndv.len() == self.names@.len(),
                tdv.len() == self.targets@.len(),
                spec_lookup(ndv.skip(i as int), tdv.skip(i as int), folded@) == spec_lookup(
                    ndv,
                    tdv,
                    folded@,
                ),
            decreases ndv.len() - i,
        {
            proof {
                assert(ndv.skip(i as int)[0] == ndv[i as int]);
                assert(tdv.skip(i as int)[0] == tdv[i as int]);
                assert(ndv.skip(i as int).drop_first() =~= ndv.skip(i as int + 1));
                assert(tdv.skip(i as int).drop_first() =~= tdv.skip(i as int + 1));
            }
            if self.names[i] == *folded {
                proof {
                    assert(ndv[i as int] == folded@);
                }
                return Some(self.targets[i]);
            }
            proof {
                assert(ndv[i as int] != folded@);
            }
            i = i + 1;
        }
        proof {
            assert(ndv.skip(i as int).len() == 0);
        }
        None
    }

    /// Looks a command name up, case-insensitively, across all registered
    /// names.
    pub fn lookup(&self, name: &str) -> (r: Option<usize>)
        requires
            self@.wf(),
        ensures
            r == spec_lookup(self@.names, self@.targets, lower_seq(name@)),
    {
        let folded = lower_string(name);
        self.scan_names(&folded)
    }

    /// The dispatch decision for one inbound message's content. An `Execute`
    /// decision always names a handler in bounds.
    pub fn route(&self, content: &str) -> (r: RouteDecision)
        requires
            self@.wf(),
        ensures
            r@ == spec_route(self@.prefix, self@.names, self@.targets, content@),
            r@ matches RouteDecisionV::Execute { target, .. } ==> target
                < self@.handlers.len(),
    {
        let tokens = tokenize(content);
        if tokens.len() == 0 {
            return RouteDecision::Ignored;
        }
        proof {
            assert(tokens.deep_view()[0] == tokens@[0]@);
        }
        let first = &tokens[0];
        if !str_starts_with(first.as_str(), self.prefix.as_str()) {
            return RouteDecision::Ignored;
        }
        let plen = self.prefix.as_str().unicode_len();
        let flen = first.as_str().unicode_len();
        let stripped = first.as_str().substring_char(plen, flen);
        let cname = lower_string(stripped);
        proof {
            assert(stripped@ =~= tokens.deep_view()[0].skip(self@.prefix.len() as int));
        }
        let target = match self.scan_names(&cname) {
            None => {
                return RouteDecision::Ignored;
            },
            Some(t) => t,
        };
        let mut params: Vec<String> = Vec::new();
        let mut j: usize = 1;
        proof {
            assert(params.deep_view() =~= tokens.deep_view().subrange(1, 1));
        }
        while j < tokens.len()
            invariant
                1 <= j <= tokens@.len(),
                params.deep_view() == tokens.deep_view().subrange(1, j as int),
            decreases tokens@.len() - j,
        {
            let ghost pre = params.deep_view();
            params.push(tokens[j].clone());
            proof {
                assert(tokens.deep_view()[j as int] == tokens@[j as int]@);
                assert(params.deep_view() =~= pre.push(tokens.deep_view()[j as int]));
                assert(params.deep_view() =~= tokens.deep_view().subrange(1, j as int + 1));
            }
            j = j + 1;
        }
        proof {
            assert(tokens.deep_view().subrange(1, j as int) =~= tokens.deep_view().drop_first());
            lemma_lookup_in_targets(self@.names, self@.targets, cname@);
            let h = spec_lookup(self@.names, self@.targets, cname@)->0;
            let k = choose|k: int| 0 <= k < self@.targets.len() && self@.targets[k] == h;
        }
        RouteDecision::Execute { target, name: cname, params }
    }
}

/// Dispatching the same message content twice against the same immutable
/// registry yields the same decision: the decision is a pure function of
/// the registry and the content, so outcome classification is identical
/// across repeated dispatches.
pub proof fn lemma_route_deterministic<H>(
    reg: ListenerV<H>,
    content: Seq<char>,
    r1: RouteDecisionV,
    r2: RouteDecisionV,
)
    requires
        r1 == spec_route(reg.prefix, reg.names, reg.targets, content),
        r2 == spec_route(reg.prefix, reg.names, reg.targets, content),
    ensures
        r1 == r2,
{
}

/// Pairwise distinctness of a name table.
pub open spec fn distinct_names(names: Seq<Seq<char>>) -> bool {
    forall|i: int, j: int|
        0 <= i < names.len() && 0 <= j < names.len() && i != j ==> #[trigger] names[i]
            != #[trigger] names[j]
}

/// In a registry without duplicate names, lookup returns exactly the
/// binding stored at the name's index.
pub proof fn lemma_lookup_finds(
    names: Seq<Seq<char>>,
    targets: Seq<usize>,
    name: Seq<char>,
    k: int,
)
    requires
        names.len() == targets.len(),
        distinct_names(names),
        0 <= k < names.len(),
        names[k] == name,
    ensures
        spec_lookup(names, targets, name) == Some(targets[k]),
    decreases names.len(),
{
    if k == 0 {
    } else {
        assert(names[0] != name);
        assert(distinct_names(names.drop_first())) by {
            assert(forall|i: int|
                0 <= i < names.drop_first().len() ==> #[trigger] names.drop_first()[i] == names[
                    i + 1
                ]);
        }
        assert(names.drop_first()[k - 1] == names[k]);
        lemma_lookup_finds(names.drop_first(), targets.drop_first(), name, k - 1);
    }
}

/// A name bound by no table entry resolves to nothing.
pub proof fn lemma_lookup_absent(names: Seq<Seq<char>>, targets: Seq<usize>, name: Seq<char>)
    requires
        forall|k: int| 0 <= k < names.len() ==> #[trigger] names[k] != name,
    ensures
        spec_lookup(names, targets, name) is None,
    decreases names.len(),
{
    if names.len() > 0 && targets.len() > 0 {
        assert(forall|k: int|
            0 <= k < names.drop_first().len() ==> #[trigger] names.drop_first()[k] == names[
                k + 1
            ]);
        lemma_lookup_absent(names.drop_first(), targets.drop_first(), name);
    }
}

proof fn lemma_register_keeps_binding(
    names: Seq<Seq<char>>,
    targets: Seq<usize>,
    aliases: Seq<Seq<char>>,
    j: int,
    h: usize,
    k: int,
)
    requires
        names.len() == targets.len(),
        distinct_names(names),
        0 <= k < names.len(),
    ensures
        ({
            let (n2, t2) = spec_register(names, targets, aliases, j, h);
            spec_lookup(n2, t2, names[k]) == Some(targets[k])
        }),
    decreases aliases.len() - j,
{
    if j < 0 || j >= aliases.len() {
        lemma_lookup_finds(names, targets, names[k], k);
    } else {
        let a = lower_seq(aliases[j]);
        if names.contains(a) {
            lemma_register_keeps_binding(names, targets, aliases, j + 1, h, k);
        } else {
            let n1 = names.push(a);
            let t1 = targets.push(h);
            assert(distinct_names(n1)) by {
                assert forall|i: int, l: int|
                    0 <= i < n1.len() && 0 <= l < n1.len() && i != l implies #[trigger] n1[i]
                    != #[trigger] n1[l] by {
                    if i < names.len() && l < names.len() {
                        assert(names[i] != names[l]);
                    } else if i < names.len() {
                        assert(names[i] != a);
                    } else if l < names.len() {
                        assert(names[l] != a);
                    }
                }
            }
            assert(n1[k] == names[k]);
            assert(t1[k] == targets[k]);
            lemma_register_keeps_binding(n1, t1, aliases, j + 1, h, k);
        }
    }
}

/// The registry round trip: an alias bound by a registration, when no
/// earlier registration bound its lower-cased form, afterwards resolves to
/// that registration's handler. Together with `lookup`, which folds its
/// query the same way, a registered name resolves in any character case.
pub proof fn lemma_register_then_lookup(
    names: Seq<Seq<char>>,
    targets: Seq<usize>,
    aliases: Seq<Seq<char>>,
    j: int,
    h: usize,
    m: int,
)
    requires
        names.len() == targets.len(),
        distinct_names(names),
        0 <= j <= m < aliases.len(),
        !names.contains(lower_seq(aliases[m])),
    ensures
        ({
            let (n2, t2) = spec_register(names, targets, aliases, j, h);
            spec_lookup(n2, t2, lower_seq(aliases[m])) == Some(h)
        }),
    decreases aliases.len() - j,
{
    let a = lower_seq(aliases[j]);
    let am = lower_seq(aliases[m]);
    if names.contains(a) {
        assert(j != m);
        lemma_register_then_lookup(names, targets, aliases, j + 1, h, m);
    } else {
        let n1 = names.push(a);
        let t1 = targets.push(h);
        assert(distinct_names(n1)) by {
            assert forall|i: int, l: int|
                0 <= i < n1.len() && 0 <= l < n1.len() && i != l implies #[trigger] n1[i]
                != #[trigger] n1[l] by {
                if i < names.len() && l < names.len() {
                    assert(names[i] != names[l]);
                } else if i < names.len() {
                    assert(names[i] != a);
                } else if l < names.len() {
                    assert(names[l] != a);
                }
            }
        }
        if a == am {
            assert(n1[names.len() as int] == am);
            assert(t1[names.len() as int] == h);
            lemma_register_keeps_binding(n1, t1, aliases, j + 1, h, names.len() as int);
        } else {
            assert(j != m);
            assert(!n1.contains(am)) by {
                if n1.contains(am) {
                    let i = choose|i: int| 0 <= i < n1.len() && n1[i] == am;
                    assert(i < names.len());
                    assert(names.contains(am));
                }
            }
            lemma_register_then_lookup(n1, t1, aliases, j + 1, h, m);
        }
    }
}

} // verus!
