//! Quote-aware tokenization of raw message text.
//!
//! Fields are separated by runs of spaces, except inside a quoted span. A
//! quoted span begins at an unescaped `"` and ends at the next unescaped `"`;
//! its content (without the quote characters) becomes a single token even if
//! it contains spaces. An unterminated quote extends to the end of the input:
//! the content is taken verbatim and the quote discarded. A backslash escapes
//! the character after it, which is taken literally; a trailing backslash is
//! discarded. Empty input produces an empty token sequence.

use vstd::prelude::*;
use vstd::string::StringExecFns;

use crate::text::push_char;

verus! {

/// State of the tokenizer automaton after reading some prefix of the input:
/// the finished tokens, the token in progress (if one has started), and
/// whether the automaton is inside a quoted span or right after a backslash.
#[verifier::ext_equal]
pub struct TokState {
    pub done: Seq<Seq<char>>,
    pub cur: Seq<char>,
    pub started: bool,
    pub in_quote: bool,
    pub escaped: bool,
}

/// The automaton's initial state: no tokens, nothing in progress.
pub open spec fn tok_init() -> TokState {
    TokState {
        done: Seq::empty(),
        cur: Seq::empty(),
        started: false,
        in_quote: false,
        escaped: false,
    }
}

/// One transition of the tokenizer automaton on input character `c`.
pub open spec fn tok_step(st: TokState, c: char) -> TokState {
    if st.escaped {
        TokState { cur: st.cur.push(c), started: true, escaped: false, ..st }
    } else if c == '\\' {
        TokState { escaped: true, ..st }
    } else if st.in_quote {
        if c == '"' {
            TokState {
                done: st.done.push(st.cur),
                cur: Seq::empty(),
                started: false,
                in_quote: false,
                ..st
            }
        } else {
            TokState { cur: st.cur.push(c), ..st }
        }
    } else if c == '"' {
        TokState {
            done: if st.started {
                st.done.push(st.cur)
            } else {
                st.done
            },
            cur: Seq::empty(),
            started: true,
            in_quote: true,
            ..st
        }
    } else if c == ' ' {
        if st.started {
            TokState { done: st.done.push(st.cur), cur: Seq::empty(), started: false, ..st }
        } else {
            st
        }
    } else {
        TokState { cur: st.cur.push(c), started: true, ..st }
    }
}

/// Runs the automaton from `st` over all of `s`.
pub open spec fn tok_run_from(st: TokState, s: Seq<char>) -> TokState
    decreases s.len(),
{
    if s.len() == 0 {
        st
    } else {
        tok_run_from(tok_step(st, s[0]), s.subrange(1, s.len() as int))
    }
}

/// At end of input, a token in progress is flushed: an unterminated quote or
/// a pending word becomes a final token.
pub open spec fn tok_finalize(st: TokState) -> Seq<Seq<char>> {
    if st.started {
        st.done.push(st.cur)
    } else {
        st.done
    }
}

/// The token sequence that tokenizing `s` yields.
pub open spec fn spec_tokenize(s: Seq<char>) -> Seq<Seq<char>> {
    tok_finalize(tok_run_from(tok_init(), s))
}

/// Tokenizes raw message text, honoring quoting.
pub fn tokenize(s: &str) -> (tokens: Vec<String>)
    ensures
        tokens.deep_view() == spec_tokenize(s@),
{
    let n = s.unicode_len();
    let mut done: Vec<String> = Vec::new();
    let mut cur: String = String::new();
    let mut started: bool = false;
    let mut in_quote: bool = false;
    let mut escaped: bool = false;
    proof {
        assert(TokState {
            done: done.deep_view(),
            cur: cur@,
            started,
            in_quote,
            escaped,
        } =~~= tok_init());
        assert(s@.subrange(0, n as int) =~= s@);
    }
    let mut i: usize = 0;
    while i < n
        invariant
            n == s@.len(),
            0 <= i <= n,
            tok_run_from(
                TokState { done: done.deep_view(), cur: cur@, started, in_quote, escaped },
                s@.subrange(i as int, n as int),
            ) == tok_run_from(tok_init(), s@),
        decreases n - i,
    {
        let ghost st = TokState { done: done.deep_view(), cur: cur@, started, in_quote, escaped };
        let c = s.get_char(i);
        if escaped {
            push_char(&mut cur, c);
            started = true;
            escaped = false;
        } else if c == '\\' {
            escaped = true;
        } else if in_quote {
            if c == '"' {
                done.push(cur);
                cur = String::new();
                started = false;
                in_quote = false;
            } else {
                push_char(&mut cur, c);
            }
        } else if c == '"' {
            if started {
                done.push(cur);
            }
            cur = String::new();
            started = true;
            in_quote = true;
        } else if c == ' ' {
            if started {
                done.push(cur);
                cur = String::new();
                started = false;
            }
        } else {
            push_char(&mut cur, c);
            started = true;
        }
        proof {
            let suf = s@.subrange(i as int, n as int);
            assert(suf.len() > 0);
            assert(suf[0] == s@[i as int]);
            assert(suf.subrange(1, suf.len() as int) =~= s@.subrange(i as int + 1, n as int));
            assert(TokState {
                done: done.deep_view(),
                cur: cur@,
                started,
                in_quote,
                escaped,
            } =~~= tok_step(st, c));
        }
        i = i + 1;
    }
    proof {
        assert(s@.subrange(i as int, n as int).len() == 0);
    }
    if started {
        done.push(cur);
        proof {
            assert(done.deep_view() =~~= spec_tokenize(s@));
        }
    } else {
        proof {
            assert(done.deep_view() =~~= spec_tokenize(s@));
        }
    }
    done
}

/// What joining a token sequence with single spaces yields.
pub open spec fn spec_join(ts: Seq<Seq<char>>) -> Seq<char>
    decreases ts.len(),
{
    if ts.len() == 0 {
        Seq::empty()
    } else if ts.len() == 1 {
        ts[0]
    } else {
        spec_join(ts.drop_last()) + seq![' '] + ts.last()
    }
}

/// Joins tokens with single spaces, reconstructing a normalized argument
/// line.
pub fn join_tokens(tokens: &Vec<String>) -> (r: String)
    ensures
        r@ == spec_join(tokens.deep_view()),
{
    let n = tokens.len();
    if n == 0 {
        return String::new();
    }
    let mut r: String = tokens[0].clone();
    proof {
        assert(tokens.deep_view().take(1) =~= seq![tokens.deep_view()[0]]);
    }
    let mut i: usize = 1;
    while i < n
        invariant
            1 <= i <= n == tokens.len(),
            r@ == spec_join(tokens.deep_view().take(i as int)),
        decreases n - i,
    {
        push_char(&mut r, ' ');
        r.append(tokens[i].as_str());
        proof {
            let dv = tokens.deep_view();
            assert(dv.take(i as int + 1).drop_last() =~= dv.take(i as int));
            assert(dv.take(i as int + 1).last() == dv[i as int]);
            assert(r@ =~= spec_join(dv.take(i as int)) + seq![' '] + dv[i as int]);
        }
        i = i + 1;
    }
    proof {
        assert(tokens.deep_view().take(i as int) =~= tokens.deep_view());
    }
    r
}

/// Whether every character of `t` is free of separators, quotes and escapes.
pub open spec fn plain_chars(t: Seq<char>) -> bool {
    forall|i: int|
        0 <= i < t.len() ==> #[trigger] t[i] != ' ' && t[i] != '"' && t[i] != '\\'
}

/// A token that survives a join/re-tokenize round trip: nonempty, and free of
/// spaces, quote characters and backslashes.
pub open spec fn plain_token(t: Seq<char>) -> bool {
    t.len() > 0 && plain_chars(t)
}

proof fn lemma_tok_run_concat(st: TokState, s1: Seq<char>, s2: Seq<char>)
    ensures
        tok_run_from(st, s1 + s2) == tok_run_from(tok_run_from(st, s1), s2),
    decreases s1.len(),
{
    if s1.len() == 0 {
        assert(s1 + s2 =~= s2);
    } else {
        assert((s1 + s2)[0] == s1[0]);
        assert((s1 + s2).subrange(1, (s1 + s2).len() as int) =~= s1.subrange(
            1,
            s1.len() as int,
        ) + s2);
        lemma_tok_run_concat(tok_step(st, s1[0]), s1.subrange(1, s1.len() as int), s2);
    }
}

proof fn lemma_tok_run_plain(st: TokState, t: Seq<char>)
    requires
        !st.in_quote,
        !st.escaped,
        plain_chars(t),
    ensures
        tok_run_from(st, t).done == st.done,
        tok_run_from(st, t).cur == st.cur + t,
        tok_run_from(st, t).started == (st.started || t.len() > 0),
        !tok_run_from(st, t).in_quote,
        !tok_run_from(st, t).escaped,
    decreases t.len(),
{
    if t.len() == 0 {
        assert(st.cur + t =~= st.cur);
    } else {
        let st1 = tok_step(st, t[0]);
        let rest = t.subrange(1, t.len() as int);
        assert(plain_chars(rest)) by {
            assert(forall|i: int| 0 <= i < rest.len() ==> #[trigger] rest[i] == t[i + 1]);
        }
        lemma_tok_run_plain(st1, rest);
        assert(st1.cur + rest =~= st.cur + t);
    }
}

proof fn lemma_run_join(st: TokState, ts: Seq<Seq<char>>)
    requires
        !st.in_quote,
        !st.escaped,
        !st.started,
        st.cur == Seq::<char>::empty(),
        ts.len() > 0,
        forall|i: int| 0 <= i < ts.len() ==> plain_token(#[trigger] ts[i]),
    ensures
        tok_run_from(st, spec_join(ts)).done == st.done + ts.drop_last(),
        tok_run_from(st, spec_join(ts)).cur == ts.last(),
        tok_run_from(st, spec_join(ts)).started,
        !tok_run_from(st, spec_join(ts)).in_quote,
        !tok_run_from(st, spec_join(ts)).escaped,
    decreases ts.len(),
{
    if ts.len() == 1 {
        lemma_tok_run_plain(st, ts[0]);
        assert(st.cur + ts[0] =~= ts[0]);
        assert(st.done + ts.drop_last() =~= st.done);
    } else {
        let tsdl = ts.drop_last();
        assert(forall|i: int| 0 <= i < tsdl.len() ==> #[trigger] tsdl[i] == ts[i]);
        let j1 = spec_join(tsdl);
        assert(spec_join(ts) == j1 + seq![' '] + ts.last());
        lemma_tok_run_concat(st, j1 + seq![' '], ts.last());
        lemma_tok_run_concat(st, j1, seq![' ']);
        assert(tok_run_from(st, (j1 + seq![' ']) + ts.last()) == tok_run_from(
            tok_run_from(tok_run_from(st, j1), seq![' ']),
            ts.last(),
        ));
        lemma_run_join(st, tsdl);
        let st1 = tok_run_from(st, j1);
        let sp: Seq<char> = seq![' '];
        assert(sp.subrange(1, 1) =~= Seq::<char>::empty());
        assert(tok_run_from(st1, sp) == tok_step(st1, ' ')) by {
            reveal_with_fuel(tok_run_from, 2);
        }
        let st2 = tok_step(st1, ' ');
        assert(st2.done =~= st.done + ts.drop_last()) by {
            assert(st2.done == (st.done + tsdl.drop_last()).push(tsdl.last()));
        }
        lemma_tok_run_plain(st2, ts.last());
        let stf = tok_run_from(st2, ts.last());
        assert(stf.cur =~= ts.last()) by {
            assert(st2.cur + ts.last() =~= ts.last());
        }
        assert(tok_run_from(st, spec_join(ts)) == stf) by {
            assert((j1 + seq![' ']) + ts.last() =~= spec_join(ts));
        }
    }
}

/// Joining a token sequence with single spaces and re-tokenizing yields the
/// same sequence, provided every token is nonempty and free of spaces, quote
/// characters and backslashes.
pub proof fn lemma_join_tokenize_round_trip(ts: Seq<Seq<char>>)
    requires
        forall|i: int| 0 <= i < ts.len() ==> plain_token(#[trigger] ts[i]),
    ensures
        spec_tokenize(spec_join(ts)) == ts,
{
    if ts.len() == 0 {
        assert(spec_tokenize(spec_join(ts)) =~= ts);
    } else {
        lemma_run_join(tok_init(), ts);
        let stf = tok_run_from(tok_init(), spec_join(ts));
        assert(stf.done =~= ts.drop_last()) by {
            assert(Seq::<Seq<char>>::empty() + ts.drop_last() =~= ts.drop_last());
        }
        assert(spec_tokenize(spec_join(ts)) == stf.done.push(stf.cur));
        assert(stf.done.push(stf.cur) =~= ts);
    }
}

} // verus!
