//! The tokenizer engine: a stack machine that walks the text line by line,
//! picks the winning rule of the active context, emits scope spans as a
//! persistent backward-linked node history, and resumes after an edit from
//! the retained prefix of that history.

use vstd::prelude::*;
use crate::syntax::Syntax;
use crate::syntax::Context;
use crate::syntax::ContextElement;
use crate::syntax::Match;
use crate::syntax::MatchAction;
use crate::syntax::MatchValue;
use crate::syntax::Scope;
use crate::syntax::BUILD_DEPTH;
use crate::pattern::captures_spans;
use crate::pattern::span_within;
use crate::pattern::spans_view;

verus! {

/// One frame of the context stack: a named context, or an anonymous one by
/// arena index.
#[derive(Debug)]
pub enum StackValue {
    Name(String),
    Anon(usize),
}

impl StackValue {
    pub fn duplicate(&self) -> (r: StackValue)
        ensures
            r == *self,
    {
        match self {
            StackValue::Name(s) => StackValue::Name(s.clone()),
            StackValue::Anon(i) => StackValue::Anon(*i),
        }
    }
}

/// The mathematical shape of a stack frame: the name's characters, or the
/// arena index.
pub enum GStackVal {
    Named(Seq<char>),
    Anon(int),
}

pub open spec fn sv_view(v: StackValue) -> GStackVal {
    match v {
        StackValue::Name(s) => GStackVal::Named(s@),
        StackValue::Anon(i) => GStackVal::Anon(i as int),
    }
}

pub open spec fn stack_view(s: Seq<StackValue>) -> Seq<GStackVal> {
    s.map(|i: int, v: StackValue| sv_view(v))
}

pub fn dup_stack(v: &Vec<StackValue>) -> (r: Vec<StackValue>)
    ensures
        r@ == v@,
{
    let mut out: Vec<StackValue> = Vec::new();
    let n: usize = v.len();
    let mut i: usize = 0;
    while i < n
        invariant
            n == v@.len(),
            i <= n,
            out@ == v@.subrange(0, i as int),
        decreases n - i,
    {
        let ghost prev = out@;
        out.push(v[i].duplicate());
        i = i + 1;
        assert(out@ =~= v@.subrange(0, i as int)) by {
            assert(out@ == prev + seq![v@[i - 1]]);
            assert(v@.subrange(0, i - 1) + seq![v@[i - 1]] =~= v@.subrange(0, i as int));
        }
    }
    assert(v@.subrange(0, n as int) =~= v@);
    out
}

/// A resolved reference to a context of the grammar.
#[derive(Debug, Clone, Copy, PartialEq, Eq, Structural)]
pub enum CtxRef {
    Named(usize),
    Anon(usize),
}

/// The first named context called `name`, scanning from `i`.
pub open spec fn lookup_ctx(ctxs: Seq<(String, Context)>, name: Seq<char>, i: int) -> Option<int>
    decreases ctxs.len() - i,
{
    if i < 0 || i >= ctxs.len() {
        None
    } else if ctxs[i].0@ == name {
        Some(i)
    } else {
        lookup_ctx(ctxs, name, i + 1)
    }
}

pub open spec fn cref_valid(s: Syntax, c: CtxRef) -> bool {
    match c {
        CtxRef::Named(i) => i < s.contexts@.len(),
        CtxRef::Anon(i) => i < s.anon_contexts@.len(),
    }
}

pub open spec fn ctx_of(s: Syntax, c: CtxRef) -> Context {
    match c {
        CtxRef::Named(i) => s.contexts@[i as int].1,
        CtxRef::Anon(i) => s.anon_contexts@[i as int],
    }
}

/// Resolving a stack frame to its context, if it exists.
pub open spec fn resolve_sval(s: Syntax, v: GStackVal) -> Option<CtxRef> {
    match v {
        GStackVal::Named(name) => match lookup_ctx(s.contexts@, name, 0) {
            Some(i) => Some(CtxRef::Named(i as usize)),
            None => None,
        },
        GStackVal::Anon(i) => if 0 <= i < s.anon_contexts@.len() {
            Some(CtxRef::Anon(i as usize))
        } else {
            None
        },
    }
}

/// Finds the first named context called `name`.
fn lookup_context(s: &Syntax, name: &String) -> (r: Option<usize>)
    ensures
        match r {
            Some(i) => lookup_ctx(s.contexts@, name@, 0) == Some(i as int),
            None => lookup_ctx(s.contexts@, name@, 0) is None,
        },
{
    let n: usize = s.contexts.len();
    let mut i: usize = 0;
    while i < n
        invariant
            n == s.contexts@.len(),
            i <= n,
            lookup_ctx(s.contexts@, name@, 0) == lookup_ctx(s.contexts@, name@, i as int),
        decreases n - i,
    {
        if s.contexts[i].0 == *name {
            return Some(i);
        }
        i = i + 1;
    }
    None
}

/// Resolves the top of the stack to a context reference.
fn resolve_top(s: &Syntax, v: &StackValue) -> (r: Option<CtxRef>)
    ensures
        r == resolve_sval(*s, sv_view(*v)),
        r matches Some(c) ==> cref_valid(*s, c),
{
    match v {
        StackValue::Name(name) => match lookup_context(s, name) {
            Some(i) => {
                proof {
                    lemma_lookup_in_range(s.contexts@, name@, 0);
                }
                Some(CtxRef::Named(i))
            },
            None => None,
        },
        StackValue::Anon(i) => {
            if *i < s.anon_contexts.len() {
                Some(CtxRef::Anon(*i))
            } else {
                None
            }
        },
    }
}

fn get_context<'a>(s: &'a Syntax, c: CtxRef) -> (r: &'a Context)
    requires
        cref_valid(*s, c),
    ensures
        *r == ctx_of(*s, c),
{
    match c {
        CtxRef::Named(i) => &s.contexts[i].1,
        CtxRef::Anon(i) => &s.anon_contexts[i],
    }
}

/// A candidate rule: a context and the index of a `Match` element in it.
#[derive(Debug, Clone, Copy, PartialEq, Eq, Structural)]
pub struct MRef {
    pub ctx: CtxRef,
    pub elem: usize,
}

pub open spec fn mref_ok(s: Syntax, m: MRef) -> bool {
    &&& cref_valid(s, m.ctx)
    &&& (m.elem as int) < ctx_of(s, m.ctx).elements@.len()
    &&& ctx_of(s, m.ctx).elements@[m.elem as int] is Match
}

pub open spec fn match_of(s: Syntax, m: MRef) -> Match {
    ctx_of(s, m.ctx).elements@[m.elem as int]->Match_0
}

/// How deep include expansion may recurse before an include is skipped as a
/// resolution error.
pub const INCLUDE_DEPTH: u32 = 32;

/// Every rule reachable from context `c` starting at element `i`: rules in
/// declaration order, includes expanded depth-first at the point of
/// inclusion, an unknown include skipped, expansion cut off below `depth`.
pub open spec fn flat_elems(s: Syntax, c: CtxRef, i: int, depth: nat) -> Seq<MRef>
    decreases depth, ctx_of(s, c).elements@.len() - i,
{
    let elems = ctx_of(s, c).elements@;
    if i < 0 || i >= elems.len() {
        Seq::empty()
    } else {
        match elems[i] {
            ContextElement::Match(_) => seq![MRef { ctx: c, elem: i as usize }] + flat_elems(
                s,
                c,
                i + 1,
                depth,
            ),
            ContextElement::Include(name) => (if depth > 0 {
                match lookup_ctx(s.contexts@, name@, 0) {
                    Some(j) => flat_elems(s, CtxRef::Named(j as usize), 0, (depth - 1) as nat),
                    None => Seq::empty(),
                }
            } else {
                Seq::empty()
            }) + flat_elems(s, c, i + 1, depth),
        }
    }
}

pub open spec fn flat_ctx(s: Syntax, c: CtxRef) -> Seq<MRef> {
    flat_elems(s, c, 0, INCLUDE_DEPTH as nat)
}

/// A successful lookup returns an index into the context list.
proof fn lemma_lookup_in_range(ctxs: Seq<(String, Context)>, name: Seq<char>, i: int)
    ensures
        match lookup_ctx(ctxs, name, i) {
            Some(j) => 0 <= j < ctxs.len(),
            None => true,
        },
    decreases ctxs.len() - i,
{
    if i < 0 || i >= ctxs.len() {
    } else if ctxs[i].0@ == name {
    } else {
        lemma_lookup_in_range(ctxs, name, i + 1);
    }
}

/// Collects every rule reachable from `c`, in resolution order.
fn flatten_into(s: &Syntax, c: CtxRef, depth: u32, out: &mut Vec<MRef>)
    requires
        cref_valid(*s, c),
    ensures
        final(out)@ == old(out)@ + flat_elems(*s, c, 0, depth as nat),
        forall|k: int|
            old(out)@.len() <= k < final(out)@.len() ==> mref_ok(*s, #[trigger] final(out)@[k]),
    decreases depth,
{
    let ctx = get_context(s, c);
    let n: usize = ctx.elements.len();
    let mut i: usize = 0;
    while i < n
        invariant
            cref_valid(*s, c),
            *ctx == ctx_of(*s, c),
            n == ctx.elements@.len(),
            i <= n,
            old(out)@ + flat_elems(*s, c, 0, depth as nat) == out@ + flat_elems(
                *s,
                c,
                i as int,
                depth as nat,
            ),
            forall|k: int| old(out)@.len() <= k < out@.len() ==> mref_ok(*s, #[trigger] out@[k]),
        decreases n - i,
    {
        let ghost gi = i as int;
        match &ctx.elements[i] {
            ContextElement::Match(_) => {
                out.push(MRef { ctx: c, elem: i });
                proof {
                    let rest = flat_elems(*s, c, gi + 1, depth as nat);
                    assert(flat_elems(*s, c, gi, depth as nat) == seq![
                        MRef { ctx: c, elem: gi as usize },
                    ] + rest);
                    assert(out@ + rest =~= out@.drop_last() + (seq![
                        MRef { ctx: c, elem: gi as usize },
                    ] + rest));
                }
            },
            ContextElement::Include(name) => {
                if depth > 0 {
                    match lookup_context(s, name) {
                        Some(j) => {
                            proof {
                                lemma_lookup_in_range(s.contexts@, name@, 0);
                            }
                            flatten_into(s, CtxRef::Named(j), depth - 1, out);
                            proof {
                                let inc = flat_elems(
                                    *s,
                                    CtxRef::Named(j as usize),
                                    0,
                                    (depth - 1) as nat,
                                );
                                let rest = flat_elems(*s, c, gi + 1, depth as nat);
                                assert(flat_elems(*s, c, gi, depth as nat) == inc + rest);
                                assert(out@ + rest =~= out@.subrange(
                                    0,
                                    out@.len() - inc.len(),
                                ) + (inc + rest));
                            }
                        },
                        None => {
                            proof {
                                assert(flat_elems(*s, c, gi, depth as nat)
                                    == Seq::<MRef>::empty() + flat_elems(
                                    *s,
                                    c,
                                    gi + 1,
                                    depth as nat,
                                ));
                                assert(Seq::<MRef>::empty() + flat_elems(*s, c, gi + 1, depth as nat)
                                    =~= flat_elems(*s, c, gi + 1, depth as nat));
                            }
                        },
                    }
                } else {
                    proof {
                        assert(flat_elems(*s, c, gi, depth as nat) == Seq::<MRef>::empty()
                            + flat_elems(*s, c, gi + 1, depth as nat));
                        assert(Seq::<MRef>::empty() + flat_elems(*s, c, gi + 1, depth as nat)
                            =~= flat_elems(*s, c, gi + 1, depth as nat));
                    }
                }
            },
        }
        i = i + 1;
    }
    proof {
        assert(flat_elems(*s, c, n as int, depth as nat) =~= Seq::<MRef>::empty());
        assert(out@ + Seq::<MRef>::empty() =~= out@);
    }
}

fn get_match<'a>(s: &'a Syntax, m: MRef) -> (r: &'a Match)
    requires
        mref_ok(*s, m),
    ensures
        *r == match_of(*s, m),
{
    let ctx = get_context(s, m.ctx);
    match &ctx.elements[m.elem] {
        ContextElement::Match(mm) => mm,
        ContextElement::Include(_) => vstd::pervasive::unreached(),
    }
}

} // verus!

verus! {

/// One emitted span, mathematically: a scope (by characters) and an
/// absolute byte range.
pub struct GSpan {
    pub scope: Option<Seq<char>>,
    pub lo: int,
    pub hi: int,
}

pub open spec fn scope_view(s: Option<Scope>) -> Option<Seq<char>> {
    match s {
        Some(sc) => Some(sc.name@),
        None => None,
    }
}

/// One emitted span, executably.
#[derive(Debug)]
pub struct ScopeMatch {
    pub scope: Option<Scope>,
    pub lo: usize,
    pub hi: usize,
}

pub open spec fn sm_view(sm: ScopeMatch) -> GSpan {
    GSpan { scope: scope_view(sm.scope), lo: sm.lo as int, hi: sm.hi as int }
}

pub open spec fn sms_view(v: Seq<ScopeMatch>) -> Seq<GSpan> {
    v.map(|i: int, sm: ScopeMatch| sm_view(sm))
}

/// One past the end of the line starting at `i`: just after the next
/// newline, or the end of the text.
pub open spec fn line_end(text: Seq<u8>, i: int) -> int
    decreases text.len() - i,
{
    if i < 0 || i >= text.len() {
        text.len() as int
    } else if text[i] == 10u8 {
        i + 1
    } else {
        line_end(text, i + 1)
    }
}

pub open spec fn is_space(b: u8) -> bool {
    b == 32u8 || b == 9u8 || b == 10u8 || b == 13u8
}

pub open spec fn is_blank(line: Seq<u8>) -> bool {
    forall|i: int| 0 <= i < line.len() ==> is_space(#[trigger] line[i])
}

pub open spec fn span_start_of(o: Option<(int, int)>) -> int {
    match o {
        Some(p) => p.0,
        None => 0,
    }
}

pub open spec fn span_end_of(o: Option<(int, int)>) -> int {
    match o {
        Some(p) => p.1,
        None => 0,
    }
}

/// What searching the line with candidate `m`'s pattern returns.
pub open spec fn cand_caps(s: Syntax, line: Seq<u8>, m: MRef) -> Option<Seq<Option<(int, int)>>> {
    captures_spans(match_of(s, m).regex.src_spec(), line)
}

/// A candidate can win if its pattern matches and the match either ends
/// past the start of the line or carries an action — a zero-width match at
/// the very start with no action changes nothing and is ignored.
pub open spec fn eligible(s: Syntax, line: Seq<u8>, m: MRef) -> bool {
    match cand_caps(s, line, m) {
        Some(cs) => cs.len() >= 1 && cs[0] is Some && (span_end_of(cs[0]) > 0 || match_of(
            s,
            m,
        ).action is Some),
        None => false,
    }
}

pub open spec fn cand_start(s: Syntax, line: Seq<u8>, m: MRef) -> int {
    span_start_of(cand_caps(s, line, m)->Some_0[0])
}

/// The scan for the winning candidate: the first (in resolution order)
/// whose match starts earliest; a later candidate displaces the held one
/// only by starting strictly earlier.
pub open spec fn pick_loop(
    s: Syntax,
    line: Seq<u8>,
    cands: Seq<MRef>,
    i: int,
    best: Option<int>,
) -> Option<int>
    decreases cands.len() - i,
{
    if i < 0 || i >= cands.len() {
        best
    } else {
        let better = eligible(s, line, cands[i]) && (match best {
            None => true,
            Some(b) => cand_start(s, line, cands[i]) < cand_start(s, line, cands[b]),
        });
        pick_loop(s, line, cands, i + 1, if better { Some(i) } else { best })
    }
}

pub open spec fn pick(s: Syntax, line: Seq<u8>, cands: Seq<MRef>) -> Option<int> {
    pick_loop(s, line, cands, 0, None)
}

/// Slices the winning match's range at its capture boundaries: each usable
/// capture gets its declared scope, gaps get the fallback scope, captures
/// that overlap an earlier one or leave the match window are skipped.
pub open spec fn slice_caps(
    caps: Seq<Option<(int, int)>>,
    cscopes: Seq<Scope>,
    fb: Option<Seq<char>>,
    offset: int,
    cursor: int,
    amend: int,
    k: int,
) -> Seq<GSpan>
    decreases cscopes.len() - k,
{
    if k < 0 || k >= cscopes.len() || k + 1 >= caps.len() {
        if cursor < amend {
            seq![GSpan { scope: fb, lo: cursor, hi: amend }]
        } else {
            Seq::empty()
        }
    } else {
        match caps[k + 1] {
            None => slice_caps(caps, cscopes, fb, offset, cursor, amend, k + 1),
            Some(p) => {
                let als = offset + p.0;
                let ale = offset + p.1;
                if cursor <= als && als <= ale && ale <= amend {
                    (if als > cursor {
                        seq![GSpan { scope: fb, lo: cursor, hi: als }]
                    } else {
                        Seq::empty()
                    }) + seq![GSpan { scope: Some(cscopes[k].name@), lo: als, hi: ale }]
                        + slice_caps(caps, cscopes, fb, offset, ale, amend, k + 1)
                } else {
                    slice_caps(caps, cscopes, fb, offset, cursor, amend, k + 1)
                }
            },
        }
    }
}

/// The spans of a winning match: leading text before the match gets the
/// context's meta scope, the match itself is sliced at capture boundaries
/// with the rule's scope (else the meta scope) as fallback; a match with
/// no capture spans yields a single span over its whole range.
pub open spec fn winner_spans(
    s: Syntax,
    cref: CtxRef,
    line: Seq<u8>,
    offset: int,
    m: MRef,
) -> Seq<GSpan> {
    let ctx = ctx_of(s, cref);
    let mm = match_of(s, m);
    let caps = cand_caps(s, line, m)->Some_0;
    let astart = offset + span_start_of(caps[0]);
    let amend = offset + span_end_of(caps[0]);
    let fb = if mm.scope is Some {
        scope_view(mm.scope)
    } else {
        scope_view(ctx.meta_scope)
    };
    let cscopes = match mm.captures {
        Some(cs) => cs@,
        None => Seq::empty(),
    };
    let body = slice_caps(caps, cscopes, fb, offset, astart, amend, 0);
    let body2 = if body.len() == 0 {
        seq![GSpan { scope: fb, lo: astart, hi: amend }]
    } else {
        body
    };
    let lead = if astart > offset {
        seq![GSpan { scope: scope_view(ctx.meta_scope), lo: offset, hi: astart }]
    } else {
        Seq::empty()
    };
    lead + body2
}

/// What one selection step yields: the winning rule's action, and the
/// spans covering the text from the cursor to the end of the match.
pub struct ConsumeResult {
    pub action: Option<MatchAction>,
    pub spans: Seq<GSpan>,
}

/// The match-selection step at `cursor`: a blank line yields one unscoped
/// span and no action; otherwise every rule reachable from the context is
/// tried against the line, the earliest match wins (declaration order
/// breaking ties), and its range is sliced into scope spans; if no rule
/// matches, the whole line becomes one unscoped span.
#[verifier::opaque]
pub open spec fn consume_spec(s: Syntax, cref: CtxRef, text: Seq<u8>, cursor: int) -> ConsumeResult {
    let le = line_end(text, cursor);
    let line = text.subrange(cursor, le);
    if is_blank(line) {
        ConsumeResult { action: None, spans: seq![GSpan { scope: None, lo: cursor, hi: le }] }
    } else {
        let cands = flat_ctx(s, cref);
        match pick(s, line, cands) {
            None => ConsumeResult {
                action: None,
                spans: seq![GSpan { scope: None, lo: cursor, hi: le }],
            },
            Some(w) => ConsumeResult {
                action: match_of(s, cands[w]).action,
                spans: winner_spans(s, cref, line, cursor, cands[w]),
            },
        }
    }
}

} // verus!

verus! {

/// Spans forming a contiguous non-overlapping cover of `[lo, hi)`.
pub open spec fn spans_chained(ss: Seq<ScopeMatch>, lo: int, hi: int) -> bool {
    &&& (ss.len() == 0 ==> lo == hi)
    &&& (ss.len() > 0 ==> ss[0].lo == lo && ss.last().hi == hi)
    &&& forall|i: int| 0 <= i < ss.len() ==> (#[trigger] ss[i]).lo <= ss[i].hi
    &&& forall|i: int| 0 <= i < ss.len() - 1 ==> (#[trigger] ss[i]).hi == ss[i + 1].lo
}

proof fn lemma_chain_concat(a: Seq<ScopeMatch>, b: Seq<ScopeMatch>, lo: int, mid: int, hi: int)
    requires
        spans_chained(a, lo, mid),
        spans_chained(b, mid, hi),
    ensures
        spans_chained(a + b, lo, hi),
{
    let c = a + b;
    assert forall|i: int| 0 <= i < c.len() implies (#[trigger] c[i]).lo <= c[i].hi by {
        if i < a.len() {
            assert(c[i] == a[i]);
        } else {
            assert(c[i] == b[i - a.len()]);
        }
    }
    assert forall|i: int| 0 <= i < c.len() - 1 implies (#[trigger] c[i]).hi == c[i + 1].lo by {
        if i + 1 < a.len() {
            assert(c[i] == a[i] && c[i + 1] == a[i + 1]);
        } else if i + 1 == a.len() {
            if b.len() > 0 && a.len() > 0 {
                assert(c[i] == a[i] && c[i + 1] == b[0]);
            }
        } else {
            assert(c[i] == b[i - a.len()] && c[i + 1] == b[i + 1 - a.len()]);
        }
    }
    if c.len() > 0 {
        if a.len() == 0 {
            assert(c =~= b);
        } else if b.len() == 0 {
            assert(c =~= a);
        } else {
            assert(c[0] == a[0]);
            assert(c.last() == b.last());
        }
    }
}

proof fn lemma_sms_push(v: Seq<ScopeMatch>, x: ScopeMatch)
    ensures
        sms_view(v.push(x)) == sms_view(v) + seq![sm_view(x)],
{
    assert(sms_view(v.push(x)) =~= sms_view(v) + seq![sm_view(x)]);
}

proof fn lemma_sms_concat(a: Seq<ScopeMatch>, b: Seq<ScopeMatch>)
    ensures
        sms_view(a + b) == sms_view(a) + sms_view(b),
{
    assert(sms_view(a + b) =~= sms_view(a) + sms_view(b));
}

fn dup_opt_scope(s: &Option<Scope>) -> (r: Option<Scope>)
    ensures
        r == *s,
{
    match s {
        Some(sc) => Some(sc.duplicate()),
        None => None,
    }
}

/// Finds the end of the line starting at `i`.
fn find_line_end(text: &[u8], i: usize) -> (r: usize)
    requires
        i <= text@.len(),
    ensures
        r == line_end(text@, i as int),
        i <= r <= text@.len(),
        i < text@.len() ==> r > i,
{
    let n: usize = text.len();
    let mut j: usize = i;
    while j < n
        invariant
            n == text@.len(),
            i <= j <= n,
            line_end(text@, i as int) == line_end(text@, j as int),
        decreases n - j,
    {
        if text[j] == 10u8 {
            return j + 1;
        }
        j = j + 1;
    }
    n
}

/// Whether the line holds only whitespace.
fn blank_line(line: &[u8]) -> (r: bool)
    ensures
        r == is_blank(line@),
{
    let n: usize = line.len();
    let mut i: usize = 0;
    while i < n
        invariant
            n == line@.len(),
            i <= n,
            forall|k: int| 0 <= k < i ==> is_space(#[trigger] line@[k]),
        decreases n - i,
    {
        let b = line[i];
        if !(b == 32u8 || b == 9u8 || b == 10u8 || b == 13u8) {
            return false;
        }
        i = i + 1;
    }
    true
}

pub open spec fn obest(b: Option<usize>) -> Option<int> {
    match b {
        Some(x) => Some(x as int),
        None => None,
    }
}

pub open spec fn action_matches(a: Option<MatchAction>, r: Option<&MatchAction>) -> bool {
    match r {
        Some(x) => a == Some(*x),
        None => a is None,
    }
}

/// Builds the spans of the winning rule `gm`, whose capture result is
/// `best_caps`: leading meta-scope text, then the match sliced at its
/// capture boundaries.
#[verifier::rlimit(100)]
fn build_winner_spans(
    s: &Syntax,
    cref: CtxRef,
    text: &[u8],
    cursor: usize,
    le: usize,
    m: &Match,
    best_caps: &Vec<Option<(usize, usize)>>,
    Ghost(gline): Ghost<Seq<u8>>,
    Ghost(gm): Ghost<MRef>,
) -> (spans: Vec<ScopeMatch>)
    requires
        cref_valid(*s, cref),
        (cursor as int) < text@.len(),
        le == line_end(text@, cursor as int),
        cursor < le <= text@.len(),
        gline == text@.subrange(cursor as int, le as int),
        mref_ok(*s, gm),
        *m == match_of(*s, gm),
        cand_caps(*s, gline, gm) == Some(spans_view(best_caps@)),
        best_caps@.len() >= 1,
        best_caps@[0] is Some,
        forall|t: int|
            0 <= t < best_caps@.len() ==> span_within(#[trigger] best_caps@[t], gline.len() as int),
    ensures
        sms_view(spans@) == winner_spans(*s, cref, gline, cursor as int, gm),
        spans@.len() >= 1,
        spans_chained(spans@, cursor as int, spans@.last().hi as int),
        spans@.last().hi as int == cursor + span_end_of(spans_view(best_caps@)[0]),
        spans@.last().hi <= text@.len(),
{
    let n: usize = text.len();
    let ghost gcaps = spans_view(best_caps@);
            let ctx = get_context(s, cref);
            let (g0s, g0e): (usize, usize) = match best_caps[0] {
                Some(p) => p,
                None => {
                    proof {
                        assert(false);
                    }
                    (0, 0)
                },
            };
            let astart: usize = cursor + g0s;
            let amend: usize = cursor + g0e;
            let ghost gastart = astart as int;
            let ghost gamend = amend as int;
            let fb: Option<Scope> = match &m.scope {
                Some(sc) => Some(sc.duplicate()),
                None => dup_opt_scope(&ctx.meta_scope),
            };
            let ghost gfb = scope_view(fb);
            let empty_cs: Vec<Scope> = Vec::new();
            let cs_ref: &Vec<Scope> = match &m.captures {
                Some(cs) => cs,
                None => &empty_cs,
            };
            let ghost gcs = cs_ref@;
            proof {
                assert(gcs == match match_of(*s, gm).captures {
                    Some(cs) => cs@,
                    None => Seq::<Scope>::empty(),
                });
                assert(gfb == if match_of(*s, gm).scope is Some {
                    scope_view(match_of(*s, gm).scope)
                } else {
                    scope_view(ctx_of(*s, cref).meta_scope)
                });
            }
            let mut lead: Vec<ScopeMatch> = Vec::new();
            if astart > cursor {
                lead.push(
                    ScopeMatch { scope: dup_opt_scope(&ctx.meta_scope), lo: cursor, hi: astart },
                );
            }
            proof {
                assert(sms_view(lead@) =~= (if astart as int > cursor as int {
                    seq![
                        GSpan {
                            scope: scope_view(ctx_of(*s, cref).meta_scope),
                            lo: cursor as int,
                            hi: astart as int,
                        },
                    ]
                } else {
                    Seq::<GSpan>::empty()
                }));
            }
            let mut body: Vec<ScopeMatch> = Vec::new();
            let mut cur: usize = astart;
            let ncs: usize = cs_ref.len();
            let mut k: usize = 0;
            while k < ncs && k + 1 < best_caps.len()
                invariant
                    n == text@.len(),
                    ncs == gcs.len(),
                    k <= ncs,
                    gcs == cs_ref@,
                    gfb == scope_view(fb),
                    gastart == astart as int,
                    gamend == amend as int,
                    gcaps == spans_view(best_caps@),
                    best_caps@.len() >= 1,
                    forall|t: int|
                        0 <= t < best_caps@.len() ==> span_within(
                            #[trigger] best_caps@[t],
                            gline.len() as int,
                        ),
                    gline.len() == line_end(text@, cursor as int) - cursor,
                    gastart <= cur as int <= gamend,
                    gamend <= cursor + gline.len(),
                    cursor as int + gline.len() <= text@.len(),
                    slice_caps(gcaps, gcs, gfb, cursor as int, gastart, gamend, 0) == sms_view(
                        body@,
                    ) + slice_caps(gcaps, gcs, gfb, cursor as int, cur as int, gamend, k as int),
                    spans_chained(body@, gastart, cur as int),
                decreases ncs - k,
            {
                let ghost gk = k as int;
                let ghost body0 = body@;
                let ghost cur0 = cur as int;
                match best_caps[k + 1] {
                    Some(p) => {
                        proof {
                            assert(gcaps[gk + 1] == Some((p.0 as int, p.1 as int)));
                            assert(span_within(best_caps@[gk + 1], gline.len() as int));
                        }
                        let als: usize = cursor + p.0;
                        let ale: usize = cursor + p.1;
                        if cur <= als && als <= ale && ale <= amend {
                            let cap_sm = ScopeMatch {
                                scope: Some(cs_ref[k].duplicate()),
                                lo: als,
                                hi: ale,
                            };
                            let ghost gap_seq: Seq<ScopeMatch> = if als > cur0 {
                                seq![ScopeMatch { scope: fb, lo: cur, hi: als }]
                            } else {
                                Seq::<ScopeMatch>::empty()
                            };
                            let ghost cap_seq: Seq<ScopeMatch> = seq![cap_sm];
                            if als > cur {
                                body.push(
                                    ScopeMatch { scope: dup_opt_scope(&fb), lo: cur, hi: als },
                                );
                            }
                            body.push(cap_sm);
                            proof {
                                assert(body@ =~= body0 + gap_seq + cap_seq);
                                lemma_sms_concat(body0 + gap_seq, cap_seq);
                                lemma_sms_concat(body0, gap_seq);
                                assert(sms_view(gap_seq) =~= (if als > cur0 {
                                    seq![GSpan { scope: gfb, lo: cur0, hi: als as int }]
                                } else {
                                    Seq::<GSpan>::empty()
                                }));
                                assert(sms_view(cap_seq) =~= seq![
                                    GSpan {
                                        scope: Some(gcs[gk].name@),
                                        lo: als as int,
                                        hi: ale as int,
                                    },
                                ]);
                                assert(slice_caps(gcaps, gcs, gfb, cursor as int, cur0, gamend, gk)
                                    == (if als > cur0 {
                                    seq![GSpan { scope: gfb, lo: cur0, hi: als as int }]
                                } else {
                                    Seq::<GSpan>::empty()
                                }) + seq![
                                    GSpan {
                                        scope: Some(gcs[gk].name@),
                                        lo: als as int,
                                        hi: ale as int,
                                    },
                                ] + slice_caps(
                                    gcaps,
                                    gcs,
                                    gfb,
                                    cursor as int,
                                    ale as int,
                                    gamend,
                                    gk + 1,
                                ));
                                lemma_chain_concat(body0, gap_seq, gastart, cur0, als as int);
                                lemma_chain_concat(
                                    body0 + gap_seq,
                                    cap_seq,
                                    gastart,
                                    als as int,
                                    ale as int,
                                );
                            }
                            cur = ale;
                        }
                    },
                    None => {
                    },
                }
                proof {
                    assert(slice_caps(gcaps, gcs, gfb, cursor as int, gastart, gamend, 0)
                        =~= sms_view(body@) + slice_caps(
                        gcaps,
                        gcs,
                        gfb,
                        cursor as int,
                        cur as int,
                        gamend,
                        gk + 1,
                    ));
                }
                k = k + 1;
            }
            proof {
                assert(slice_caps(gcaps, gcs, gfb, cursor as int, gastart, gamend, 0)
                    =~= sms_view(body@) + (if (cur as int) < gamend {
                    seq![GSpan { scope: gfb, lo: cur as int, hi: gamend }]
                } else {
                    Seq::<GSpan>::empty()
                }));
            }
    finish_winner_spans(
        s,
        cref,
        lead,
        body,
        fb,
        cur,
        astart,
        amend,
        cursor,
        Ghost(gline),
        Ghost(gm),
    )
}

/// Appends the trailing fill of the winning match and joins the leading
/// span with the sliced body.
#[verifier::rlimit(100)]
fn finish_winner_spans(
    s: &Syntax,
    cref: CtxRef,
    lead: Vec<ScopeMatch>,
    body: Vec<ScopeMatch>,
    fb: Option<Scope>,
    cur: usize,
    astart: usize,
    amend: usize,
    cursor: usize,
    Ghost(gline): Ghost<Seq<u8>>,
    Ghost(gm): Ghost<MRef>,
) -> (spans: Vec<ScopeMatch>)
    requires
        ({
            let ctx = ctx_of(*s, cref);
            let mm = match_of(*s, gm);
            let gcaps = cand_caps(*s, gline, gm)->Some_0;
            let gfb = if mm.scope is Some {
                scope_view(mm.scope)
            } else {
                scope_view(ctx.meta_scope)
            };
            let gcs = match mm.captures {
                Some(cs) => cs@,
                None => Seq::<Scope>::empty(),
            };
            &&& cand_caps(*s, gline, gm) is Some
            &&& gcaps.len() >= 1
            &&& gcaps[0] is Some
            &&& astart as int == cursor + span_start_of(gcaps[0])
            &&& amend as int == cursor + span_end_of(gcaps[0])
            &&& scope_view(fb) == gfb
            &&& cursor <= astart <= cur <= amend
            &&& slice_caps(gcaps, gcs, gfb, cursor as int, astart as int, amend as int, 0)
                == sms_view(body@) + (if (cur as int) < amend as int {
                seq![GSpan { scope: gfb, lo: cur as int, hi: amend as int }]
            } else {
                Seq::<GSpan>::empty()
            })
            &&& spans_chained(body@, astart as int, cur as int)
            &&& sms_view(lead@) == (if astart as int > cursor as int {
                seq![
                    GSpan {
                        scope: scope_view(ctx.meta_scope),
                        lo: cursor as int,
                        hi: astart as int,
                    },
                ]
            } else {
                Seq::<GSpan>::empty()
            })
            &&& spans_chained(lead@, cursor as int, astart as int)
        }),
    ensures
        sms_view(spans@) == winner_spans(*s, cref, gline, cursor as int, gm),
        spans@.len() >= 1,
        spans_chained(spans@, cursor as int, spans@.last().hi as int),
        spans@.last().hi as int == cursor + span_end_of(cand_caps(*s, gline, gm)->Some_0[0]),
{
    let ghost gcaps = cand_caps(*s, gline, gm)->Some_0;
    let ghost gfb = scope_view(fb);
    let ghost gastart = astart as int;
    let ghost gamend = amend as int;
    let mut body = body;
    let mut cur = cur;
    if cur < amend {
        let ghost body0 = body@;
        body.push(ScopeMatch { scope: dup_opt_scope(&fb), lo: cur, hi: amend });
        proof {
            lemma_sms_push(body0, ScopeMatch { scope: fb, lo: cur, hi: amend });
            lemma_chain_concat(
                body0,
                seq![ScopeMatch { scope: fb, lo: cur, hi: amend }],
                gastart,
                cur as int,
                gamend,
            );
            assert(body@ =~= body0 + seq![ScopeMatch { scope: fb, lo: cur, hi: amend }]);
        }
        cur = amend;
    }
    if body.len() == 0 {
        body.push(ScopeMatch { scope: dup_opt_scope(&fb), lo: astart, hi: amend });
    }
    let ghost gbody2 = sms_view(body@);
    let ghost glead = sms_view(lead@);
    let ghost lead0 = lead@;
    let ghost bodyv = body@;
    let mut spans: Vec<ScopeMatch> = lead;
    let mut body_arg = body;
    spans.append(&mut body_arg);
    proof {
        lemma_sms_concat(lead0, bodyv);
        assert(sms_view(spans@) == glead + gbody2);
        assert(sms_view(spans@) =~= winner_spans(*s, cref, gline, cursor as int, gm));
        lemma_chain_concat(lead0, bodyv, cursor as int, gastart, gamend);
    }
    spans
}

/// Picks the winning rule for the text at `cursor` and slices it into
/// scope spans covering the text from `cursor` to the end of the match
/// (or of the line when no rule matches).
#[verifier::rlimit(100)]
pub fn consume_next_match<'a>(
    s: &'a Syntax,
    cref: CtxRef,
    text: &[u8],
    cursor: usize,
) -> (r: (Option<&'a MatchAction>, Vec<ScopeMatch>))
    requires
        cref_valid(*s, cref),
        (cursor as int) < text@.len(),
    ensures
        action_matches(consume_spec(*s, cref, text@, cursor as int).action, r.0),
        sms_view(r.1@) == consume_spec(*s, cref, text@, cursor as int).spans,
        r.1@.len() >= 1,
        spans_chained(r.1@, cursor as int, r.1@.last().hi as int),
        r.1@.last().hi <= text@.len(),
        r.1@.last().hi >= cursor,
        r.1@.last().hi > cursor || r.0 is Some,
{
    let n: usize = text.len();
    let le = find_line_end(text, cursor);
    let line: &[u8] = vstd::slice::slice_subrange(text, cursor, le);
    let ghost gline = line@;
    let ghost gcands = flat_ctx(*s, cref);
    if blank_line(line) {
        let mut spans: Vec<ScopeMatch> = Vec::new();
        spans.push(ScopeMatch { scope: None, lo: cursor, hi: le });
        proof {
            reveal(consume_spec);
            assert(sms_view(spans@) =~= consume_spec(*s, cref, text@, cursor as int).spans);
        }
        return (None, spans);
    }
    let mut cands: Vec<MRef> = Vec::new();
    flatten_into(s, cref, INCLUDE_DEPTH, &mut cands);
    proof {
        assert(Seq::<MRef>::empty() + flat_elems(*s, cref, 0, INCLUDE_DEPTH as nat) =~= gcands);
    }
    let nc: usize = cands.len();
    let mut best: Option<usize> = None;
    let mut best_caps: Vec<Option<(usize, usize)>> = Vec::new();
    let mut best_start: usize = 0;
    let mut i: usize = 0;
    while i < nc
        invariant
            cref_valid(*s, cref),
            nc == cands@.len(),
            i <= nc,
            cands@ == gcands,
            gline == line@,
            gline == text@.subrange(cursor as int, line_end(text@, cursor as int)),
            forall|k: int| 0 <= k < cands@.len() ==> mref_ok(*s, #[trigger] cands@[k]),
            pick(*s, gline, gcands) == pick_loop(*s, gline, gcands, i as int, obest(best)),
            match best {
                Some(b) => {
                    &&& (b as int) < i as int
                    &&& eligible(*s, gline, gcands[b as int])
                    &&& cand_caps(*s, gline, gcands[b as int]) == Some(spans_view(best_caps@))
                    &&& best_caps@.len() >= 1
                    &&& best_caps@[0] is Some
                    &&& best_start as int == cand_start(*s, gline, gcands[b as int])
                    &&& forall|t: int|
                        0 <= t < best_caps@.len() ==> span_within(
                            #[trigger] best_caps@[t],
                            gline.len() as int,
                        )
                },
                None => true,
            },
        decreases nc - i,
    {
        let ghost gi = i as int;
        let ghost best0 = obest(best);
        let m = get_match(s, cands[i]);
        match m.regex.captures(line) {
            None => {
                proof {
                    assert(!eligible(*s, gline, gcands[gi]));
                    assert(pick_loop(*s, gline, gcands, gi, best0) == pick_loop(
                        *s,
                        gline,
                        gcands,
                        gi + 1,
                        best0,
                    ));
                }
            },
            Some(caps) => {
                proof {
                    assert(cand_caps(*s, gline, gcands[gi]) == Some(spans_view(caps@)));
                }
                match caps[0] {
                    Some(g0) => {
                        let elig = g0.1 > 0 || m.action.is_some();
                        proof {
                            assert(spans_view(caps@)[0] == Some((g0.0 as int, g0.1 as int)));
                            assert(eligible(*s, gline, gcands[gi]) == elig);
                            if elig {
                                assert(cand_start(*s, gline, gcands[gi]) == g0.0 as int);
                            }
                        }
                        let better = elig && (best.is_none() || g0.0 < best_start);
                        if better {
                            best = Some(i);
                            best_caps = caps;
                            best_start = g0.0;
                        }
                        proof {
                            assert(pick_loop(*s, gline, gcands, gi, best0) == pick_loop(
                                *s,
                                gline,
                                gcands,
                                gi + 1,
                                obest(best),
                            ));
                        }
                    },
                    None => {
                        proof {
                            assert(spans_view(caps@)[0] is None);
                            assert(false);
                        }
                    },
                }
            },
        }
        i = i + 1;
    }
    match best {
        None => {
            let mut spans: Vec<ScopeMatch> = Vec::new();
            spans.push(ScopeMatch { scope: None, lo: cursor, hi: le });
            proof {
                reveal(consume_spec);
                assert(pick(*s, gline, gcands) is None);
                assert(sms_view(spans@) =~= consume_spec(*s, cref, text@, cursor as int).spans);
            }
            return (None, spans);
        },
        Some(b) => {
            let ghost gb = b as int;
            let m = get_match(s, cands[b]);
            let spans = build_winner_spans(
                s,
                cref,
                text,
                cursor,
                le,
                m,
                &best_caps,
                Ghost(gline),
                Ghost(gcands[gb]),
            );
            let act: Option<&MatchAction> = match &m.action {
                Some(a) => Some(a),
                None => None,
            };
            proof {
                reveal(consume_spec);
                assert(consume_spec(*s, cref, text@, cursor as int).spans == winner_spans(
                    *s,
                    cref,
                    gline,
                    cursor as int,
                    gcands[gb],
                ));
                assert(eligible(*s, gline, gcands[gb]));
            }
            return (act, spans);
        },
    }
}

} // verus!

verus! {

/// The deepest the context stack may grow; exceeding it ends the parse
/// with the remainder left unscoped.
pub const STACK_DEPTH_LIMIT: usize = 50;

/// What pushing a value leaves on the stack: one frame for a name or an
/// inline context, each element in order for a list. List nesting is
/// bounded defensively by `fuel`; values the loader builds stay far below
/// the bound.
pub open spec fn push_value_g(stack: Seq<GStackVal>, v: MatchValue, fuel: nat) -> Seq<GStackVal>
    decreases fuel, 0int,
{
    match v {
        MatchValue::Name(n) => stack.push(GStackVal::Named(n@)),
        MatchValue::Inline(i) => stack.push(GStackVal::Anon(i as int)),
        MatchValue::List(vs) => if fuel == 0 {
            stack
        } else {
            push_list_g(stack, vs@, (fuel - 1) as nat, 0)
        },
    }
}

pub open spec fn push_list_g(
    stack: Seq<GStackVal>,
    vs: Seq<MatchValue>,
    fuel: nat,
    i: int,
) -> Seq<GStackVal>
    decreases fuel, vs.len() - i,
{
    if i < 0 || i >= vs.len() {
        stack
    } else {
        push_list_g(push_value_g(stack, vs[i], fuel), vs, fuel, i + 1)
    }
}

/// The stack after a rule's action: push extends it, pop removes the top
/// frame (a no-op on a one-frame stack), set is pop-then-push.
pub open spec fn apply_action_g(stack: Seq<GStackVal>, a: Option<MatchAction>) -> Seq<GStackVal> {
    match a {
        None => stack,
        Some(MatchAction::Push(v)) => push_value_g(stack, v, BUILD_DEPTH as nat),
        Some(MatchAction::Pop) => if stack.len() > 1 {
            stack.drop_last()
        } else {
            stack
        },
        Some(MatchAction::Replace(v)) => push_value_g(
            if stack.len() > 1 {
                stack.drop_last()
            } else {
                stack
            },
            v,
            BUILD_DEPTH as nat,
        ),
    }
}

/// Pushing never shrinks the stack.
proof fn lemma_push_value_len(stack: Seq<GStackVal>, v: MatchValue, fuel: nat)
    ensures
        push_value_g(stack, v, fuel).len() >= stack.len(),
    decreases fuel, 0int,
{
    match v {
        MatchValue::List(vs) => {
            if fuel > 0 {
                lemma_push_list_len(stack, vs@, (fuel - 1) as nat, 0);
            }
        },
        _ => {},
    }
}

proof fn lemma_push_list_len(stack: Seq<GStackVal>, vs: Seq<MatchValue>, fuel: nat, i: int)
    ensures
        push_list_g(stack, vs, fuel, i).len() >= stack.len(),
    decreases fuel, vs.len() - i,
{
    if i < 0 || i >= vs.len() {
    } else {
        lemma_push_value_len(stack, vs[i], fuel);
        lemma_push_list_len(push_value_g(stack, vs[i], fuel), vs, fuel, i + 1);
    }
}

/// An action never empties a non-empty stack.
pub proof fn lemma_apply_action_len(stack: Seq<GStackVal>, a: Option<MatchAction>)
    requires
        stack.len() >= 1,
    ensures
        apply_action_g(stack, a).len() >= 1,
{
    match a {
        Some(MatchAction::Push(v)) => {
            lemma_push_value_len(stack, v, BUILD_DEPTH as nat);
        },
        Some(MatchAction::Replace(v)) => {
            if stack.len() > 1 {
                lemma_push_value_len(stack.drop_last(), v, BUILD_DEPTH as nat);
            } else {
                lemma_push_value_len(stack, v, BUILD_DEPTH as nat);
            }
        },
        _ => {},
    }
}

proof fn lemma_stack_view_push(s: Seq<StackValue>, x: StackValue)
    ensures
        stack_view(s.push(x)) == stack_view(s).push(sv_view(x)),
{
    assert(stack_view(s.push(x)) =~= stack_view(s).push(sv_view(x)));
}

proof fn lemma_stack_view_drop(s: Seq<StackValue>)
    requires
        s.len() > 0,
    ensures
        stack_view(s.drop_last()) == stack_view(s).drop_last(),
{
    assert(stack_view(s.drop_last()) =~= stack_view(s).drop_last());
}

/// Pushes what a rule's push or set value names onto the stack: a frame
/// per named or inline context, a whole list in order. Nesting is bounded
/// by `depth`; beyond it the rest of the value is ignored, which built
/// grammars never reach.
pub fn add_value_to_stack(stack: &mut Vec<StackValue>, value: &MatchValue, depth: u32)
    ensures
        stack_view(final(stack)@) == push_value_g(stack_view(old(stack)@), *value, depth as nat),
    decreases depth,
{
    match value {
        MatchValue::Name(name) => {
            stack.push(StackValue::Name(name.clone()));
            proof {
                lemma_stack_view_push(old(stack)@, StackValue::Name(*name));
            }
        },
        MatchValue::Inline(index) => {
            stack.push(StackValue::Anon(*index));
            proof {
                lemma_stack_view_push(old(stack)@, StackValue::Anon(*index));
            }
        },
        MatchValue::List(values) => {
            if depth == 0 {
                return ;
            }
            let n: usize = values.len();
            let mut j: usize = 0;
            while j < n
                invariant
                    n == values@.len(),
                    j <= n,
                    depth >= 1,
                    *value == MatchValue::List(*values),
                    push_list_g(
                        stack_view(old(stack)@),
                        values@,
                        (depth - 1) as nat,
                        0,
                    ) == push_list_g(stack_view(stack@), values@, (depth - 1) as nat, j as int),
                decreases n - j,
            {
                add_value_to_stack(stack, &values[j], depth - 1);
                j = j + 1;
            }
        },
    }
}

/// One emitted node: the stack snapshot at emission, an optional scope,
/// the covered range, and the link to the previous node of the history.
#[derive(Debug)]
pub struct Node {
    pub context_stack: Vec<StackValue>,
    pub scope: Option<Scope>,
    pub lo: usize,
    pub hi: usize,
    pub prev: Option<usize>,
}

/// One emitted node, mathematically.
pub struct GNode {
    pub stack: Seq<GStackVal>,
    pub scope: Option<Seq<char>>,
    pub lo: int,
    pub hi: int,
}

pub open spec fn node_view(n: Node) -> GNode {
    GNode {
        stack: stack_view(n.context_stack@),
        scope: scope_view(n.scope),
        lo: n.lo as int,
        hi: n.hi as int,
    }
}

impl Node {
    /// A node recording one span with the current stack snapshot.
    pub fn from_scope_match(scope_match: &ScopeMatch, stack: &Vec<StackValue>, prev: Option<usize>)
        -> (r: Node)
        ensures
            node_view(r) == (GNode {
                stack: stack_view(stack@),
                scope: sm_view(*scope_match).scope,
                lo: scope_match.lo as int,
                hi: scope_match.hi as int,
            }),
            r.prev == prev,
            r.context_stack@ == stack@,
            r.hi == scope_match.hi,
            r.lo == scope_match.lo,
    {
        Node {
            context_stack: dup_stack(stack),
            scope: dup_opt_scope(&scope_match.scope),
            lo: scope_match.lo,
            hi: scope_match.hi,
            prev,
        }
    }
}

pub open spec fn gnodes_of(spans: Seq<GSpan>, stack: Seq<GStackVal>) -> Seq<GNode> {
    spans.map(
        |i: int, sp: GSpan| GNode { stack, scope: sp.scope, lo: sp.lo, hi: sp.hi },
    )
}

/// The bound on engine iterations: enough for every byte of the text at
/// every stack depth, saturating for enormous inputs.
pub open spec fn fuel_of(len: int) -> nat {
    if len < usize::MAX as int / 51 {
        ((len + 1) * 51) as nat
    } else {
        usize::MAX as nat
    }
}

/// The engine, mathematically: from a stack and a cursor, one selection
/// step per iteration; it halts by emitting the remainder unscoped when
/// the fuel runs out, the stack outgrows its bound, or the top of the
/// stack names no context.
pub open spec fn run_spec(
    s: Syntax,
    text: Seq<u8>,
    stack: Seq<GStackVal>,
    cursor: int,
    fuel: nat,
) -> Seq<GNode>
    decreases fuel,
{
    if cursor >= text.len() {
        Seq::empty()
    } else if fuel == 0 {
        seq![GNode { stack, scope: None, lo: cursor, hi: text.len() as int }]
    } else if stack.len() > STACK_DEPTH_LIMIT {
        seq![GNode { stack, scope: None, lo: cursor, hi: text.len() as int }]
    } else {
        match resolve_sval(s, stack.last()) {
            None => seq![GNode { stack, scope: None, lo: cursor, hi: text.len() as int }],
            Some(cref) => {
                let cr = consume_spec(s, cref, text, cursor);
                let adv = cr.spans.last().hi;
                gnodes_of(cr.spans, stack) + run_spec(
                    s,
                    text,
                    apply_action_g(stack, cr.action),
                    adv,
                    (fuel - 1) as nat,
                )
            },
        }
    }
}

/// The initial stack: the grammar's `main` context.
pub open spec fn init_stack_g() -> Seq<GStackVal> {
    seq![GStackVal::Named("main"@)]
}

/// Where a parse resumes: the retained tail's stack and end offset, or
/// the initial state.
pub open spec fn resume_stack(h: Seq<GNode>) -> Seq<GStackVal> {
    if h.len() == 0 {
        init_stack_g()
    } else {
        h.last().stack
    }
}

pub open spec fn resume_cursor(h: Seq<GNode>) -> int {
    if h.len() == 0 {
        0
    } else {
        h.last().hi
    }
}

pub open spec fn tail_measure(t: Option<int>) -> int {
    match t {
        Some(i) => i + 1,
        None => 0,
    }
}

/// The node history read from the tail backward, oldest first.
#[verifier::opaque]
pub open spec fn chain(nodes: Seq<Node>, t: Option<int>) -> Seq<GNode>
    decreases tail_measure(t),
{
    match t {
        None => Seq::empty(),
        Some(i) => if 0 <= i < nodes.len() {
            (match nodes[i].prev {
                Some(p) => if (p as int) < i {
                    chain(nodes, Some(p as int))
                } else {
                    Seq::empty()
                },
                None => Seq::empty(),
            }) + seq![node_view(nodes[i])]
        } else {
            Seq::empty()
        },
    }
}

/// The tail and every link reached from it lie in the arena, links
/// strictly decreasing.
pub open spec fn wf_tail(nodes: Seq<Node>, t: Option<int>) -> bool
    decreases tail_measure(t),
{
    match t {
        None => true,
        Some(i) => 0 <= i < nodes.len() && (match nodes[i].prev {
            Some(p) => (p as int) < i && wf_tail(nodes, Some(p as int)),
            None => true,
        }),
    }
}

/// Extending the arena changes no existing chain.
proof fn lemma_chain_extend(nodes: Seq<Node>, t: Option<int>, more: Seq<Node>)
    requires
        wf_tail(nodes, t),
    ensures
        wf_tail(nodes + more, t),
        chain(nodes + more, t) == chain(nodes, t),
    decreases tail_measure(t),
{
    reveal(chain);
    match t {
        None => {
            assert(chain(nodes + more, t) =~= chain(nodes, t));
        },
        Some(i) => {
            assert((nodes + more)[i] == nodes[i]);
            match nodes[i].prev {
                Some(p) => {
                    lemma_chain_extend(nodes, Some(p as int), more);
                },
                None => {},
            }
        },
    }
}

/// The spans of the history: contiguous non-overlapping coverage from
/// offset zero.
#[verifier::opaque]
pub open spec fn gnodes_contiguous(gs: Seq<GNode>) -> bool {
    &&& (gs.len() > 0 ==> gs[0].lo == 0)
    &&& forall|i: int| 0 <= i < gs.len() ==> (#[trigger] gs[i]).lo <= gs[i].hi
    &&& forall|i: int| 0 <= i < gs.len() - 1 ==> (#[trigger] gs[i]).hi == gs[i + 1].lo
}

pub open spec fn history_end(gs: Seq<GNode>) -> int {
    if gs.len() == 0 {
        0
    } else {
        gs.last().hi
    }
}

/// How much of the history survives marking an edit at `idx`: the longest
/// prefix whose last node ends strictly before it.
pub open spec fn keep_count(gs: Seq<GNode>, idx: int) -> int
    decreases gs.len(),
{
    if gs.len() == 0 {
        0int
    } else if gs.last().hi < idx {
        gs.len() as int
    } else {
        keep_count(gs.drop_last(), idx)
    }
}

} // verus!

verus! {

#[verifier::opaque]
pub open spec fn gnodes_stacks_ok(gs: Seq<GNode>) -> bool {
    forall|i: int| 0 <= i < gs.len() ==> (#[trigger] gs[i]).stack.len() >= 1
}

/// A prefix of a contiguous history is contiguous.
proof fn lemma_prefix_props(gs: Seq<GNode>, k: int)
    requires
        gnodes_contiguous(gs),
        gnodes_stacks_ok(gs),
        0 <= k <= gs.len(),
    ensures
        gnodes_contiguous(gs.take(k)),
        gnodes_stacks_ok(gs.take(k)),
{
    reveal(gnodes_contiguous);
    reveal(gnodes_stacks_ok);
    let p = gs.take(k);
    assert forall|i: int| 0 <= i < p.len() implies (#[trigger] p[i]).lo <= p[i].hi by {
        assert(p[i] == gs[i]);
    }
    assert forall|i: int| 0 <= i < p.len() - 1 implies (#[trigger] p[i]).hi == p[i + 1].lo by {
        assert(p[i] == gs[i] && p[i + 1] == gs[i + 1]);
    }
    assert forall|i: int| 0 <= i < p.len() implies (#[trigger] p[i]).stack.len() >= 1 by {
        assert(p[i] == gs[i]);
    }
    if p.len() > 0 {
        assert(p[0] == gs[0]);
    }
}

/// Appending spans that chain on from the history's end keeps it
/// contiguous.
proof fn lemma_contig_append(ch: Seq<GNode>, sms: Seq<ScopeMatch>, stackv: Seq<GStackVal>, c: int)
    requires
        gnodes_contiguous(ch),
        gnodes_stacks_ok(ch),
        ch.len() > 0 ==> ch.last().hi == c,
        ch.len() == 0 ==> c == 0,
        sms.len() > 0,
        spans_chained(sms, c, sms.last().hi as int),
        stackv.len() >= 1,
    ensures
        gnodes_contiguous(ch + gnodes_of(sms_view(sms), stackv)),
        gnodes_stacks_ok(ch + gnodes_of(sms_view(sms), stackv)),
        (ch + gnodes_of(sms_view(sms), stackv)).last().hi == sms.last().hi as int,
{
    reveal(gnodes_contiguous);
    reveal(gnodes_stacks_ok);
    let add = gnodes_of(sms_view(sms), stackv);
    let r = ch + add;
    assert(add.len() == sms.len());
    assert forall|i: int| 0 <= i < add.len() implies #[trigger] add[i] == (GNode {
        stack: stackv,
        scope: sm_view(sms[i]).scope,
        lo: sms[i].lo as int,
        hi: sms[i].hi as int,
    }) by {
        assert(sms_view(sms)[i] == sm_view(sms[i]));
    }
    assert forall|i: int| 0 <= i < r.len() implies (#[trigger] r[i]).lo <= r[i].hi by {
        if i < ch.len() {
            assert(r[i] == ch[i]);
        } else {
            assert(r[i] == add[i - ch.len()]);
            assert(sms[i - ch.len()].lo <= sms[i - ch.len()].hi);
        }
    }
    assert forall|i: int| 0 <= i < r.len() - 1 implies (#[trigger] r[i]).hi == r[i + 1].lo by {
        if i + 1 < ch.len() {
            assert(r[i] == ch[i] && r[i + 1] == ch[i + 1]);
        } else if i + 1 == ch.len() {
            assert(r[i] == ch[i] && r[i + 1] == add[0]);
            assert(sms[0].lo == c);
        } else {
            assert(r[i] == add[i - ch.len()] && r[i + 1] == add[i + 1 - ch.len()]);
            assert(sms[i - ch.len()].hi == sms[i + 1 - ch.len()].lo);
        }
    }
    assert forall|i: int| 0 <= i < r.len() implies (#[trigger] r[i]).stack.len() >= 1 by {
        if i < ch.len() {
            assert(r[i] == ch[i]);
        } else {
            assert(r[i] == add[i - ch.len()]);
        }
    }
    if ch.len() > 0 {
        assert(r[0] == ch[0]);
    } else {
        assert(r[0] == add[0]);
        assert(sms[0].lo == c);
    }
    assert(r.last() == add.last());
}

/// Applies a rule's action to the live stack.
fn apply_stack_action(
    stack: &mut Vec<StackValue>,
    action: Option<&MatchAction>,
    Ghost(ga): Ghost<Option<MatchAction>>,
)
    requires
        action_matches(ga, action),
    ensures
        stack_view(final(stack)@) == apply_action_g(stack_view(old(stack)@), ga),
        old(stack)@.len() >= 1 ==> final(stack)@.len() >= 1,
{
    let ghost stackv0 = stack_view(stack@);
    proof {
        assert(stackv0.len() == stack@.len());
    }
    match action {
        None => {
        },
        Some(a) => {
            match a {
                MatchAction::Push(v) => {
                    add_value_to_stack(stack, v, BUILD_DEPTH);
                },
                MatchAction::Pop => {
                    if stack.len() > 1 {
                        let ghost pre = stack@;
                        stack.pop();
                        proof {
                            lemma_stack_view_drop(pre);
                        }
                    }
                },
                MatchAction::Replace(v) => {
                    if stack.len() > 1 {
                        let ghost pre = stack@;
                        stack.pop();
                        proof {
                            lemma_stack_view_drop(pre);
                        }
                    }
                    add_value_to_stack(stack, v, BUILD_DEPTH);
                },
            }
        },
    }
    proof {
        assert(stack_view(stack@) == apply_action_g(stackv0, ga));
        if stackv0.len() >= 1 {
            lemma_apply_action_len(stackv0, ga);
            assert(stack_view(stack@).len() == stack@.len());
        }
    }
}

/// The tokenizer: owns the persistent node history of one buffer and
/// resumes from its retained tail on each parse.
pub struct Highlighter {
    nodes: Vec<Node>,
    tail: Option<usize>,
}

impl Highlighter {
    /// The node arena, shared between successive histories.
    pub closed spec fn arena(self) -> Seq<Node> {
        self.nodes@
    }

    pub closed spec fn tail_ref(self) -> Option<int> {
        match self.tail {
            Some(t) => Some(t as int),
            None => None::<int>,
        }
    }

    /// The emitted spans, oldest first.
    pub closed spec fn history(self) -> Seq<GNode> {
        chain(self.nodes@, self.tail_ref())
    }

    /// Well-formed: the tail's chain lies in the arena with decreasing
    /// links, and the history covers the text contiguously from offset
    /// zero with non-empty stack snapshots.
    pub closed spec fn wf(self) -> bool {
        &&& wf_tail(self.nodes@, self.tail_ref())
        &&& gnodes_contiguous(self.history())
        &&& gnodes_stacks_ok(self.history())
    }

    pub fn new() -> (r: Highlighter)
        ensures
            r.wf(),
            r.history() == Seq::<GNode>::empty(),
    {
        let r = Highlighter { nodes: Vec::new(), tail: None };
        proof {
            reveal(chain);
            reveal(gnodes_contiguous);
            reveal(gnodes_stacks_ok);
            assert(r.history() =~= Seq::<GNode>::empty());
        }
        r
    }

    /// Appends one node per span, each snapshotting the current stack and
    /// linking to the previous tail.
    fn append_nodes(&mut self, spans: &Vec<ScopeMatch>, stack: &Vec<StackValue>)
        requires
            wf_tail(old(self).nodes@, old(self).tail_ref()),
        ensures
            wf_tail(final(self).nodes@, final(self).tail_ref()),
            old(self).nodes@.is_prefix_of(final(self).nodes@),
            chain(final(self).nodes@, final(self).tail_ref()) == chain(
                old(self).nodes@,
                old(self).tail_ref(),
            ) + gnodes_of(sms_view(spans@), stack_view(stack@)),
    {
        let n: usize = spans.len();
        let mut j: usize = 0;
        proof {
            assert(chain(self.nodes@, self.tail_ref()) + gnodes_of(
                sms_view(spans@.take(0)),
                stack_view(stack@),
            ) =~= chain(self.nodes@, self.tail_ref()));
        }
        while j < n
            invariant
                n == spans@.len(),
                j <= n,
                wf_tail(self.nodes@, self.tail_ref()),
                old(self).nodes@.is_prefix_of(self.nodes@),
                chain(self.nodes@, self.tail_ref()) == chain(
                    old(self).nodes@,
                    old(self).tail_ref(),
                ) + gnodes_of(sms_view(spans@.take(j as int)), stack_view(stack@)),
            decreases n - j,
        {
            let node = Node::from_scope_match(&spans[j], stack, self.tail);
            let idx = self.nodes.len();
            let ghost nodes0 = self.nodes@;
            let ghost t0 = self.tail_ref();
            self.nodes.push(node);
            self.tail = Some(idx);
            proof {
                reveal(chain);
                assert(self.nodes@ =~= nodes0 + seq![node]);
                lemma_chain_extend(nodes0, t0, seq![node]);
                assert(chain(self.nodes@, Some(idx as int)) == chain(self.nodes@, t0) + seq![
                    node_view(node),
                ]);
                assert(sms_view(spans@.take(j + 1)) =~= sms_view(spans@.take(j as int)) + seq![
                    sm_view(spans@[j as int]),
                ]);
                assert(gnodes_of(sms_view(spans@.take(j + 1)), stack_view(stack@)) =~= gnodes_of(
                    sms_view(spans@.take(j as int)),
                    stack_view(stack@),
                ) + seq![node_view(node)]);
                assert(chain(self.nodes@, self.tail_ref()) =~= chain(
                    old(self).nodes@,
                    old(self).tail_ref(),
                ) + gnodes_of(sms_view(spans@.take(j + 1)), stack_view(stack@)));
            }
            j = j + 1;
        }
        proof {
            assert(spans@.take(n as int) =~= spans@);
        }
    }

    /// Whether the tail node must be dropped for an edit at `index`.
    fn tail_reaches(&self, index: usize) -> (r: bool)
        requires
            wf_tail(self.nodes@, self.tail_ref()),
        ensures
            r == (match self.tail_ref() {
                Some(t) => self.arena()[t].hi >= index,
                None => false,
            }),
    {
        match self.tail {
            Some(t) => self.nodes[t].hi >= index,
            None => false,
        }
    }

    /// Drops every node whose span ends at or after `index`, keeping the
    /// longest prefix of the history that an edit there cannot affect.
    /// The arena itself is untouched: the retained prefix is shared, not
    /// copied.
    #[verifier::rlimit(60)]
    pub fn mark_dirty(&mut self, index: usize)
        requires
            old(self).wf(),
        ensures
            final(self).wf(),
            final(self).arena() == old(self).arena(),
            final(self).history() == old(self).history().take(
                keep_count(old(self).history(), index as int),
            ),
    {
        let ghost old_hist = self.history();
        while self.tail_reaches(index)
            invariant
                self.nodes@ == old(self).arena(),
                wf_tail(self.nodes@, self.tail_ref()),
                gnodes_contiguous(old_hist),
                gnodes_stacks_ok(old_hist),
                old_hist == chain(old(self).nodes@, old(self).tail_ref()),
                self.history().len() <= old_hist.len(),
                self.history() == old_hist.take(self.history().len() as int),
                keep_count(old_hist, index as int) == keep_count(
                    self.history(),
                    index as int,
                ),
            decreases tail_measure(self.tail_ref()),
        {
            let t = match self.tail {
                Some(t) => t,
                None => {
                    proof {
                        assert(false);
                    }
                    0
                },
            };
            let ghost h0 = self.history();
            let ghost prevref = (match self.nodes@[t as int].prev {
                Some(p) => if (p as int) < t as int {
                    Some(p as int)
                } else {
                    None::<int>
                },
                None => None::<int>,
            });
            self.tail = self.nodes[t].prev;
            proof {
                reveal(chain);
                assert(h0 == chain(self.nodes@, prevref) + seq![
                    node_view(self.nodes@[t as int]),
                ]);
                assert(self.tail_ref() == prevref);
                assert((chain(self.nodes@, prevref) + seq![
                    node_view(self.nodes@[t as int]),
                ]).drop_last() =~= chain(self.nodes@, prevref));
                assert(self.history() == h0.drop_last());
                assert(h0.last() == node_view(old(self).arena()[t as int]));
                assert(h0.last().hi >= index);
                assert(keep_count(h0, index as int) == keep_count(h0.drop_last(), index as int));
                assert(old_hist.take(h0.len() - 1) =~= h0.drop_last());
            }
        }
        proof {
            reveal(chain);
            let h = self.history();
            match self.tail_ref() {
                Some(t) => {
                    assert(h == chain(self.nodes@, Some(t)));
                    assert(h.last() == node_view(self.nodes@[t]));
                    assert(h.last().hi < index);
                    assert(h.len() > 0);
                    assert(keep_count(h, index as int) == h.len());
                },
                None => {
                    assert(h =~= Seq::<GNode>::empty());
                    assert(keep_count(h, index as int) == 0);
                },
            }
            assert(self.history() == old_hist.take(keep_count(old_hist, index as int)));
            lemma_prefix_props(old_hist, self.history().len() as int);
        }
    }


    /// Emits one unscoped node covering the rest of the text: how every
    /// abnormal halt (exhausted fuel, an overgrown stack, a missing
    /// context) leaves the remainder.
    fn emit_remainder(&mut self, stack: &Vec<StackValue>, cursor: usize, n: usize)
        requires
            wf_tail(old(self).nodes@, old(self).tail_ref()),
            gnodes_contiguous(old(self).history()),
            gnodes_stacks_ok(old(self).history()),
            stack@.len() >= 1,
            cursor < n,
            old(self).history().len() > 0 ==> old(self).history().last().hi == cursor as int,
            old(self).history().len() == 0 ==> cursor == 0,
        ensures
            wf_tail(final(self).nodes@, final(self).tail_ref()),
            old(self).nodes@.is_prefix_of(final(self).nodes@),
            gnodes_contiguous(final(self).history()),
            gnodes_stacks_ok(final(self).history()),
            final(self).history() == old(self).history() + seq![
                GNode {
                    stack: stack_view(stack@),
                    scope: None,
                    lo: cursor as int,
                    hi: n as int,
                },
            ],
            final(self).history().len() > 0,
            final(self).history().last().hi == n as int,
    {
        let ghost hist0 = self.history();
        let ghost stackv = stack_view(stack@);
        let mut rem: Vec<ScopeMatch> = Vec::new();
        rem.push(ScopeMatch { scope: None, lo: cursor, hi: n });
        self.append_nodes(&rem, &stack);
        proof {
            assert(stack_view(stack@).len() == stack@.len());
            assert(gnodes_of(sms_view(rem@), stackv) =~= seq![
                GNode { stack: stackv, scope: None, lo: cursor as int, hi: n as int },
            ]);
            assert(spans_chained(rem@, cursor as int, n as int));
            lemma_contig_append(hist0, rem@, stackv, cursor as int);
        }
    }

    /// One engine step: runs match selection at `cursor`, appends its
    /// spans as nodes with the current stack snapshot, and hands back the
    /// winning action and the new cursor.
    #[verifier::rlimit(100)]
    #[verifier::spinoff_prover]
    fn step_consume<'a>(
        &mut self,
        syntax: &'a Syntax,
        text: &[u8],
        stack: &Vec<StackValue>,
        cursor: usize,
        cref: CtxRef,
    ) -> (r: (Option<&'a MatchAction>, usize))
        requires
            wf_tail(old(self).nodes@, old(self).tail_ref()),
            gnodes_contiguous(old(self).history()),
            gnodes_stacks_ok(old(self).history()),
            stack@.len() >= 1,
            cref_valid(*syntax, cref),
            (cursor as int) < text@.len(),
            old(self).history().len() > 0 ==> old(self).history().last().hi == cursor as int,
            old(self).history().len() == 0 ==> cursor == 0,
        ensures
            wf_tail(final(self).nodes@, final(self).tail_ref()),
            old(self).nodes@.is_prefix_of(final(self).nodes@),
            gnodes_contiguous(final(self).history()),
            gnodes_stacks_ok(final(self).history()),
            final(self).history() == old(self).history() + gnodes_of(
                consume_spec(*syntax, cref, text@, cursor as int).spans,
                stack_view(stack@),
            ),
            action_matches(consume_spec(*syntax, cref, text@, cursor as int).action, r.0),
            r.1 as int == consume_spec(*syntax, cref, text@, cursor as int).spans.last().hi,
            cursor <= r.1 <= text@.len(),
            final(self).history().len() > 0,
            final(self).history().last().hi == r.1 as int,
            r.1 as int > cursor as int || consume_spec(
                *syntax,
                cref,
                text@,
                cursor as int,
            ).action is Some,
    {
        let ghost hist0 = self.history();
        let ghost stackv0 = stack_view(stack@);
        let ghost cursor0 = cursor as int;
        let (action, spans) = consume_next_match(syntax, cref, text, cursor);
        self.append_nodes(&spans, stack);
        let new_cursor = spans[spans.len() - 1].hi;
        proof {
            let cr = consume_spec(*syntax, cref, text@, cursor0);
            assert(sms_view(spans@).last() == sm_view(spans@.last()));
            assert(cr.spans.last().hi == new_cursor as int);
            lemma_contig_append(hist0, spans@, stackv0, cursor0);
        }
        (action, new_cursor)
    }

    /// Tokenizes `text` with `syntax`, resuming from the retained tail's
    /// stack snapshot and end offset (the initial state when the history
    /// is empty). After any edit, `mark_dirty` must run first; the history
    /// then grows by exactly the engine's run from the resume point, and —
    /// when the resume point lies within the text — covers the whole text
    /// with contiguous spans.
    #[verifier::rlimit(100)]
    pub fn parse(&mut self, syntax: &Syntax, text: &[u8])
        requires
            old(self).wf(),
        ensures
            final(self).wf(),
            old(self).arena().is_prefix_of(final(self).arena()),
            final(self).history() == old(self).history() + run_spec(
                *syntax,
                text@,
                resume_stack(old(self).history()),
                resume_cursor(old(self).history()),
                fuel_of(text@.len() as int),
            ),
            resume_cursor(old(self).history()) <= text@.len() ==> history_end(
                final(self).history(),
            ) == text@.len(),
    {
        let ghost old_hist = self.history();
        let ghost g0 = resume_stack(old_hist);
        let ghost c0 = resume_cursor(old_hist);
        let n: usize = text.len();
        let ghost f0 = fuel_of(n as int);
        let mut stack: Vec<StackValue>;
        let mut cursor: usize;
        match self.tail {
            None => {
                let mut s0: Vec<StackValue> = Vec::new();
                s0.push(StackValue::Name(String::from_str("main")));
                stack = s0;
                cursor = 0;
                proof {
                    reveal(chain);
                    assert(old_hist =~= Seq::<GNode>::empty());
                    assert(stack_view(stack@) =~= init_stack_g());
                }
            },
            Some(t) => {
                stack = dup_stack(&self.nodes[t].context_stack);
                cursor = self.nodes[t].hi;
                proof {
                    reveal(chain);
                    reveal(gnodes_stacks_ok);
                    assert(old_hist == chain(self.nodes@, Some(t as int)));
                    assert(old_hist.last() == node_view(self.nodes@[t as int]));
                    assert(stack_view(stack@) == g0);
                    assert(cursor as int == c0);
                }
            },
        }
        let mut fuel: usize;
        if n < usize::MAX / 51 {
            proof {
                vstd::arithmetic::div_mod::lemma_fundamental_div_mod(usize::MAX as int, 51);
                vstd::arithmetic::mul::lemma_mul_inequality(
                    n as int + 1,
                    usize::MAX as int / 51,
                    51,
                );
            }
            fuel = (n + 1) * 51;
        } else {
            fuel = usize::MAX;
        }
        proof {
            assert(fuel as nat == f0);
        }
        while cursor < n
            invariant
                n == text@.len(),
                wf_tail(self.nodes@, self.tail_ref()),
                gnodes_contiguous(self.history()),
                gnodes_stacks_ok(self.history()),
                old(self).arena().is_prefix_of(self.nodes@),
                stack@.len() >= 1,
                old_hist == chain(old(self).nodes@, old(self).tail_ref()),
                old_hist + run_spec(*syntax, text@, g0, c0, f0) == self.history() + run_spec(
                    *syntax,
                    text@,
                    stack_view(stack@),
                    cursor as int,
                    fuel as nat,
                ),
                self.history().len() > 0 ==> self.history().last().hi == cursor as int,
                self.history().len() == 0 ==> cursor as int == c0 && old_hist.len() == 0 && c0
                    == 0,
                old_hist.len() == 0 ==> c0 == 0,
                c0 <= n || cursor as int == c0,
                cursor as int <= n || cursor as int == c0,
            decreases n - cursor, fuel,
        {
            let ghost hist0 = self.history();
            let ghost stackv0 = stack_view(stack@);
            let ghost cursor0 = cursor as int;
            let ghost fuel0 = fuel as nat;
            if fuel == 0 {
                self.emit_remainder(&stack, cursor, n);
                proof {
                    assert(run_spec(*syntax, text@, stackv0, cursor0, 0) =~= seq![
                        GNode { stack: stackv0, scope: None, lo: cursor0, hi: n as int },
                    ]);
                    assert(self.history() + run_spec(*syntax, text@, stackv0, n as int, fuel0)
                        =~= self.history());
                }
                cursor = n;
            } else if stack.len() > STACK_DEPTH_LIMIT {
                self.emit_remainder(&stack, cursor, n);
                proof {
                    assert(stack_view(stack@).len() == stack@.len());
                    assert(run_spec(*syntax, text@, stackv0, cursor0, fuel0) =~= seq![
                        GNode { stack: stackv0, scope: None, lo: cursor0, hi: n as int },
                    ]);
                    assert(self.history() + run_spec(*syntax, text@, stackv0, n as int, fuel0)
                        =~= self.history());
                }
                cursor = n;
            } else {
                proof {
                    assert(stack_view(stack@).len() == stack@.len());
                    assert(stack_view(stack@).last() == sv_view(stack@.last()));
                }
                let cref_opt = resolve_top(syntax, &stack[stack.len() - 1]);
                match cref_opt {
                    None => {
                        self.emit_remainder(&stack, cursor, n);
                        proof {
                            assert(run_spec(*syntax, text@, stackv0, cursor0, fuel0) =~= seq![
                                GNode {
                                    stack: stackv0,
                                    scope: None,
                                    lo: cursor0,
                                    hi: n as int,
                                },
                            ]);
                            assert(self.history() + run_spec(
                                *syntax,
                                text@,
                                stackv0,
                                n as int,
                                fuel0,
                            ) =~= self.history());
                        }
                        cursor = n;
                    },
                    Some(cref) => {
                        let (action, nc) = self.step_consume(syntax, text, &stack, cursor, cref);
                        apply_stack_action(
                            &mut stack,
                            action,
                            Ghost(consume_spec(*syntax, cref, text@, cursor0).action),
                        );
                        proof {
                            let cr = consume_spec(*syntax, cref, text@, cursor0);
                            assert(run_spec(*syntax, text@, stackv0, cursor0, fuel0)
                                == gnodes_of(cr.spans, stackv0) + run_spec(
                                *syntax,
                                text@,
                                apply_action_g(stackv0, cr.action),
                                nc as int,
                                (fuel0 - 1) as nat,
                            ));
                        }
                        cursor = nc;
                        fuel = fuel - 1;
                    },
                }
            }
        }
        proof {
            assert(run_spec(
                *syntax,
                text@,
                stack_view(stack@),
                cursor as int,
                fuel as nat,
            ) =~= Seq::<GNode>::empty());
            assert(self.history() =~= old_hist + run_spec(*syntax, text@, g0, c0, f0));
        }
    }
}

} // verus!

verus! {

impl Highlighter {
    /// The emitted spans, oldest first, as concrete values: the scope (if
    /// any) and the covered range of each node of the history.
    pub fn spans(&self) -> (r: Vec<ScopeMatch>)
        requires
            self.wf(),
        ensures
            r@.len() == self.history().len(),
            forall|i: int|
                0 <= i < r@.len() ==> sm_view(#[trigger] r@[i]) == (GSpan {
                    scope: self.history()[i].scope,
                    lo: self.history()[i].lo,
                    hi: self.history()[i].hi,
                }),
    {
        let ghost hist = self.history();
        let mut rev: Vec<ScopeMatch> = Vec::new();
        let mut t: Option<usize> = self.tail;
        proof {
            assert(chain(self.nodes@, self.tail_ref()) == hist);
        }
        while t.is_some()
            invariant
                wf_tail(self.nodes@, (match t {
                    Some(x) => Some(x as int),
                    None => None::<int>,
                })),
                hist == self.history(),
                self.wf(),
                rev@.len() <= hist.len(),
                chain(self.nodes@, (match t {
                    Some(x) => Some(x as int),
                    None => None::<int>,
                })) == hist.take(hist.len() - rev@.len()),
                forall|j: int|
                    0 <= j < rev@.len() ==> sm_view(#[trigger] rev@[j]) == (GSpan {
                        scope: hist[hist.len() - 1 - j].scope,
                        lo: hist[hist.len() - 1 - j].lo,
                        hi: hist[hist.len() - 1 - j].hi,
                    }),
            decreases tail_measure((match t {
                Some(x) => Some(x as int),
                None => None::<int>,
            })),
        {
            let ti = match t {
                Some(x) => x,
                None => {
                    proof {
                        assert(false);
                    }
                    0
                },
            };
            let node = &self.nodes[ti];
            let ghost pre = chain(self.nodes@, Some(ti as int));
            proof {
                reveal(chain);
                assert(pre.last() == node_view(self.nodes@[ti as int]));
                assert(pre.len() >= 1);
                match self.nodes@[ti as int].prev {
                    Some(p) => {
                        assert(chain(self.nodes@, Some(p as int)) == pre.drop_last());
                    },
                    None => {
                        assert(chain(self.nodes@, None::<int>) =~= Seq::<GNode>::empty());
                        assert(pre.drop_last() =~= Seq::<GNode>::empty());
                    },
                }
                assert(hist.take(hist.len() - rev@.len()).drop_last() =~= hist.take(
                    hist.len() - rev@.len() - 1,
                ));
            }
            rev.push(ScopeMatch { scope: dup_opt_scope(&node.scope), lo: node.lo, hi: node.hi });
            t = node.prev;
        }
        proof {
            reveal(chain);
            assert(chain(self.nodes@, None::<int>) =~= Seq::<GNode>::empty());
            assert(hist.take(hist.len() - rev@.len()).len() == hist.len() - rev@.len());
            assert(rev@.len() == hist.len());
        }
        let n: usize = rev.len();
        let mut out: Vec<ScopeMatch> = Vec::new();
        let mut i: usize = 0;
        while i < n
            invariant
                n == rev@.len(),
                n == hist.len(),
                i <= n,
                out@.len() == i,
                forall|j: int|
                    0 <= j < rev@.len() ==> sm_view(#[trigger] rev@[j]) == (GSpan {
                        scope: hist[hist.len() - 1 - j].scope,
                        lo: hist[hist.len() - 1 - j].lo,
                        hi: hist[hist.len() - 1 - j].hi,
                    }),
                forall|j: int|
                    0 <= j < i ==> sm_view(#[trigger] out@[j]) == (GSpan {
                        scope: hist[j].scope,
                        lo: hist[j].lo,
                        hi: hist[j].hi,
                    }),
            decreases n - i,
        {
            let sm = &rev[n - 1 - i];
            out.push(ScopeMatch { scope: dup_opt_scope(&sm.scope), lo: sm.lo, hi: sm.hi });
            i = i + 1;
        }
        out
    }
}

/// Coverage: a well-formed history tiles the text with contiguous,
/// non-overlapping spans from offset zero; with `parse`'s contract, a
/// parse reaching the end of the text covers all of it.
pub proof fn lemma_history_contiguous(h: Highlighter)
    requires
        h.wf(),
    ensures
        gnodes_contiguous(h.history()),
{
}

/// Idempotence: tokenizing the same text with the same grammar from
/// scratch twice yields identical span sequences — the engine is a
/// function of grammar and text alone.
pub proof fn lemma_reparse_identical(s: Syntax, text: Seq<u8>, h1: Seq<GNode>, h2: Seq<GNode>)
    requires
        h1 == run_spec(s, text, init_stack_g(), 0, fuel_of(text.len() as int)),
        h2 == run_spec(s, text, init_stack_g(), 0, fuel_of(text.len() as int)),
    ensures
        h1 == h2,
{
}

proof fn lemma_keep_count_bounds(gs: Seq<GNode>, idx: int)
    ensures
        0 <= keep_count(gs, idx) <= gs.len(),
    decreases gs.len(),
{
    if gs.len() == 0 {
    } else if gs.last().hi < idx {
    } else {
        lemma_keep_count_bounds(gs.drop_last(), idx);
    }
}

/// Structural sharing: what `mark_dirty` retains is a prefix of the old
/// history, so for the text before the edit the spans are exactly those
/// the from-scratch parse of the unedited text produced.
pub proof fn lemma_dirty_keeps_prefix(
    s: Syntax,
    text: Seq<u8>,
    full: Seq<GNode>,
    kept: Seq<GNode>,
    idx: int,
)
    requires
        full == run_spec(s, text, init_stack_g(), 0, fuel_of(text.len() as int)),
        kept == full.take(keep_count(full, idx)),
    ensures
        kept.is_prefix_of(full),
        forall|i: int|
            0 <= i < kept.len() ==> kept[i] == run_spec(
                s,
                text,
                init_stack_g(),
                0,
                fuel_of(text.len() as int),
            )[i],
{
    lemma_keep_count_bounds(full, idx);
    assert(kept.is_prefix_of(full)) by {
        assert(kept =~= full.take(kept.len() as int));
    }
}

/// Blank-line rule: a line of nothing but whitespace yields exactly one
/// unscoped span covering the whole line, carries no action, and so
/// leaves any context stack unchanged.
pub proof fn lemma_blank_line(
    s: Syntax,
    cref: CtxRef,
    text: Seq<u8>,
    cursor: int,
    stack: Seq<GStackVal>,
)
    requires
        0 <= cursor < text.len(),
        is_blank(text.subrange(cursor, line_end(text, cursor))),
    ensures
        consume_spec(s, cref, text, cursor).spans == seq![
            GSpan { scope: None, lo: cursor, hi: line_end(text, cursor) },
        ],
        consume_spec(s, cref, text, cursor).action is None,
        apply_action_g(stack, consume_spec(s, cref, text, cursor).action) == stack,
{
    reveal(consume_spec);
}

proof fn lemma_pick_member(s: Syntax, line: Seq<u8>, cands: Seq<MRef>, i: int, best: Option<int>)
    ensures
        match pick_loop(s, line, cands, i, best) {
            Some(r) => best == Some(r) || i <= r < cands.len(),
            None => best is None,
        },
    decreases cands.len() - i,
{
    if i < 0 || i >= cands.len() {
    } else {
        let better = eligible(s, line, cands[i]) && (match best {
            None => true,
            Some(b) => cand_start(s, line, cands[i]) < cand_start(s, line, cands[b]),
        });
        lemma_pick_member(s, line, cands, i + 1, if better {
            Some(i)
        } else {
            best
        });
    }
}

proof fn lemma_pick_not_k(
    s: Syntax,
    line: Seq<u8>,
    cands: Seq<MRef>,
    i: int,
    best: Option<int>,
    k: int,
)
    requires
        0 <= i <= k < cands.len(),
        eligible(s, line, cands[k]),
        match best {
            Some(b) => 0 <= b < i && b != k,
            None => true,
        },
        (exists|j: int|
            i <= j < k && eligible(s, line, #[trigger] cands[j]) && cand_start(s, line, cands[j])
                <= cand_start(s, line, cands[k])) || (best matches Some(b) && cand_start(
            s,
            line,
            cands[b],
        ) <= cand_start(s, line, cands[k])),
    ensures
        pick_loop(s, line, cands, i, best) != Some(k),
    decreases cands.len() - i,
{
    let better = eligible(s, line, cands[i]) && (match best {
        None => true,
        Some(b) => cand_start(s, line, cands[i]) < cand_start(s, line, cands[b]),
    });
    let nb = if better {
        Some(i)
    } else {
        best
    };
    if i == k {
        assert(best matches Some(b) && cand_start(s, line, cands[b]) <= cand_start(
            s,
            line,
            cands[k],
        ));
        assert(!better);
        lemma_pick_member(s, line, cands, i + 1, best);
    } else {
        if (exists|j: int|
            i <= j < k && eligible(s, line, #[trigger] cands[j]) && cand_start(s, line, cands[j])
                <= cand_start(s, line, cands[k])) {
            let j = choose|j: int|
                i <= j < k && eligible(s, line, #[trigger] cands[j]) && cand_start(
                    s,
                    line,
                    cands[j],
                ) <= cand_start(s, line, cands[k]);
            if j == i {
                if better {
                    assert(nb == Some(i));
                } else {
                    assert(best matches Some(b) && cand_start(s, line, cands[b]) <= cand_start(
                        s,
                        line,
                        cands[i],
                    ));
                }
            } else {
                assert(i + 1 <= j < k && eligible(s, line, cands[j]) && cand_start(
                    s,
                    line,
                    cands[j],
                ) <= cand_start(s, line, cands[k]));
            }
        }
        lemma_pick_not_k(s, line, cands, i + 1, nb, k);
    }
}

/// Tie-break rule: of two candidates whose matches start at the same
/// offset, the one earlier in resolution order wins, whatever the match
/// lengths; the later one is never picked.
pub proof fn lemma_tie_break(s: Syntax, line: Seq<u8>, cands: Seq<MRef>, j: int, k: int)
    requires
        0 <= j < k < cands.len(),
        eligible(s, line, cands[j]),
        eligible(s, line, cands[k]),
        cand_start(s, line, cands[j]) == cand_start(s, line, cands[k]),
    ensures
        pick(s, line, cands) != Some(k),
{
    lemma_pick_not_k(s, line, cands, 0, None, k);
}

} // verus!
