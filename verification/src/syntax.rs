//! The grammar model: scopes, matches, contexts and the built `Syntax`,
//! together with the loader that turns a raw declarative grammar into that
//! model. Loading interpolates variables into every pattern, compiles it,
//! classifies at most one of push/pop/set as the rule's action, and
//! registers inline contexts in an arena addressed by index.

use vstd::prelude::*;
use crate::pattern::Pattern;
use crate::pattern::pattern_compiles;
use crate::variables::interp;
use crate::variables::interpolate;

verus! {

/// An opaque dotted scope label, such as `string.quoted.double`.
#[derive(Debug)]
pub struct Scope {
    pub name: String,
}

impl Scope {
    pub fn as_str(&self) -> (r: &str)
        ensures
            r@ == self.name@,
    {
        self.name.as_str()
    }

    pub fn duplicate(&self) -> (r: Scope)
        ensures
            r == *self,
    {
        Scope { name: self.name.clone() }
    }
}

impl From<String> for Scope {
    fn from(val: String) -> (r: Scope) {
        Scope { name: val }
    }
}

impl vstd::std_specs::convert::FromSpecImpl<String> for Scope {
    open spec fn obeys_from_spec() -> bool {
        true
    }

    open spec fn from_spec(t: String) -> Scope {
        Scope { name: t }
    }
}

/// What a push or set action places on the context stack.
#[derive(Debug)]
pub enum MatchValue {
    /// A named context.
    Name(String),
    /// An inline context, by its index in the anonymous-context arena.
    Inline(usize),
    /// Several values pushed in order by one action.
    List(Vec<MatchValue>),
}

/// The stack effect a rule may carry.
#[derive(Debug)]
pub enum MatchAction {
    Push(MatchValue),
    Pop,
    Replace(MatchValue),
}

/// One compiled rule: a pattern, an optional scope for the whole match,
/// optional per-capture scopes, and an optional stack action.
#[derive(Debug)]
pub struct Match {
    pub regex: Pattern,
    pub action: Option<MatchAction>,
    pub scope: Option<Scope>,
    pub captures: Option<Vec<Scope>>,
}

/// One entry of a context: an include of a named context, or a rule.
#[derive(Debug)]
pub enum ContextElement {
    Include(String),
    Match(Match),
}

/// A lexical state: ordered elements plus the scopes applied to text that
/// no rule claims.
#[derive(Debug)]
pub struct Context {
    pub elements: Vec<ContextElement>,
    pub meta_scope: Option<Scope>,
    pub meta_content_scope: Option<Scope>,
    pub meta_include_prototype: Option<bool>,
    pub clear_scopes: Option<u8>,
}

/// The fully built grammar, immutable once constructed.
#[derive(Debug)]
pub struct Syntax {
    /// Named contexts in declaration order; lookup takes the first with a
    /// given name.
    pub contexts: Vec<(String, Context)>,
    /// Anonymous contexts created for inline definitions, by index.
    pub anon_contexts: Vec<Context>,
    pub name: String,
    pub file_extensions: Vec<String>,
    pub scope: String,
    pub variables: Vec<(Vec<u8>, Vec<u8>)>,
}

/// How a grammar can fail to build.
#[derive(Debug, PartialEq, Eq, Structural, Clone, Copy)]
pub enum BuildError {
    /// No context named `main`.
    MissingMainContext,
    /// A rule declares more than one of push, pop and set.
    AmbiguousAction,
    /// A pattern names an unknown variable, or variable definitions that
    /// never stop expanding.
    BadVariable,
    /// An interpolated pattern the regex engine rejects.
    BadPattern,
    /// Inline definitions nested beyond the builder's depth bound.
    TooDeep,
}

/// The raw, declarative form of a push/set target.
#[derive(Debug)]
pub enum RawValue {
    Name(String),
    Inline(Vec<RawElement>),
    List(Vec<RawValue>),
}

/// The raw form of one rule.
#[derive(Debug)]
pub struct RawMatch {
    /// Pattern text before variable interpolation.
    pub pattern: Vec<u8>,
    pub scope: Option<String>,
    /// Scopes for capture groups 1 onwards, densely by position.
    pub captures: Option<Vec<String>>,
    pub push: Option<RawValue>,
    pub pop: Option<bool>,
    pub set: Option<RawValue>,
}

/// The raw form of one context entry.
#[derive(Debug)]
pub enum RawElement {
    Include(String),
    Match(RawMatch),
    MetaScope(String),
    MetaContentScope(String),
    MetaIncludePrototype(bool),
    ClearScopes(u8),
}

/// The raw form of a whole grammar.
#[derive(Debug)]
pub struct RawSyntax {
    pub name: String,
    pub scope: String,
    pub file_extensions: Vec<String>,
    pub variables: Vec<(Vec<u8>, Vec<u8>)>,
    pub contexts: Vec<(String, Vec<RawElement>)>,
}

/// How deep inline definitions may nest while building.
pub const BUILD_DEPTH: u32 = 64;

/// How many of push, pop and set a raw rule declares.
pub open spec fn action_count(rm: RawMatch) -> int {
    (if rm.push is Some {
        1int
    } else {
        0int
    }) + (if rm.pop is Some {
        1int
    } else {
        0int
    }) + (if rm.set is Some {
        1int
    } else {
        0int
    })
}

/// The first fault in a raw push/set value, or `None`.
pub open spec fn value_fault(v: RawValue, vars: Seq<(Vec<u8>, Vec<u8>)>, depth: nat) -> Option<
    BuildError,
>
    decreases depth, 0int, 1int,
{
    match v {
        RawValue::Name(_) => None,
        RawValue::Inline(elems) => if depth == 0 {
            Some(BuildError::TooDeep)
        } else {
            elems_fault(elems@, vars, (depth - 1) as nat, 0)
        },
        RawValue::List(vs) => if depth == 0 {
            Some(BuildError::TooDeep)
        } else {
            list_fault(vs@, vars, (depth - 1) as nat, 0)
        },
    }
}

/// The first fault in a list of raw values, scanning from `i`.
pub open spec fn list_fault(
    vs: Seq<RawValue>,
    vars: Seq<(Vec<u8>, Vec<u8>)>,
    depth: nat,
    i: int,
) -> Option<BuildError>
    decreases depth, vs.len() - i, 0int,
{
    if i < 0 || i >= vs.len() {
        None
    } else {
        match value_fault(vs[i], vars, depth) {
            Some(e) => Some(e),
            None => list_fault(vs, vars, depth, i + 1),
        }
    }
}

/// The first fault in one raw element: an ambiguous action, a fault inside
/// its push/set value, a pattern that does not interpolate, or one the
/// regex engine rejects — in that order.
pub open spec fn elem_fault(e: RawElement, vars: Seq<(Vec<u8>, Vec<u8>)>, depth: nat) -> Option<
    BuildError,
>
    decreases depth, 0int, 2int,
{
    match e {
        RawElement::Match(rm) => if action_count(rm) > 1 {
            Some(BuildError::AmbiguousAction)
        } else {
            let vf = match rm.push {
                Some(v) => value_fault(v, vars, depth),
                None => match rm.set {
                    Some(v) => value_fault(v, vars, depth),
                    None => None,
                },
            };
            match vf {
                Some(e) => Some(e),
                None => match interp(rm.pattern@, vars) {
                    None => Some(BuildError::BadVariable),
                    Some(p) => if !pattern_compiles(p) {
                        Some(BuildError::BadPattern)
                    } else {
                        None
                    },
                },
            }
        },
        _ => None,
    }
}

/// The first fault among a context's raw elements, scanning from `i`.
pub open spec fn elems_fault(
    elems: Seq<RawElement>,
    vars: Seq<(Vec<u8>, Vec<u8>)>,
    depth: nat,
    i: int,
) -> Option<BuildError>
    decreases depth, elems.len() - i, 3int,
{
    if i < 0 || i >= elems.len() {
        None
    } else {
        match elem_fault(elems[i], vars, depth) {
            Some(e) => Some(e),
            None => elems_fault(elems, vars, depth, i + 1),
        }
    }
}

/// The first fault among the named contexts, scanning from `i`.
pub open spec fn ctxs_fault(
    ctxs: Seq<(String, Vec<RawElement>)>,
    vars: Seq<(Vec<u8>, Vec<u8>)>,
    i: int,
) -> Option<BuildError>
    decreases ctxs.len() - i,
{
    if i < 0 || i >= ctxs.len() {
        None
    } else {
        match elems_fault(ctxs[i].1@, vars, BUILD_DEPTH as nat, 0) {
            Some(e) => Some(e),
            None => ctxs_fault(ctxs, vars, i + 1),
        }
    }
}

/// Whether some context is named `main`.
pub open spec fn has_main(ctxs: Seq<(String, Vec<RawElement>)>) -> bool {
    exists|i: int| 0 <= i < ctxs.len() && ctxs[i].0@ == "main"@
}

/// The first fault in a whole raw grammar: a missing `main`, else the
/// first fault of its contexts in declaration order.
pub open spec fn syntax_fault(raw: RawSyntax) -> Option<BuildError> {
    if !has_main(raw.contexts@) {
        Some(BuildError::MissingMainContext)
    } else {
        ctxs_fault(raw.contexts@, raw.variables@, 0)
    }
}

/// An optional scope carries exactly the raw optional string.
pub open spec fn scope_eq(s: Option<Scope>, raw: Option<String>) -> bool {
    match (s, raw) {
        (Some(sc), Some(r)) => sc.name@ == r@,
        (None, None) => true,
        _ => false,
    }
}

/// Built capture scopes carry exactly the raw capture strings, in order.
pub open spec fn captures_eq(c: Option<Vec<Scope>>, raw: Option<Vec<String>>) -> bool {
    match (c, raw) {
        (Some(cs), Some(rs)) => cs@.len() == rs@.len() && forall|i: int|
            0 <= i < cs@.len() ==> (#[trigger] cs@[i]).name@ == rs@[i]@,
        (None, None) => true,
        _ => false,
    }
}

/// The raw elements that become context elements: includes and rules.
pub open spec fn is_rule(e: RawElement) -> bool {
    e is Include || e is Match
}

/// The includes and rules among `elems`, from `i` on, in order.
pub open spec fn rules_of(elems: Seq<RawElement>, i: int) -> Seq<RawElement>
    decreases elems.len() - i,
{
    if i < 0 || i >= elems.len() {
        Seq::empty()
    } else if is_rule(elems[i]) {
        seq![elems[i]] + rules_of(elems, i + 1)
    } else {
        rules_of(elems, i + 1)
    }
}

/// The first `meta_scope` entry from `i` on.
pub open spec fn first_meta_scope(elems: Seq<RawElement>, i: int) -> Option<String>
    decreases elems.len() - i,
{
    if i < 0 || i >= elems.len() {
        None
    } else {
        match elems[i] {
            RawElement::MetaScope(s) => Some(s),
            _ => first_meta_scope(elems, i + 1),
        }
    }
}

/// The first `meta_content_scope` entry from `i` on.
pub open spec fn first_meta_content_scope(elems: Seq<RawElement>, i: int) -> Option<String>
    decreases elems.len() - i,
{
    if i < 0 || i >= elems.len() {
        None
    } else {
        match elems[i] {
            RawElement::MetaContentScope(s) => Some(s),
            _ => first_meta_content_scope(elems, i + 1),
        }
    }
}

/// The first `meta_include_prototype` entry from `i` on.
pub open spec fn first_meta_proto(elems: Seq<RawElement>, i: int) -> Option<bool>
    decreases elems.len() - i,
{
    if i < 0 || i >= elems.len() {
        None
    } else {
        match elems[i] {
            RawElement::MetaIncludePrototype(b) => Some(b),
            _ => first_meta_proto(elems, i + 1),
        }
    }
}

/// The first `clear_scopes` entry from `i` on.
pub open spec fn first_clear_scopes(elems: Seq<RawElement>, i: int) -> Option<u8>
    decreases elems.len() - i,
{
    if i < 0 || i >= elems.len() {
        None
    } else {
        match elems[i] {
            RawElement::ClearScopes(d) => Some(d),
            _ => first_clear_scopes(elems, i + 1),
        }
    }
}

/// A built value stands for its raw form: names carried over, inline
/// definitions registered in the arena at the stored index, lists built
/// element by element.
pub open spec fn value_corr(
    raw: RawValue,
    v: MatchValue,
    vars: Seq<(Vec<u8>, Vec<u8>)>,
    anon: Seq<Context>,
    depth: nat,
) -> bool
    decreases depth, 0int,
{
    match (raw, v) {
        (RawValue::Name(rn), MatchValue::Name(n)) => n@ == rn@,
        (RawValue::Inline(relems), MatchValue::Inline(k)) => {
            &&& depth > 0
            &&& 0 <= k < anon.len()
            &&& ctx_corr(relems@, anon[k as int], vars, anon, (depth - 1) as nat)
        },
        (RawValue::List(rvs), MatchValue::List(vs)) => {
            &&& depth > 0
            &&& rvs@.len() == vs@.len()
            &&& forall|i: int|
                0 <= i < rvs@.len() ==> value_corr(
                    rvs@[i],
                    #[trigger] vs@[i],
                    vars,
                    anon,
                    (depth - 1) as nat,
                )
        },
        _ => false,
    }
}

/// A built rule stands for its raw form: the pattern source is the raw
/// pattern interpolated, scope and captures are carried over, and the
/// action is the one stack effect the raw rule declares.
pub open spec fn match_corr(
    rm: RawMatch,
    m: Match,
    vars: Seq<(Vec<u8>, Vec<u8>)>,
    anon: Seq<Context>,
    depth: nat,
) -> bool
    decreases depth, 1int,
{
    &&& interp(rm.pattern@, vars) == Some(m.regex.src_spec())
    &&& scope_eq(m.scope, rm.scope)
    &&& captures_eq(m.captures, rm.captures)
    &&& match (rm.push, rm.pop, rm.set) {
        (Some(rv), None, None) => m.action matches Some(MatchAction::Push(mv)) && value_corr(
            rv,
            mv,
            vars,
            anon,
            depth,
        ),
        (None, Some(_), None) => m.action == Some(MatchAction::Pop),
        (None, None, Some(rv)) => m.action matches Some(MatchAction::Replace(mv)) && value_corr(
            rv,
            mv,
            vars,
            anon,
            depth,
        ),
        (None, None, None) => m.action is None,
        _ => false,
    }
}

/// A built element stands for its raw form.
pub open spec fn elem_corr(
    re: RawElement,
    e: ContextElement,
    vars: Seq<(Vec<u8>, Vec<u8>)>,
    anon: Seq<Context>,
    depth: nat,
) -> bool
    decreases depth, 2int,
{
    match (re, e) {
        (RawElement::Include(rn), ContextElement::Include(n)) => n@ == rn@,
        (RawElement::Match(rm), ContextElement::Match(m)) => match_corr(rm, m, vars, anon, depth),
        _ => false,
    }
}

/// A built context stands for its raw elements: each meta field is the
/// first such raw entry, and the elements are exactly the raw includes and
/// rules, in order.
pub open spec fn ctx_corr(
    relems: Seq<RawElement>,
    c: Context,
    vars: Seq<(Vec<u8>, Vec<u8>)>,
    anon: Seq<Context>,
    depth: nat,
) -> bool
    decreases depth, 3int,
{
    &&& scope_eq(c.meta_scope, first_meta_scope(relems, 0))
    &&& scope_eq(c.meta_content_scope, first_meta_content_scope(relems, 0))
    &&& c.meta_include_prototype == first_meta_proto(relems, 0)
    &&& c.clear_scopes == first_clear_scopes(relems, 0)
    &&& c.elements@.len() == rules_of(relems, 0).len()
    &&& forall|i: int|
        0 <= i < c.elements@.len() ==> elem_corr(
            rules_of(relems, 0)[i],
            #[trigger] c.elements@[i],
            vars,
            anon,
            depth,
        )
}

/// A whole built grammar stands for its raw form.
pub open spec fn syntax_corr(raw: RawSyntax, s: Syntax) -> bool {
    &&& s.name == raw.name
    &&& s.scope == raw.scope
    &&& s.file_extensions == raw.file_extensions
    &&& s.variables == raw.variables
    &&& s.contexts@.len() == raw.contexts@.len()
    &&& forall|i: int|
        0 <= i < s.contexts@.len() ==> (#[trigger] s.contexts@[i]).0 == raw.contexts@[i].0
    &&& forall|i: int|
        0 <= i < s.contexts@.len() ==> ctx_corr(
            raw.contexts@[i].1@,
            (#[trigger] s.contexts@[i]).1,
            raw.variables@,
            s.anon_contexts@,
            BUILD_DEPTH as nat,
        )
}

/// Growing the arena preserves value correspondence.
proof fn lemma_value_corr_extend(
    raw: RawValue,
    v: MatchValue,
    vars: Seq<(Vec<u8>, Vec<u8>)>,
    anon1: Seq<Context>,
    anon2: Seq<Context>,
    depth: nat,
)
    requires
        value_corr(raw, v, vars, anon1, depth),
        anon1.is_prefix_of(anon2),
    ensures
        value_corr(raw, v, vars, anon2, depth),
    decreases depth, 0int,
{
    match (raw, v) {
        (RawValue::Inline(relems), MatchValue::Inline(k)) => {
            assert(anon2[k as int] == anon1[k as int]);
            lemma_ctx_corr_extend(
                relems@,
                anon1[k as int],
                vars,
                anon1,
                anon2,
                (depth - 1) as nat,
            );
        },
        (RawValue::List(rvs), MatchValue::List(vs)) => {
            assert forall|i: int| 0 <= i < rvs@.len() implies value_corr(
                rvs@[i],
                #[trigger] vs@[i],
                vars,
                anon2,
                (depth - 1) as nat,
            ) by {
                lemma_value_corr_extend(rvs@[i], vs@[i], vars, anon1, anon2, (depth - 1) as nat);
            }
        },
        _ => {},
    }
}

/// Growing the arena preserves element correspondence.
proof fn lemma_elem_corr_extend(
    re: RawElement,
    e: ContextElement,
    vars: Seq<(Vec<u8>, Vec<u8>)>,
    anon1: Seq<Context>,
    anon2: Seq<Context>,
    depth: nat,
)
    requires
        elem_corr(re, e, vars, anon1, depth),
        anon1.is_prefix_of(anon2),
    ensures
        elem_corr(re, e, vars, anon2, depth),
    decreases depth, 2int,
{
    match (re, e) {
        (RawElement::Match(rm), ContextElement::Match(m)) => {
            match (rm.push, rm.pop, rm.set) {
                (Some(rv), None, None) => {
                    lemma_value_corr_extend(
                        rv,
                        m.action->Some_0->Push_0,
                        vars,
                        anon1,
                        anon2,
                        depth,
                    );
                },
                (None, None, Some(rv)) => {
                    lemma_value_corr_extend(
                        rv,
                        m.action->Some_0->Replace_0,
                        vars,
                        anon1,
                        anon2,
                        depth,
                    );
                },
                _ => {},
            }
        },
        _ => {},
    }
}

/// Growing the arena preserves context correspondence.
proof fn lemma_ctx_corr_extend(
    relems: Seq<RawElement>,
    c: Context,
    vars: Seq<(Vec<u8>, Vec<u8>)>,
    anon1: Seq<Context>,
    anon2: Seq<Context>,
    depth: nat,
)
    requires
        ctx_corr(relems, c, vars, anon1, depth),
        anon1.is_prefix_of(anon2),
    ensures
        ctx_corr(relems, c, vars, anon2, depth),
    decreases depth, 3int,
{
    assert forall|i: int| 0 <= i < c.elements@.len() implies elem_corr(
        rules_of(relems, 0)[i],
        #[trigger] c.elements@[i],
        vars,
        anon2,
        depth,
    ) by {
        lemma_elem_corr_extend(rules_of(relems, 0)[i], c.elements@[i], vars, anon1, anon2, depth);
    }
}

} // verus!

verus! {

/// A meta field scan in progress: either the first entry was already
/// found, or it still lies at or past position `i`.
pub open spec fn meta_state<X>(found: Option<X>, whole: Option<X>, rest: Option<X>) -> bool {
    match found {
        Some(v) => whole == Some(v),
        None => whole == rest,
    }
}

impl MatchValue {
    /// Builds a push/set value, registering inline contexts in the arena.
    fn build(
        raw: &RawValue,
        vars: &Vec<(Vec<u8>, Vec<u8>)>,
        anon: &mut Vec<Context>,
        depth: u32,
    ) -> (r: Result<MatchValue, BuildError>)
        ensures
            old(anon)@.is_prefix_of(final(anon)@),
            match r {
                Ok(v) => value_fault(*raw, vars@, depth as nat) is None && value_corr(
                    *raw,
                    v,
                    vars@,
                    final(anon)@,
                    depth as nat,
                ),
                Err(e) => value_fault(*raw, vars@, depth as nat) == Some(e),
            },
        decreases depth, 0int,
    {
        match raw {
            RawValue::Name(name) => Ok(MatchValue::Name(name.clone())),
            RawValue::Inline(ctx_elems) => {
                if depth == 0 {
                    return Err(BuildError::TooDeep);
                }
                let new_ctx = match Context::build(ctx_elems, vars, anon, depth - 1) {
                    Ok(c) => c,
                    Err(e) => {
                        return Err(e);
                    },
                };
                let ghost anon_mid = anon@;
                let k: usize = anon.len();
                anon.push(new_ctx);
                proof {
                    assert(anon_mid.is_prefix_of(anon@));
                    lemma_ctx_corr_extend(
                        ctx_elems@,
                        anon@[k as int],
                        vars@,
                        anon_mid,
                        anon@,
                        (depth - 1) as nat,
                    );
                }
                Ok(MatchValue::Inline(k))
            },
            RawValue::List(values) => {
                if depth == 0 {
                    return Err(BuildError::TooDeep);
                }
                let mut out: Vec<MatchValue> = Vec::new();
                let mut i: usize = 0;
                let n: usize = values.len();
                while i < n
                    invariant
                        n == values@.len(),
                        i <= n,
                        depth >= 1,
                        *raw == RawValue::List(*values),
                        old(anon)@.is_prefix_of(anon@),
                        list_fault(values@, vars@, (depth - 1) as nat, 0) == list_fault(
                            values@,
                            vars@,
                            (depth - 1) as nat,
                            i as int,
                        ),
                        out@.len() == i,
                        forall|j: int|
                            0 <= j < i ==> value_corr(
                                values@[j],
                                #[trigger] out@[j],
                                vars@,
                                anon@,
                                (depth - 1) as nat,
                            ),
                    decreases n - i,
                {
                    let ghost anon_before = anon@;
                    match MatchValue::build(&values[i], vars, anon, depth - 1) {
                        Ok(v) => {
                            out.push(v);
                            proof {
                                assert forall|j: int| 0 <= j < i implies value_corr(
                                    values@[j],
                                    #[trigger] out@[j],
                                    vars@,
                                    anon@,
                                    (depth - 1) as nat,
                                ) by {
                                    lemma_value_corr_extend(
                                        values@[j],
                                        out@[j],
                                        vars@,
                                        anon_before,
                                        anon@,
                                        (depth - 1) as nat,
                                    );
                                }
                            }
                        },
                        Err(e) => {
                            proof {
                                assert(list_fault(
                                    values@,
                                    vars@,
                                    (depth - 1) as nat,
                                    i as int,
                                ) == Some(e));
                                assert(value_fault(*raw, vars@, depth as nat) == list_fault(
                                    values@,
                                    vars@,
                                    (depth - 1) as nat,
                                    0,
                                ));
                            }
                            return Err(e);
                        },
                    }
                    i = i + 1;
                }
                Ok(MatchValue::List(out))
            },
        }
    }
}

impl Context {
    /// Builds one context from its raw elements: meta entries become the
    /// context's meta fields (first occurrence each), includes and rules
    /// become its elements in order.
    fn build(
        raw: &Vec<RawElement>,
        vars: &Vec<(Vec<u8>, Vec<u8>)>,
        anon: &mut Vec<Context>,
        depth: u32,
    ) -> (r: Result<Context, BuildError>)
        ensures
            old(anon)@.is_prefix_of(final(anon)@),
            match r {
                Ok(c) => elems_fault(raw@, vars@, depth as nat, 0) is None && ctx_corr(
                    raw@,
                    c,
                    vars@,
                    final(anon)@,
                    depth as nat,
                ),
                Err(e) => elems_fault(raw@, vars@, depth as nat, 0) == Some(e),
            },
        decreases depth, 1int,
    {
        let n: usize = raw.len();
        let mut meta_scope_raw: Option<String> = None;
        let mut meta_content_raw: Option<String> = None;
        let mut meta_proto: Option<bool> = None;
        let mut clear_scopes: Option<u8> = None;
        let mut i: usize = 0;
        while i < n
            invariant
                n == raw@.len(),
                i <= n,
                meta_state(meta_scope_raw, first_meta_scope(raw@, 0), first_meta_scope(raw@, i as int)),
                meta_state(
                    meta_content_raw,
                    first_meta_content_scope(raw@, 0),
                    first_meta_content_scope(raw@, i as int),
                ),
                meta_state(meta_proto, first_meta_proto(raw@, 0), first_meta_proto(raw@, i as int)),
                meta_state(
                    clear_scopes,
                    first_clear_scopes(raw@, 0),
                    first_clear_scopes(raw@, i as int),
                ),
            decreases n - i,
        {
            match &raw[i] {
                RawElement::MetaScope(s) => {
                    if meta_scope_raw.is_none() {
                        meta_scope_raw = Some(s.clone());
                    }
                },
                RawElement::MetaContentScope(s) => {
                    if meta_content_raw.is_none() {
                        meta_content_raw = Some(s.clone());
                    }
                },
                RawElement::MetaIncludePrototype(b) => {
                    if meta_proto.is_none() {
                        meta_proto = Some(*b);
                    }
                },
                RawElement::ClearScopes(d) => {
                    if clear_scopes.is_none() {
                        clear_scopes = Some(*d);
                    }
                },
                _ => {},
            }
            i = i + 1;
        }
        let mut elements: Vec<ContextElement> = Vec::new();
        let ghost mut rules_seen: Seq<RawElement> = Seq::empty();
        let mut i: usize = 0;
        assert(rules_seen + rules_of(raw@, 0) =~= rules_of(raw@, 0));
        while i < n
            invariant
                n == raw@.len(),
                i <= n,
                old(anon)@.is_prefix_of(anon@),
                elems_fault(raw@, vars@, depth as nat, 0) == elems_fault(
                    raw@,
                    vars@,
                    depth as nat,
                    i as int,
                ),
                rules_of(raw@, 0) == rules_seen + rules_of(raw@, i as int),
                elements@.len() == rules_seen.len(),
                forall|j: int|
                    0 <= j < rules_seen.len() ==> elem_corr(
                        rules_seen[j],
                        #[trigger] elements@[j],
                        vars@,
                        anon@,
                        depth as nat,
                    ),
            decreases n - i,
        {
            let ghost gi = i as int;
            match &raw[i] {
                RawElement::Include(name) => {
                    elements.push(ContextElement::Include(name.clone()));
                    proof {
                        rules_seen = rules_seen + seq![raw@[gi]];
                        assert(rules_of(raw@, 0) =~= rules_seen + rules_of(raw@, gi + 1));
                    }
                },
                RawElement::Match(rm) => {
                    let ghost anon_before = anon@;
                    let action: Option<MatchAction> = match (&rm.push, &rm.pop, &rm.set) {
                        (Some(v), None, None) => {
                            match MatchValue::build(v, vars, anon, depth) {
                                Ok(mv) => Some(MatchAction::Push(mv)),
                                Err(e) => {
                                    proof {
                                        assert(elem_fault(raw@[gi], vars@, depth as nat) == Some(
                                            e,
                                        ));
                                        assert(elems_fault(raw@, vars@, depth as nat, gi) == Some(
                                            e,
                                        ));
                                    }
                                    return Err(e);
                                },
                            }
                        },
                        (None, Some(_), None) => Some(MatchAction::Pop),
                        (None, None, Some(v)) => {
                            match MatchValue::build(v, vars, anon, depth) {
                                Ok(mv) => Some(MatchAction::Replace(mv)),
                                Err(e) => {
                                    proof {
                                        assert(elem_fault(raw@[gi], vars@, depth as nat) == Some(
                                            e,
                                        ));
                                        assert(elems_fault(raw@, vars@, depth as nat, gi) == Some(
                                            e,
                                        ));
                                    }
                                    return Err(e);
                                },
                            }
                        },
                        (None, None, None) => None,
                        _ => {
                            return Err(BuildError::AmbiguousAction);
                        },
                    };
                    let interpolated: Vec<u8> = match interpolate(&rm.pattern, vars) {
                        Some(p) => p,
                        None => {
                            return Err(BuildError::BadVariable);
                        },
                    };
                    let regex: Pattern = match Pattern::new(interpolated.as_slice()) {
                        Some(p) => p,
                        None => {
                            return Err(BuildError::BadPattern);
                        },
                    };
                    let scope: Option<Scope> = match &rm.scope {
                        Some(s) => Some(Scope { name: s.clone() }),
                        None => None,
                    };
                    let captures: Option<Vec<Scope>> = match &rm.captures {
                        Some(rs) => {
                            let mut cs: Vec<Scope> = Vec::new();
                            let mut k: usize = 0;
                            while k < rs.len()
                                invariant
                                    k <= rs@.len(),
                                    cs@.len() == k,
                                    forall|t: int|
                                        0 <= t < k ==> (#[trigger] cs@[t]).name@ == rs@[t]@,
                                decreases rs@.len() - k,
                            {
                                cs.push(Scope { name: rs[k].clone() });
                                k = k + 1;
                            }
                            Some(cs)
                        },
                        None => None,
                    };
                    let m = Match { regex, action, scope, captures };
                    elements.push(ContextElement::Match(m));
                    proof {
                        rules_seen = rules_seen + seq![raw@[gi]];
                        assert(rules_of(raw@, 0) =~= rules_seen + rules_of(raw@, gi + 1));
                        assert forall|j: int| 0 <= j < rules_seen.len() - 1 implies elem_corr(
                            rules_seen[j],
                            #[trigger] elements@[j],
                            vars@,
                            anon@,
                            depth as nat,
                        ) by {
                            lemma_elem_corr_extend(
                                rules_seen[j],
                                elements@[j],
                                vars@,
                                anon_before,
                                anon@,
                                depth as nat,
                            );
                        }
                        assert(elem_corr(raw@[gi], elements@[elements@.len() - 1], vars@, anon@, depth as nat));
                    }
                },
                _ => {
                    proof {
                        assert(rules_of(raw@, gi) == rules_of(raw@, gi + 1));
                    }
                },
            }
            i = i + 1;
        }
        let meta_scope: Option<Scope> = match meta_scope_raw {
            Some(s) => Some(Scope { name: s }),
            None => None,
        };
        let meta_content_scope: Option<Scope> = match meta_content_raw {
            Some(s) => Some(Scope { name: s }),
            None => None,
        };
        proof {
            assert(rules_of(raw@, n as int) =~= Seq::<RawElement>::empty());
            assert(rules_seen + Seq::<RawElement>::empty() =~= rules_seen);
        }
        Ok(
            Context {
                elements,
                meta_scope,
                meta_content_scope,
                meta_include_prototype: meta_proto,
                clear_scopes,
            },
        )
    }
}

impl Syntax {
    /// Builds the whole grammar: requires a context named `main`, then
    /// builds every named context in declaration order.
    pub fn build(raw: RawSyntax) -> (r: Result<Syntax, BuildError>)
        ensures
            r is Ok <==> syntax_fault(raw) is None,
            r matches Err(e) ==> syntax_fault(raw) == Some(e),
            r matches Ok(s) ==> syntax_corr(raw, s),
    {
        let main_name: String = String::from_str("main");
        let nc: usize = raw.contexts.len();
        let mut found_main: bool = false;
        let mut i: usize = 0;
        while i < nc
            invariant
                nc == raw.contexts@.len(),
                i <= nc,
                main_name@ == "main"@,
                found_main ==> has_main(raw.contexts@),
                !found_main ==> forall|k: int| 0 <= k < i ==> raw.contexts@[k].0@ != "main"@,
            decreases nc - i,
        {
            if !found_main && raw.contexts[i].0 == main_name {
                found_main = true;
            }
            i = i + 1;
        }
        if !found_main {
            assert(!has_main(raw.contexts@));
            return Err(BuildError::MissingMainContext);
        }
        let mut built: Vec<(String, Context)> = Vec::new();
        let mut anon: Vec<Context> = Vec::new();
        let mut i: usize = 0;
        while i < nc
            invariant
                nc == raw.contexts@.len(),
                i <= nc,
                has_main(raw.contexts@),
                ctxs_fault(raw.contexts@, raw.variables@, 0) == ctxs_fault(
                    raw.contexts@,
                    raw.variables@,
                    i as int,
                ),
                built@.len() == i,
                forall|j: int| 0 <= j < i ==> (#[trigger] built@[j]).0 == raw.contexts@[j].0,
                forall|j: int|
                    0 <= j < i ==> ctx_corr(
                        raw.contexts@[j].1@,
                        (#[trigger] built@[j]).1,
                        raw.variables@,
                        anon@,
                        BUILD_DEPTH as nat,
                    ),
            decreases nc - i,
        {
            let ghost anon_before = anon@;
            match Context::build(&raw.contexts[i].1, &raw.variables, &mut anon, BUILD_DEPTH) {
                Ok(c) => {
                    built.push((raw.contexts[i].0.clone(), c));
                    proof {
                        assert forall|j: int| 0 <= j < i implies ctx_corr(
                            raw.contexts@[j].1@,
                            (#[trigger] built@[j]).1,
                            raw.variables@,
                            anon@,
                            BUILD_DEPTH as nat,
                        ) by {
                            lemma_ctx_corr_extend(
                                raw.contexts@[j].1@,
                                built@[j].1,
                                raw.variables@,
                                anon_before,
                                anon@,
                                BUILD_DEPTH as nat,
                            );
                        }
                    }
                },
                Err(e) => {
                    proof {
                        assert(ctxs_fault(raw.contexts@, raw.variables@, i as int) == Some(e));
                    }
                    return Err(e);
                },
            }
            i = i + 1;
        }
        Ok(
            Syntax {
                contexts: built,
                anon_contexts: anon,
                name: raw.name,
                file_extensions: raw.file_extensions,
                scope: raw.scope,
                variables: raw.variables,
            },
        )
    }
}

} // verus!

verus! {

/// Whether the grammar claims this file extension.
pub open spec fn ext_match(s: Syntax, ext: Seq<char>) -> bool {
    exists|j: int| 0 <= j < s.file_extensions@.len() && (#[trigger] s.file_extensions@[j])@ == ext
}

impl Syntax {
    /// The first of the given grammars that claims the extension.
    pub fn find_by_extension(syntaxes: &Vec<Syntax>, ext: &String) -> (r: Option<usize>)
        ensures
            match r {
                Some(i) => i < syntaxes@.len() && ext_match(syntaxes@[i as int], ext@) && forall|
                    k: int,
                |
                    0 <= k < i ==> !ext_match(syntaxes@[k], ext@),
                None => forall|k: int| 0 <= k < syntaxes@.len() ==> !ext_match(syntaxes@[k], ext@),
            },
    {
        let n: usize = syntaxes.len();
        let mut i: usize = 0;
        while i < n
            invariant
                n == syntaxes@.len(),
                i <= n,
                forall|k: int| 0 <= k < i ==> !ext_match(syntaxes@[k], ext@),
            decreases n - i,
        {
            let exts = &syntaxes[i].file_extensions;
            let m: usize = exts.len();
            let mut j: usize = 0;
            while j < m
                invariant
                    m == exts@.len(),
                    j <= m,
                    exts@ == syntaxes@[i as int].file_extensions@,
                    i < n == syntaxes@.len(),
                    forall|k: int| 0 <= k < i ==> !ext_match(syntaxes@[k], ext@),
                    forall|t: int| 0 <= t < j ==> (#[trigger] exts@[t])@ != ext@,
                decreases m - j,
            {
                if exts[j] == *ext {
                    assert(ext_match(syntaxes@[i as int], ext@));
                    return Some(i);
                }
                j = j + 1;
            }
            assert(!ext_match(syntaxes@[i as int], ext@));
            i = i + 1;
        }
        None
    }
}

} // verus!
