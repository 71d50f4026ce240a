//! The boundary to the regex engine: compiled patterns and the spans that a
//! search returns, stated over the pattern's source bytes.

use vstd::prelude::*;

verus! {

/// Whether the regex engine accepts this pattern source. Compilation is a
/// function of the source bytes alone.
pub uninterp spec fn pattern_compiles(src: Seq<u8>) -> bool;

/// The capture-group spans that searching `line` with the pattern compiled
/// from `pattern` yields: `None` for no overall match (or a search error, or
/// a line that is not UTF-8), else one entry per group, group 0 first, each
/// `Some((start, end))` in byte offsets or `None` for a group that did not
/// participate. The engine is deterministic, so this is a function of the
/// two byte sequences alone.
pub uninterp spec fn captures_spans(pattern: Seq<u8>, line: Seq<u8>) -> Option<
    Seq<Option<(int, int)>>,
>;

/// Whether a capture entry, if present, lies within a line of length `len`.
pub open spec fn span_within(o: Option<(usize, usize)>, len: int) -> bool {
    match o {
        Some(p) => p.0 <= p.1 <= len,
        None => true,
    }
}

/// The span list of a capture result, as mathematical pairs.
pub open spec fn spans_view(v: Seq<Option<(usize, usize)>>) -> Seq<Option<(int, int)>> {
    v.map(
        |i: int, o: Option<(usize, usize)>|
            match o {
                Some(p) => Some((p.0 as int, p.1 as int)),
                None => None::<(int, int)>,
            },
    )
}

#[verifier::external_type_specification]
#[verifier::external_body]
pub struct ExRegex(fancy_regex::Regex);

/// A compiled pattern together with the source it was compiled from.
///
/// The fields are private and only `Pattern::new` constructs a value, so the
/// compiled regex always belongs to `src`; the contracts of the methods
/// below rely on that pairing.
#[derive(Debug)]
pub struct Pattern {
    re: fancy_regex::Regex,
    src: Vec<u8>,
}

impl Pattern {
    /// The source bytes this pattern was compiled from.
    pub closed spec fn src_spec(&self) -> Seq<u8> {
        self.src@
    }

    pub fn source(&self) -> (r: &Vec<u8>)
        ensures
            r@ == self.src_spec(),
    {
        &self.src
    }

    /// Relies on `fancy_regex::Regex::new`: parses and compiles the pattern,
    /// returning `Err` exactly when the pattern is rejected. Source bytes
    /// that are not UTF-8 are treated as failing to compile.
    #[verifier::external_body]
    pub fn new(src: &[u8]) -> (r: Option<Pattern>)
        ensures
            r is Some <==> pattern_compiles(src@),
            r is Some ==> r->0.src_spec() == src@,
    {
        let text = std::str::from_utf8(src).ok()?;
        let re = fancy_regex::Regex::new(text).ok()?;
        Some(Pattern { re, src: src.to_vec() })
    }

    /// Relies on `fancy_regex::Regex::captures`: returns the capture groups
    /// of the first match, group 0 being the whole match, with byte offsets
    /// into the searched text (so every span lies within the line and group
    /// 0 is present whenever there is a match); a search error is reported
    /// as no match. The loop only converts each returned group to a plain
    /// offset pair, since the `Captures` type cannot be named outside the
    /// crate that defines it.
    #[verifier::external_body]
    pub fn captures(&self, line: &[u8]) -> (r: Option<Vec<Option<(usize, usize)>>>)
        ensures
            match r {
                None => captures_spans(self.src_spec(), line@) is None,
                Some(caps) => {
                    &&& captures_spans(self.src_spec(), line@) == Some(spans_view(caps@))
                    &&& caps@.len() >= 1
                    &&& caps@[0] is Some
                    &&& forall|i: int| 0 <= i < caps@.len() ==> span_within(#[trigger] caps@[i], line@.len() as int)
                },
            },
    {
        let text = std::str::from_utf8(line).ok()?;
        let caps = match self.re.captures(text) {
            Ok(Some(c)) => c,
            _ => return None,
        };
        let mut out = Vec::with_capacity(caps.len());
        for i in 0..caps.len() {
            out.push(caps.get(i).map(|m| (m.start(), m.end())));
        }
        Some(out)
    }
}

} // verus!
