//! End-to-end tests of the tokenizer: grammars are built from raw
//! declarations and run over byte texts, and the emitted spans checked.

use editor_core::highlighter::Highlighter;
use editor_core::highlighter::ScopeMatch;
use editor_core::syntax::BuildError;
use editor_core::syntax::RawElement;
use editor_core::syntax::RawMatch;
use editor_core::syntax::RawSyntax;
use editor_core::syntax::RawValue;
use editor_core::syntax::Syntax;

fn rule(pattern: &str, scope: Option<&str>) -> RawElement {
    RawElement::Match(RawMatch {
        pattern: pattern.as_bytes().to_vec(),
        scope: scope.map(|s| s.to_string()),
        captures: None,
        push: None,
        pop: None,
        set: None,
    })
}

fn push_rule(pattern: &str, scope: Option<&str>, target: &str) -> RawElement {
    RawElement::Match(RawMatch {
        pattern: pattern.as_bytes().to_vec(),
        scope: scope.map(|s| s.to_string()),
        captures: None,
        push: Some(RawValue::Name(target.to_string())),
        pop: None,
        set: None,
    })
}

fn pop_rule(pattern: &str, scope: Option<&str>) -> RawElement {
    RawElement::Match(RawMatch {
        pattern: pattern.as_bytes().to_vec(),
        scope: scope.map(|s| s.to_string()),
        captures: None,
        push: None,
        pop: Some(true),
        set: None,
    })
}

fn raw_syntax(contexts: Vec<(String, Vec<RawElement>)>) -> RawSyntax {
    RawSyntax {
        name: "test".to_string(),
        scope: "source.test".to_string(),
        file_extensions: vec!["tst".to_string()],
        variables: Vec::new(),
        contexts,
    }
}

fn span_tuples(spans: &[ScopeMatch]) -> Vec<(Option<String>, usize, usize)> {
    spans
        .iter()
        .map(|s| (s.scope.as_ref().map(|sc| sc.name.clone()), s.lo, s.hi))
        .collect()
}

fn parse_str(syntax: &Syntax, text: &str) -> Vec<(Option<String>, usize, usize)> {
    let mut h = Highlighter::new();
    h.parse(syntax, text.as_bytes());
    span_tuples(&h.spans())
}

#[test]
fn line_comment_example() {
    let raw = raw_syntax(vec![(
        "main".to_string(),
        vec![rule("//.*", Some("comment.line"))],
    )]);
    let syntax = Syntax::build(raw).unwrap();
    let spans = parse_str(&syntax, "a // b");
    assert_eq!(
        spans,
        vec![
            (None, 0, 2),
            (Some("comment.line".to_string()), 2, 6),
        ]
    );
}

#[test]
fn push_pop_string_grammar() {
    let raw = raw_syntax(vec![
        ("main".to_string(), vec![push_rule("\"", None, "str")]),
        (
            "str".to_string(),
            vec![pop_rule("\"", None), rule(".", Some("string"))],
        ),
    ]);
    let syntax = Syntax::build(raw).unwrap();
    let spans = parse_str(&syntax, "\"ab\"");
    assert_eq!(
        spans,
        vec![
            (None, 0, 1),
            (Some("string".to_string()), 1, 2),
            (Some("string".to_string()), 2, 3),
            (None, 3, 4),
        ]
    );
    // After the closing quote the stack is back in main: a trailing
    // character is unscoped there, while inside the string context it
    // would have matched the any-character rule.
    let more = parse_str(&syntax, "\"ab\"x");
    assert_eq!(more.last().unwrap(), &(None, 4, 5));
}

#[test]
fn spans_cover_text_contiguously() {
    let raw = raw_syntax(vec![(
        "main".to_string(),
        vec![rule("[0-9]+", Some("number"))],
    )]);
    let syntax = Syntax::build(raw).unwrap();
    let text = "12 abc 34\nxy 5";
    let mut h = Highlighter::new();
    h.parse(&syntax, text.as_bytes());
    let spans = h.spans();
    assert!(!spans.is_empty());
    assert_eq!(spans[0].lo, 0);
    for w in spans.windows(2) {
        assert_eq!(w[0].hi, w[1].lo);
    }
    assert_eq!(spans.last().unwrap().hi, text.len());
}

#[test]
fn reparse_is_idempotent() {
    let raw = raw_syntax(vec![(
        "main".to_string(),
        vec![rule("ab+", Some("word")), rule("[0-9]", Some("digit"))],
    )]);
    let syntax = Syntax::build(raw).unwrap();
    let text = "abb 1 x abbb";
    let first = parse_str(&syntax, text);
    let second = parse_str(&syntax, text);
    assert_eq!(first, second);
}

#[test]
fn blank_line_single_unscoped_span() {
    let raw = raw_syntax(vec![(
        "main".to_string(),
        vec![rule(" *", Some("spaces"))],
    )]);
    let syntax = Syntax::build(raw).unwrap();
    let spans = parse_str(&syntax, "   \t \n");
    assert_eq!(spans, vec![(None, 0, 6)]);
}

#[test]
fn tie_break_prefers_earlier_rule() {
    // Both rules match at offset 0; the one declared first wins even
    // though the other's match is longer.
    let raw = raw_syntax(vec![(
        "main".to_string(),
        vec![rule("ab", Some("first")), rule("abc", Some("second"))],
    )]);
    let syntax = Syntax::build(raw).unwrap();
    let spans = parse_str(&syntax, "abc");
    assert_eq!(spans[0], (Some("first".to_string()), 0, 2));
}

#[test]
fn include_expansion_in_order() {
    let raw = raw_syntax(vec![
        (
            "main".to_string(),
            vec![
                RawElement::Include("numbers".to_string()),
                rule("[a-z]+", Some("word")),
            ],
        ),
        ("numbers".to_string(), vec![rule("[0-9]+", Some("number"))]),
    ]);
    let syntax = Syntax::build(raw).unwrap();
    let spans = parse_str(&syntax, "7x");
    assert_eq!(
        spans,
        vec![
            (Some("number".to_string()), 0, 1),
            (Some("word".to_string()), 1, 2),
        ]
    );
}

#[test]
fn missing_include_is_skipped() {
    let raw = raw_syntax(vec![(
        "main".to_string(),
        vec![
            RawElement::Include("nowhere".to_string()),
            rule("x", Some("letter")),
        ],
    )]);
    let syntax = Syntax::build(raw).unwrap();
    let spans = parse_str(&syntax, "x");
    assert_eq!(spans, vec![(Some("letter".to_string()), 0, 1)]);
}

#[test]
fn captures_slice_the_match() {
    let raw = raw_syntax(vec![(
        "main".to_string(),
        vec![RawElement::Match(RawMatch {
            pattern: b"([a-z]+)=([0-9]+)".to_vec(),
            scope: Some("assign".to_string()),
            captures: Some(vec!["name".to_string(), "value".to_string()]),
            push: None,
            pop: None,
            set: None,
        })],
    )]);
    let syntax = Syntax::build(raw).unwrap();
    let spans = parse_str(&syntax, "ab=17");
    assert_eq!(
        spans,
        vec![
            (Some("name".to_string()), 0, 2),
            (Some("assign".to_string()), 2, 3),
            (Some("value".to_string()), 3, 5),
        ]
    );
}

#[test]
fn meta_scope_fills_leading_text() {
    let raw = raw_syntax(vec![(
        "main".to_string(),
        vec![
            RawElement::MetaScope("text.plain".to_string()),
            rule("b", Some("letter.b")),
        ],
    )]);
    let syntax = Syntax::build(raw).unwrap();
    let spans = parse_str(&syntax, "ab");
    assert_eq!(
        spans,
        vec![
            (Some("text.plain".to_string()), 0, 1),
            (Some("letter.b".to_string()), 1, 2),
        ]
    );
}

#[test]
fn mark_dirty_keeps_unedited_prefix() {
    let raw = raw_syntax(vec![(
        "main".to_string(),
        vec![rule("[0-9]+", Some("number")), rule("[a-z]+", Some("word"))],
    )]);
    let syntax = Syntax::build(raw).unwrap();
    let text = "12 ab\n34 cd\n";
    let mut h = Highlighter::new();
    h.parse(&syntax, text.as_bytes());
    let full = span_tuples(&h.spans());

    // Edit within the second line: the spans of the first line survive.
    h.mark_dirty(9);
    let kept = span_tuples(&h.spans());
    assert!(kept.len() < full.len());
    assert_eq!(&full[..kept.len()], &kept[..]);
    for s in &kept {
        assert!(s.2 < 9);
    }

    // Re-parsing the unchanged text restores exactly the full history.
    h.parse(&syntax, text.as_bytes());
    assert_eq!(span_tuples(&h.spans()), full);
}

#[test]
fn incremental_parse_appends_only_suffix() {
    let raw = raw_syntax(vec![(
        "main".to_string(),
        vec![rule("[a-z]+", Some("word"))],
    )]);
    let syntax = Syntax::build(raw).unwrap();
    let mut h = Highlighter::new();
    h.parse(&syntax, b"ab\ncd\n");
    let before = span_tuples(&h.spans());
    // The edit replaces the second line.
    h.mark_dirty(3);
    h.parse(&syntax, b"ab\nxyz\n");
    let after = span_tuples(&h.spans());
    assert_eq!(after.last().unwrap().2, 7);
    // The first line's spans are unchanged.
    assert_eq!(before[0], after[0]);
}

#[test]
fn zero_width_push_advances_via_stack() {
    // A lookahead push: matches zero characters but changes context.
    let raw = raw_syntax(vec![
        (
            "main".to_string(),
            vec![push_rule("(?=[0-9])", None, "num")],
        ),
        ("num".to_string(), vec![rule("[0-9]+", Some("number"))]),
    ]);
    let syntax = Syntax::build(raw).unwrap();
    let spans = parse_str(&syntax, "42");
    assert!(spans.contains(&(Some("number".to_string()), 0, 2)));
    assert_eq!(spans.last().unwrap().2, 2);
}

#[test]
fn unmatched_text_is_unscoped() {
    let raw = raw_syntax(vec![(
        "main".to_string(),
        vec![rule("z", Some("letter.z"))],
    )]);
    let syntax = Syntax::build(raw).unwrap();
    let spans = parse_str(&syntax, "abc");
    assert_eq!(spans, vec![(None, 0, 3)]);
}

#[test]
fn variables_interpolate_into_patterns() {
    let mut raw = raw_syntax(vec![(
        "main".to_string(),
        vec![rule("{{digits}}", Some("number"))],
    )]);
    raw.variables = vec![
        (b"digits".to_vec(), b"{{digit}}+".to_vec()),
        (b"digit".to_vec(), b"[0-9]".to_vec()),
    ];
    let syntax = Syntax::build(raw).unwrap();
    let spans = parse_str(&syntax, "123");
    assert_eq!(spans, vec![(Some("number".to_string()), 0, 3)]);
}

#[test]
fn build_rejects_missing_main() {
    let raw = raw_syntax(vec![("other".to_string(), vec![rule("x", None)])]);
    assert_eq!(Syntax::build(raw).err(), Some(BuildError::MissingMainContext));
}

#[test]
fn build_rejects_ambiguous_action() {
    let raw = raw_syntax(vec![(
        "main".to_string(),
        vec![RawElement::Match(RawMatch {
            pattern: b"x".to_vec(),
            scope: None,
            captures: None,
            push: Some(RawValue::Name("main".to_string())),
            pop: Some(true),
            set: None,
        })],
    )]);
    assert_eq!(Syntax::build(raw).err(), Some(BuildError::AmbiguousAction));
}

#[test]
fn build_rejects_unknown_variable() {
    let raw = raw_syntax(vec![(
        "main".to_string(),
        vec![rule("{{nothing}}", None)],
    )]);
    assert_eq!(Syntax::build(raw).err(), Some(BuildError::BadVariable));
}

#[test]
fn build_rejects_cyclic_variables() {
    let mut raw = raw_syntax(vec![("main".to_string(), vec![rule("{{a}}", None)])]);
    raw.variables = vec![
        (b"a".to_vec(), b"{{b}}".to_vec()),
        (b"b".to_vec(), b"{{a}}".to_vec()),
    ];
    assert_eq!(Syntax::build(raw).err(), Some(BuildError::BadVariable));
}

#[test]
fn build_rejects_bad_pattern() {
    let raw = raw_syntax(vec![("main".to_string(), vec![rule("(unclosed", None)])]);
    assert_eq!(Syntax::build(raw).err(), Some(BuildError::BadPattern));
}

#[test]
fn build_rejects_runaway_nesting() {
    let mut value = RawValue::Inline(vec![rule("x", None)]);
    for _ in 0..100 {
        value = RawValue::Inline(vec![RawElement::Match(RawMatch {
            pattern: b"y".to_vec(),
            scope: None,
            captures: None,
            push: Some(value),
            pop: None,
            set: None,
        })]);
    }
    let raw = raw_syntax(vec![(
        "main".to_string(),
        vec![RawElement::Match(RawMatch {
            pattern: b"z".to_vec(),
            scope: None,
            captures: None,
            push: Some(value),
            pop: None,
            set: None,
        })],
    )]);
    assert_eq!(Syntax::build(raw).err(), Some(BuildError::TooDeep));
}

#[test]
fn inline_contexts_reachable_by_push() {
    let raw = raw_syntax(vec![(
        "main".to_string(),
        vec![RawElement::Match(RawMatch {
            pattern: b"<".to_vec(),
            scope: None,
            captures: None,
            push: Some(RawValue::Inline(vec![
                pop_rule(">", None),
                rule("[a-z]+", Some("tag")),
            ])),
            pop: None,
            set: None,
        })],
    )]);
    let syntax = Syntax::build(raw).unwrap();
    let spans = parse_str(&syntax, "<ab>");
    assert_eq!(
        spans,
        vec![
            (None, 0, 1),
            (Some("tag".to_string()), 1, 3),
            (None, 3, 4),
        ]
    );
}

#[test]
fn find_by_extension_picks_first_claimant() {
    let mut raw1 = raw_syntax(vec![("main".to_string(), vec![rule("x", None)])]);
    raw1.file_extensions = vec!["rs".to_string(), "rlib".to_string()];
    let mut raw2 = raw_syntax(vec![("main".to_string(), vec![rule("y", None)])]);
    raw2.file_extensions = vec!["js".to_string()];
    let syntaxes = vec![Syntax::build(raw1).unwrap(), Syntax::build(raw2).unwrap()];
    assert_eq!(
        Syntax::find_by_extension(&syntaxes, &"js".to_string()),
        Some(1)
    );
    assert_eq!(
        Syntax::find_by_extension(&syntaxes, &"rlib".to_string()),
        Some(0)
    );
    assert_eq!(Syntax::find_by_extension(&syntaxes, &"py".to_string()), None);
}

#[test]
fn set_action_replaces_top_context() {
    // "a" switches main to ctx2 (pop-then-push); in ctx2 only "b" scopes.
    let raw = raw_syntax(vec![
        (
            "main".to_string(),
            vec![RawElement::Match(RawMatch {
                pattern: b"a".to_vec(),
                scope: None,
                captures: None,
                push: None,
                pop: None,
                set: Some(RawValue::Name("ctx2".to_string())),
            })],
        ),
        ("ctx2".to_string(), vec![rule("b", Some("bee"))]),
    ]);
    let syntax = Syntax::build(raw).unwrap();
    let spans = parse_str(&syntax, "ab");
    assert_eq!(
        spans,
        vec![(None, 0, 1), (Some("bee".to_string()), 1, 2)]
    );
}

#[test]
fn list_push_adds_frames_in_order() {
    // Pushing [one, two] makes "two" the active context; popping it
    // uncovers "one".
    let raw = raw_syntax(vec![
        (
            "main".to_string(),
            vec![RawElement::Match(RawMatch {
                pattern: b"<".to_vec(),
                scope: None,
                captures: None,
                push: Some(RawValue::List(vec![
                    RawValue::Name("one".to_string()),
                    RawValue::Name("two".to_string()),
                ])),
                pop: None,
                set: None,
            })],
        ),
        ("one".to_string(), vec![rule("x", Some("in.one"))]),
        (
            "two".to_string(),
            vec![pop_rule("!", None), rule("x", Some("in.two"))],
        ),
    ]);
    let syntax = Syntax::build(raw).unwrap();
    let spans = parse_str(&syntax, "<x!x");
    assert_eq!(
        spans,
        vec![
            (None, 0, 1),
            (Some("in.two".to_string()), 1, 2),
            (None, 2, 3),
            (Some("in.one".to_string()), 3, 4),
        ]
    );
}

#[test]
fn pop_from_root_context_is_ignored() {
    // A pop in the only stack frame is a recovered runtime error: the
    // stack keeps its root and parsing continues.
    let raw = raw_syntax(vec![(
        "main".to_string(),
        vec![pop_rule("x", Some("ex")), rule("y", Some("why"))],
    )]);
    let syntax = Syntax::build(raw).unwrap();
    let spans = parse_str(&syntax, "xy");
    assert_eq!(
        spans,
        vec![
            (Some("ex".to_string()), 0, 1),
            (Some("why".to_string()), 1, 2),
        ]
    );
}

#[test]
fn runaway_pushes_halt_with_unscoped_remainder() {
    // Every character pushes another frame; past the depth bound the
    // parse stops scoping and leaves the rest uncovered by rules, still
    // tiling the text.
    let raw = raw_syntax(vec![(
        "main".to_string(),
        vec![push_rule(".", Some("dot"), "main")],
    )]);
    let syntax = Syntax::build(raw).unwrap();
    let text: String = std::iter::repeat('a').take(80).collect();
    let mut h = Highlighter::new();
    h.parse(&syntax, text.as_bytes());
    let spans = h.spans();
    assert_eq!(spans[0].lo, 0);
    for w in spans.windows(2) {
        assert_eq!(w[0].hi, w[1].lo);
    }
    assert_eq!(spans.last().unwrap().hi, 80);
    assert_eq!(spans.last().unwrap().scope.as_ref().map(|s| s.name.as_str()), None);
}

#[test]
fn matching_never_crosses_a_newline() {
    let raw = raw_syntax(vec![(
        "main".to_string(),
        vec![rule("a+", Some("as"))],
    )]);
    let syntax = Syntax::build(raw).unwrap();
    let spans = parse_str(&syntax, "aa\naa");
    assert_eq!(
        spans,
        vec![
            (Some("as".to_string()), 0, 2),
            (None, 2, 3),
            (Some("as".to_string()), 3, 5),
        ]
    );
}

#[test]
fn empty_text_yields_no_spans() {
    let raw = raw_syntax(vec![("main".to_string(), vec![rule("x", None)])]);
    let syntax = Syntax::build(raw).unwrap();
    let spans = parse_str(&syntax, "");
    assert_eq!(spans, vec![]);
}
