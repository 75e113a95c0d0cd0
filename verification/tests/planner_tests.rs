use posting_engine::planner::{plan_boolean_query, plan_query, plan_score_function, SearchPlan};
use posting_engine::program::{check_boolean_program, check_score_program};
use posting_engine::query::{
    Aggregator, BooleanOp, FieldRef, Lexicon, Query, ScoreOp, ScorerKind, TermRef,
};

fn lexicon() -> Lexicon {
    Lexicon {
        fields: vec![
            ("title".to_string(), FieldRef { ord: 1 }),
            ("body".to_string(), FieldRef { ord: 2 }),
        ],
        terms: vec![
            (b"cat".to_vec(), TermRef { ord: 10 }),
            (b"dog".to_vec(), TermRef { ord: 11 }),
            (b"ca".to_vec(), TermRef { ord: 12 }),
        ],
    }
}

fn term(field: &str, term: &str) -> Query {
    Query::MatchTerm {
        field: field.to_string(),
        term: term.as_bytes().to_vec(),
        scorer: ScorerKind::Bm25,
    }
}

fn load(field: u32, term: u32) -> BooleanOp {
    BooleanOp::LoadPostings(FieldRef { ord: field }, TermRef { ord: term })
}

fn boolean(query: &Query) -> Vec<BooleanOp> {
    let mut ops = Vec::new();
    plan_boolean_query(&lexicon(), &mut ops, query);
    ops
}

fn scores(query: &Query) -> Vec<ScoreOp> {
    let mut ops = Vec::new();
    plan_score_function(&lexicon(), &mut ops, query);
    ops
}

#[test]
fn new_plan_is_empty() {
    let plan = SearchPlan::new();
    assert!(plan.boolean_query.is_empty());
    assert!(plan.score_function.is_empty());
    assert!(!plan.boolean_query_is_negated);
}

#[test]
fn lexicon_resolves_known_names_only() {
    let lex = lexicon();
    assert_eq!(lex.resolve_field(&"title".to_string()), Some(FieldRef { ord: 1 }));
    assert_eq!(lex.resolve_field(&"body".to_string()), Some(FieldRef { ord: 2 }));
    assert_eq!(lex.resolve_field(&"Title".to_string()), None);
    assert_eq!(lex.resolve_term(&b"cat".to_vec()), Some(TermRef { ord: 10 }));
    assert_eq!(lex.resolve_term(&b"ca".to_vec()), Some(TermRef { ord: 12 }));
    assert_eq!(lex.resolve_term(&b"c".to_vec()), None);
    assert_eq!(lex.resolve_term(&b"cats".to_vec()), None);
    assert_eq!(Lexicon::new().resolve_term(&b"cat".to_vec()), None);
}

#[test]
fn leaves_compile_to_one_push() {
    assert_eq!(boolean(&Query::MatchAll { score: 7 }), vec![BooleanOp::PushFull]);
    assert_eq!(boolean(&Query::MatchNone), vec![BooleanOp::PushEmpty]);
    assert_eq!(boolean(&term("title", "cat")), vec![load(1, 10)]);
    assert_eq!(scores(&Query::MatchAll { score: 7 }), vec![ScoreOp::Literal(7)]);
    assert_eq!(scores(&Query::MatchNone), vec![ScoreOp::Literal(0)]);
    assert_eq!(
        scores(&term("title", "cat")),
        vec![ScoreOp::TermScore(FieldRef { ord: 1 }, TermRef { ord: 10 }, ScorerKind::Bm25)]
    );
}

#[test]
fn unknown_names_fold_to_the_empty_set() {
    assert_eq!(boolean(&term("title", "unicorn")), vec![BooleanOp::PushEmpty]);
    assert_eq!(boolean(&term("author", "cat")), vec![BooleanOp::PushEmpty]);
    assert_eq!(scores(&term("title", "unicorn")), vec![]);
    assert_eq!(scores(&term("author", "cat")), vec![]);
}

#[test]
fn combinators_fold_from_the_left() {
    let children = || vec![term("title", "cat"), term("title", "dog"), term("body", "ca")];
    assert_eq!(
        boolean(&Query::Conjunction { queries: children() }),
        vec![load(1, 10), load(1, 11), BooleanOp::And, load(2, 12), BooleanOp::And]
    );
    assert_eq!(
        boolean(&Query::Disjunction { queries: children() }),
        vec![load(1, 10), load(1, 11), BooleanOp::Or, load(2, 12), BooleanOp::Or]
    );
    assert_eq!(
        boolean(&Query::DisjunctionMax { queries: children() }),
        vec![load(1, 10), load(1, 11), BooleanOp::Or, load(2, 12), BooleanOp::Or]
    );
    assert_eq!(
        scores(&Query::Conjunction { queries: children() }).last(),
        Some(&ScoreOp::Combine(3, Aggregator::Average))
    );
    assert_eq!(
        scores(&Query::DisjunctionMax { queries: children() }).last(),
        Some(&ScoreOp::Combine(3, Aggregator::Max))
    );
    assert_eq!(scores(&Query::Disjunction { queries: children() }).len(), 4);
}

#[test]
fn combinators_of_none_and_of_one() {
    assert_eq!(boolean(&Query::Conjunction { queries: vec![] }), vec![BooleanOp::PushEmpty]);
    assert_eq!(boolean(&Query::Disjunction { queries: vec![] }), vec![BooleanOp::PushEmpty]);
    assert_eq!(
        scores(&Query::Conjunction { queries: vec![] }),
        vec![ScoreOp::Combine(0, Aggregator::Average)]
    );
    assert_eq!(
        boolean(&Query::Conjunction { queries: vec![term("title", "dog")] }),
        vec![load(1, 11)]
    );
    assert_eq!(
        scores(&Query::Disjunction { queries: vec![Query::MatchAll { score: 3 }] }),
        vec![ScoreOp::Literal(3), ScoreOp::Combine(1, Aggregator::Average)]
    );
}

#[test]
fn minimum_match_compiles_as_plain_disjunction() {
    let q = Query::NDisjunction {
        queries: vec![term("title", "cat"), term("title", "dog")],
        minimum_should_match: 2,
    };
    assert_eq!(boolean(&q), vec![load(1, 10), load(1, 11), BooleanOp::Or]);
    assert_eq!(scores(&q).last(), Some(&ScoreOp::Combine(2, Aggregator::Average)));
}

#[test]
fn filter_and_exclude_compile_both_sides() {
    let filter = Query::Filter {
        query: Box::new(term("title", "cat")),
        filter: Box::new(term("body", "dog")),
    };
    assert_eq!(boolean(&filter), vec![load(1, 10), load(2, 11), BooleanOp::And]);
    assert_eq!(
        scores(&filter),
        vec![ScoreOp::TermScore(FieldRef { ord: 1 }, TermRef { ord: 10 }, ScorerKind::Bm25)]
    );
    let exclude = Query::Exclude {
        query: Box::new(Query::MatchAll { score: 9 }),
        exclude: Box::new(term("title", "cat")),
    };
    assert_eq!(boolean(&exclude), vec![BooleanOp::PushFull, load(1, 10), BooleanOp::AndNot]);
    assert_eq!(scores(&exclude), vec![ScoreOp::Literal(9)]);
}

#[test]
fn plan_appends_the_tombstone_removal() {
    let plan = plan_query(&lexicon(), &term("title", "cat"), true);
    assert_eq!(
        plan.boolean_query,
        vec![load(1, 10), BooleanOp::LoadDeletions, BooleanOp::AndNot]
    );
    assert!(!plan.boolean_query_is_negated);
    assert_eq!(
        plan.score_function,
        vec![ScoreOp::TermScore(FieldRef { ord: 1 }, TermRef { ord: 10 }, ScorerKind::Bm25)]
    );
}

#[test]
fn plan_without_scores_holds_one_zero() {
    let q = Query::Conjunction { queries: vec![term("title", "cat"), term("title", "unicorn")] };
    let plan = plan_query(&lexicon(), &q, false);
    assert_eq!(plan.score_function, vec![ScoreOp::Literal(0)]);
    assert!(check_score_program(&plan.score_function));
}

#[test]
fn plan_flags_results_that_are_negated() {
    let all = Query::MatchAll { score: 1 };
    assert!(plan_query(&lexicon(), &all, false).boolean_query_is_negated);
    let except = Query::Exclude {
        query: Box::new(Query::MatchAll { score: 1 }),
        exclude: Box::new(term("title", "cat")),
    };
    assert!(plan_query(&lexicon(), &except, false).boolean_query_is_negated);
    let narrowed = Query::Filter {
        query: Box::new(Query::MatchAll { score: 1 }),
        filter: Box::new(term("title", "cat")),
    };
    assert!(!plan_query(&lexicon(), &narrowed, false).boolean_query_is_negated);
    let widened = Query::Disjunction {
        queries: vec![term("title", "cat"), Query::MatchAll { score: 1 }],
    };
    assert!(plan_query(&lexicon(), &widened, false).boolean_query_is_negated);
    let both = Query::Conjunction {
        queries: vec![Query::MatchAll { score: 1 }, term("title", "cat")],
    };
    assert!(!plan_query(&lexicon(), &both, false).boolean_query_is_negated);
}

#[test]
fn excluding_a_negated_set_leaves_a_plain_one() {
    let nothing = Query::Exclude {
        query: Box::new(Query::MatchAll { score: 1 }),
        exclude: Box::new(Query::MatchAll { score: 1 }),
    };
    assert!(!plan_query(&lexicon(), &nothing, false).boolean_query_is_negated);
    let twice = Query::Exclude {
        query: Box::new(Query::MatchAll { score: 1 }),
        exclude: Box::new(Query::Exclude {
            query: Box::new(Query::MatchAll { score: 1 }),
            exclude: Box::new(term("title", "cat")),
        }),
    };
    assert!(!plan_query(&lexicon(), &twice, false).boolean_query_is_negated);
    let from_term = Query::Exclude {
        query: Box::new(term("title", "cat")),
        exclude: Box::new(Query::MatchAll { score: 1 }),
    };
    assert!(!plan_query(&lexicon(), &from_term, false).boolean_query_is_negated);
    let minus_none = Query::Exclude {
        query: Box::new(Query::MatchAll { score: 1 }),
        exclude: Box::new(Query::MatchNone),
    };
    assert!(plan_query(&lexicon(), &minus_none, false).boolean_query_is_negated);
}

fn nested() -> Query {
    Query::Exclude {
        query: Box::new(Query::Disjunction {
            queries: vec![
                Query::Conjunction { queries: vec![term("title", "cat"), term("body", "dog")] },
                Query::DisjunctionMax { queries: vec![] },
                Query::Filter {
                    query: Box::new(Query::MatchAll { score: 4 }),
                    filter: Box::new(Query::MatchNone),
                },
            ],
        }),
        exclude: Box::new(Query::NDisjunction {
            queries: vec![term("title", "ca")],
            minimum_should_match: 1,
        }),
    }
}

#[test]
fn compiled_programs_keep_the_stack_discipline() {
    let plan = plan_query(&lexicon(), &nested(), true);
    assert_eq!(check_boolean_program(&plan.boolean_query), Some(false));
    assert!(check_score_program(&plan.score_function));
    let unknown = Query::Conjunction { queries: vec![term("title", "unicorn"), term("x", "cat")] };
    let plan = plan_query(&lexicon(), &unknown, true);
    assert_eq!(check_boolean_program(&plan.boolean_query), Some(false));
}

#[test]
fn score_program_with_an_unknown_term_runs_short() {
    let q = Query::Conjunction { queries: vec![term("title", "cat"), term("title", "unicorn")] };
    let plan = plan_query(&lexicon(), &q, true);
    assert_eq!(plan.score_function.len(), 2);
    assert!(!check_score_program(&plan.score_function));
    let lone = plan_query(&lexicon(), &term("title", "unicorn"), true);
    assert!(lone.score_function.is_empty());
    assert!(!check_score_program(&lone.score_function));
}

#[test]
fn malformed_programs_are_told_apart() {
    assert_eq!(check_boolean_program(&vec![]), None);
    assert_eq!(check_boolean_program(&vec![BooleanOp::And]), None);
    assert_eq!(check_boolean_program(&vec![BooleanOp::PushFull, BooleanOp::Or]), None);
    assert_eq!(check_boolean_program(&vec![BooleanOp::PushFull, BooleanOp::PushEmpty]), None);
    assert_eq!(check_boolean_program(&vec![BooleanOp::PushFull]), Some(true));
    assert_eq!(
        check_boolean_program(&vec![BooleanOp::PushFull, BooleanOp::PushEmpty, BooleanOp::And]),
        Some(false)
    );
    assert_eq!(
        check_boolean_program(&vec![BooleanOp::PushFull, BooleanOp::PushEmpty, BooleanOp::Or]),
        Some(true)
    );
    assert_eq!(
        check_boolean_program(&vec![BooleanOp::PushEmpty, BooleanOp::PushFull, BooleanOp::AndNot]),
        Some(false)
    );
    assert_eq!(
        check_boolean_program(&vec![BooleanOp::PushFull, BooleanOp::PushEmpty, BooleanOp::AndNot]),
        Some(true)
    );
    assert_eq!(
        check_boolean_program(&vec![BooleanOp::PushFull, BooleanOp::PushFull, BooleanOp::AndNot]),
        Some(false)
    );
    assert!(!check_score_program(&vec![]));
    assert!(!check_score_program(&vec![ScoreOp::Combine(1, Aggregator::Max)]));
    assert!(!check_score_program(&vec![ScoreOp::Literal(1), ScoreOp::Literal(2)]));
    assert!(check_score_program(&vec![
        ScoreOp::Literal(1),
        ScoreOp::Literal(2),
        ScoreOp::Combine(2, Aggregator::Max)
    ]));
    assert!(check_score_program(&vec![ScoreOp::Combine(0, Aggregator::Average)]));
}

#[test]
fn lexicon_answers_with_the_first_entry_of_a_name() {
    let lex = Lexicon {
        fields: vec![
            ("title".to_string(), FieldRef { ord: 4 }),
            ("title".to_string(), FieldRef { ord: 9 }),
        ],
        terms: vec![(vec![], TermRef { ord: 1 }), (vec![0xff], TermRef { ord: 2 }), (vec![], TermRef { ord: 3 })],
    };
    assert_eq!(lex.resolve_field(&"title".to_string()), Some(FieldRef { ord: 4 }));
    assert_eq!(lex.resolve_field(&"".to_string()), None);
    assert_eq!(lex.resolve_term(&vec![]), Some(TermRef { ord: 1 }));
    assert_eq!(lex.resolve_term(&vec![0xff]), Some(TermRef { ord: 2 }));
    assert_eq!(lex.resolve_term(&vec![0xff, 0]), None);
}

#[test]
fn nested_query_compiles_in_postfix_order() {
    let plan = plan_query(&lexicon(), &nested(), true);
    assert_eq!(
        plan.boolean_query,
        vec![
            load(1, 10),
            load(2, 11),
            BooleanOp::And,
            BooleanOp::PushEmpty,
            BooleanOp::Or,
            BooleanOp::PushFull,
            BooleanOp::PushEmpty,
            BooleanOp::And,
            BooleanOp::Or,
            load(1, 12),
            BooleanOp::AndNot,
            BooleanOp::LoadDeletions,
            BooleanOp::AndNot,
        ]
    );
    assert_eq!(
        plan.score_function,
        vec![
            ScoreOp::TermScore(FieldRef { ord: 1 }, TermRef { ord: 10 }, ScorerKind::Bm25),
            ScoreOp::TermScore(FieldRef { ord: 2 }, TermRef { ord: 11 }, ScorerKind::Bm25),
            ScoreOp::Combine(2, Aggregator::Average),
            ScoreOp::Combine(0, Aggregator::Max),
            ScoreOp::Literal(4),
            ScoreOp::Combine(3, Aggregator::Average),
        ]
    );
}
