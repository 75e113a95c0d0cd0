//! Compiles a query tree into two postfix programs: one that computes the
//! matching set and one that computes a document's score.

use vstd::prelude::*;
use crate::query::Aggregator;
use crate::query::BooleanOp;
use crate::query::Lexicon;
use crate::query::Query;
use crate::query::ScoreOp;
use crate::program::boolean_well_formed;
use crate::program::check_boolean_program;
use crate::program::depth_after;
use crate::program::lemma_depth_concat;
use crate::program::lemma_depth_single;
use crate::program::lemma_shape_concat;
use crate::program::lemma_shape_single;
use crate::program::result_flag;
use crate::program::score_well_formed;
use crate::program::shape_after;

verus! {

/// The boolean program of one query. A term clause whose field or term is
/// unknown compiles to the empty set. A disjunction with a minimum match
/// compiles as a plain disjunction: the threshold is not enforced.
pub open spec fn boolean_program(q: Query, lex: Lexicon) -> Seq<BooleanOp>
    decreases q, 0nat,
{
    match q {
        Query::MatchAll { .. } => seq![BooleanOp::PushFull],
        Query::MatchNone => seq![BooleanOp::PushEmpty],
        Query::MatchTerm { field, term, .. } => match (lex.field_of(field@), lex.term_of(term@)) {
            (Some(f), Some(t)) => seq![BooleanOp::LoadPostings(f, t)],
            _ => seq![BooleanOp::PushEmpty],
        },
        Query::Conjunction { queries } => joined_program(queries, queries@.len(), BooleanOp::And, lex),
        Query::Disjunction { queries } => joined_program(queries, queries@.len(), BooleanOp::Or, lex),
        Query::NDisjunction { queries, .. } => joined_program(
            queries,
            queries@.len(),
            BooleanOp::Or,
            lex,
        ),
        Query::DisjunctionMax { queries } => joined_program(
            queries,
            queries@.len(),
            BooleanOp::Or,
            lex,
        ),
        Query::Filter { query, filter } => boolean_program(*query, lex) + boolean_program(*filter, lex)
            + seq![BooleanOp::And],
        Query::Exclude { query, exclude } => boolean_program(*query, lex) + boolean_program(
            *exclude,
            lex,
        ) + seq![BooleanOp::AndNot],
    }
}

/// The boolean program of the first `n` of `queries` folded from the left
/// with `join`: none gives the empty set, one stands for itself.
pub open spec fn joined_program(queries: Vec<Query>, n: nat, join: BooleanOp, lex: Lexicon) -> Seq<
    BooleanOp,
>
    decreases queries, n,
{
    if n == 0 || n > queries@.len() {
        seq![BooleanOp::PushEmpty]
    } else if n == 1 {
        boolean_program(queries[0], lex)
    } else {
        joined_program(queries, (n - 1) as nat, join, lex) + boolean_program(queries[n - 1], lex)
            + seq![join]
    }
}

/// The score program of one query. A term clause with an unknown name adds
/// nothing; a filter or an exclusion scores as the query it narrows.
pub open spec fn score_program(q: Query, lex: Lexicon) -> Seq<ScoreOp>
    decreases q, 0nat,
{
    match q {
        Query::MatchAll { score } => seq![ScoreOp::Literal(score)],
        Query::MatchNone => seq![ScoreOp::Literal(0)],
        Query::MatchTerm { field, term, scorer } => match (lex.field_of(field@), lex.term_of(term@)) {
            (Some(f), Some(t)) => seq![ScoreOp::TermScore(f, t, scorer)],
            _ => Seq::empty(),
        },
        Query::Conjunction { queries } => score_children(queries, queries@.len(), lex) + seq![
            ScoreOp::Combine(queries@.len() as u32, Aggregator::Average),
        ],
        Query::Disjunction { queries } => score_children(queries, queries@.len(), lex) + seq![
            ScoreOp::Combine(queries@.len() as u32, Aggregator::Average),
        ],
        Query::NDisjunction { queries, .. } => score_children(queries, queries@.len(), lex) + seq![
            ScoreOp::Combine(queries@.len() as u32, Aggregator::Average),
        ],
        Query::DisjunctionMax { queries } => score_children(queries, queries@.len(), lex) + seq![
            ScoreOp::Combine(queries@.len() as u32, Aggregator::Max),
        ],
        Query::Filter { query, .. } => score_program(*query, lex),
        Query::Exclude { query, .. } => score_program(*query, lex),
    }
}

/// The score programs of the first `n` of `queries`, one after the other.
pub open spec fn score_children(queries: Vec<Query>, n: nat, lex: Lexicon) -> Seq<ScoreOp>
    decreases queries, n,
{
    if n == 0 || n > queries@.len() {
        Seq::empty()
    } else {
        score_children(queries, (n - 1) as nat, lex) + score_program(queries[n - 1], lex)
    }
}

/// The whole boolean program of a search: the query's own, then the removal
/// of the tombstoned documents.
pub open spec fn search_program(q: Query, lex: Lexicon) -> Seq<BooleanOp> {
    boolean_program(q, lex) + seq![BooleanOp::LoadDeletions, BooleanOp::AndNot]
}

/// Appends the boolean program of `query` to `ops`.
pub fn plan_boolean_query(lexicon: &Lexicon, ops: &mut Vec<BooleanOp>, query: &Query)
    ensures
        final(ops)@ == old(ops)@ + boolean_program(*query, *lexicon),
    decreases query, 0nat,
{
    let ghost start = ops@;
    match query {
        Query::MatchAll { .. } => {
            ops.push(BooleanOp::PushFull);
        },
        Query::MatchNone => {
            ops.push(BooleanOp::PushEmpty);
        },
        Query::MatchTerm { field, term, .. } => {
            let term_ref = match lexicon.resolve_term(term) {
                Some(term_ref) => term_ref,
                None => {
                    ops.push(BooleanOp::PushEmpty);
                    assert(ops@ =~= start + boolean_program(*query, *lexicon));
                    return ;
                },
            };
            let field_ref = match lexicon.resolve_field(field) {
                Some(field_ref) => field_ref,
                None => {
                    ops.push(BooleanOp::PushEmpty);
                    assert(ops@ =~= start + boolean_program(*query, *lexicon));
                    return ;
                },
            };
            ops.push(BooleanOp::LoadPostings(field_ref, term_ref));
        },
        Query::Conjunction { queries } => {
            plan_boolean_combinator(lexicon, ops, queries, BooleanOp::And);
        },
        Query::Disjunction { queries } => {
            plan_boolean_combinator(lexicon, ops, queries, BooleanOp::Or);
        },
        Query::NDisjunction { queries, .. } => {
            plan_boolean_combinator(lexicon, ops, queries, BooleanOp::Or);
        },
        Query::DisjunctionMax { queries } => {
            plan_boolean_combinator(lexicon, ops, queries, BooleanOp::Or);
        },
        Query::Filter { query: inner, filter } => {
            plan_boolean_query(lexicon, ops, inner);
            plan_boolean_query(lexicon, ops, filter);
            ops.push(BooleanOp::And);
        },
        Query::Exclude { query: inner, exclude } => {
            plan_boolean_query(lexicon, ops, inner);
            plan_boolean_query(lexicon, ops, exclude);
            ops.push(BooleanOp::AndNot);
        },
    }
    assert(ops@ =~= start + boolean_program(*query, *lexicon));
}

/// Appends the programs of `queries`, joined from the left by `join_op`.
pub fn plan_boolean_combinator(
    lexicon: &Lexicon,
    ops: &mut Vec<BooleanOp>,
    queries: &Vec<Query>,
    join_op: BooleanOp,
)
    ensures
        final(ops)@ == old(ops)@ + joined_program(*queries, queries@.len(), join_op, *lexicon),
    decreases queries, queries@.len(),
{
    let ghost start = ops@;
    if queries.len() == 0 {
        ops.push(BooleanOp::PushEmpty);
        assert(ops@ =~= start + joined_program(*queries, 0, join_op, *lexicon));
    } else {
        plan_boolean_query(lexicon, ops, &queries[0]);
        let mut k: usize = 1;
        while k < queries.len()
            invariant
                1 <= k <= queries.len(),
                ops@ == start + joined_program(*queries, k as nat, join_op, *lexicon),
            decreases queries.len() - k,
        {
            plan_boolean_query(lexicon, ops, &queries[k]);
            ops.push(join_op);
            k += 1;
            assert(ops@ =~= start + joined_program(*queries, k as nat, join_op, *lexicon));
        }
    }
}

/// Appends the score program of `query` to `ops`.
pub fn plan_score_function(lexicon: &Lexicon, ops: &mut Vec<ScoreOp>, query: &Query)
    ensures
        final(ops)@ == old(ops)@ + score_program(*query, *lexicon),
    decreases query, 0nat,
{
    let ghost start = ops@;
    match query {
        Query::MatchAll { score } => {
            ops.push(ScoreOp::Literal(*score));
        },
        Query::MatchNone => {
            ops.push(ScoreOp::Literal(0));
        },
        Query::MatchTerm { field, term, scorer } => {
            let term_ref = match lexicon.resolve_term(term) {
                Some(term_ref) => term_ref,
                None => {
                    assert(ops@ =~= start + score_program(*query, *lexicon));
                    return ;
                },
            };
            let field_ref = match lexicon.resolve_field(field) {
                Some(field_ref) => field_ref,
                None => {
                    assert(ops@ =~= start + score_program(*query, *lexicon));
                    return ;
                },
            };
            ops.push(ScoreOp::TermScore(field_ref, term_ref, *scorer));
        },
        Query::Conjunction { queries } => {
            plan_score_combinator(lexicon, ops, queries, Aggregator::Average);
        },
        Query::Disjunction { queries } => {
            plan_score_combinator(lexicon, ops, queries, Aggregator::Average);
        },
        Query::NDisjunction { queries, .. } => {
            plan_score_combinator(lexicon, ops, queries, Aggregator::Average);
        },
        Query::DisjunctionMax { queries } => {
            plan_score_combinator(lexicon, ops, queries, Aggregator::Max);
        },
        Query::Filter { query: inner, .. } => {
            plan_score_function(lexicon, ops, inner);
        },
        Query::Exclude { query: inner, .. } => {
            plan_score_function(lexicon, ops, inner);
        },
    }
    assert(ops@ =~= start + score_program(*query, *lexicon));
}

/// Appends the score programs of `queries`, then one instruction that folds
/// as many scores as there are queries.
pub fn plan_score_combinator(
    lexicon: &Lexicon,
    ops: &mut Vec<ScoreOp>,
    queries: &Vec<Query>,
    scorer: Aggregator,
)
    ensures
        final(ops)@ == old(ops)@ + score_children(*queries, queries@.len(), *lexicon) + seq![
            ScoreOp::Combine(queries@.len() as u32, scorer),
        ],
    decreases queries, queries@.len(),
{
    let ghost start = ops@;
    let mut k: usize = 0;
    assert(ops@ =~= start + score_children(*queries, 0, *lexicon));
    while k < queries.len()
        invariant
            k <= queries.len(),
            ops@ == start + score_children(*queries, k as nat, *lexicon),
        decreases queries.len() - k,
    {
        plan_score_function(lexicon, ops, &queries[k]);
        k += 1;
        assert(ops@ =~= start + score_children(*queries, k as nat, *lexicon));
    }
    let arity: u32 = #[verifier::truncate] (queries.len() as u32);
    ops.push(ScoreOp::Combine(arity, scorer));
}

/// What a search executes: the boolean program, whether the set it leaves is
/// full or negated, and the score program.
#[derive(Debug, Clone, PartialEq, Eq)]
pub struct SearchPlan {
    pub boolean_query: Vec<BooleanOp>,
    pub boolean_query_is_negated: bool,
    pub score_function: Vec<ScoreOp>,
}

impl SearchPlan {
    /// A plan with no instruction.
    pub fn new() -> (plan: SearchPlan)
        ensures
            plan.boolean_query@.len() == 0,
            plan.score_function@.len() == 0,
            !plan.boolean_query_is_negated,
    {
        SearchPlan {
            boolean_query: Vec::new(),
            boolean_query_is_negated: false,
            score_function: Vec::new(),
        }
    }
}

/// Whether the set that a query's program leaves is full or negated, so that
/// listing its documents takes the size of the corpus. A stored list is
/// always plain, so this is settled by the query alone: a conjunction is
/// negated when every part is, a disjunction when some part is, and an
/// exclusion when the narrowed query is and the excluded one is not.
pub open spec fn is_negated(q: Query) -> bool
    decreases q, 0nat,
{
    match q {
        Query::MatchAll { .. } => true,
        Query::MatchNone => false,
        Query::MatchTerm { .. } => false,
        Query::Conjunction { queries } => joined_flag(queries, queries@.len(), true),
        Query::Disjunction { queries } => joined_flag(queries, queries@.len(), false),
        Query::NDisjunction { queries, .. } => joined_flag(queries, queries@.len(), false),
        Query::DisjunctionMax { queries } => joined_flag(queries, queries@.len(), false),
        Query::Filter { query, filter } => is_negated(*query) && is_negated(*filter),
        Query::Exclude { query, exclude } => is_negated(*query) && !is_negated(*exclude),
    }
}

/// The flag of the first `n` of `queries` joined: all of them for a
/// conjunction, any of them for a disjunction.
pub open spec fn joined_flag(queries: Vec<Query>, n: nat, conjunction: bool) -> bool
    decreases queries, n,
{
    if n == 0 || n > queries@.len() {
        false
    } else if n == 1 {
        is_negated(queries[0])
    } else if conjunction {
        joined_flag(queries, (n - 1) as nat, conjunction) && is_negated(queries[n - 1])
    } else {
        joined_flag(queries, (n - 1) as nat, conjunction) || is_negated(queries[n - 1])
    }
}

/// Every term clause names a known field and a known term, and no
/// combinator has more children than its instruction can count.
pub open spec fn resolved(q: Query, lex: Lexicon) -> bool
    decreases q, 0nat,
{
    match q {
        Query::MatchAll { .. } => true,
        Query::MatchNone => true,
        Query::MatchTerm { field, term, .. } => lex.field_of(field@).is_some() && lex.term_of(
            term@,
        ).is_some(),
        Query::Conjunction { queries } => resolved_children(queries, queries@.len(), lex),
        Query::Disjunction { queries } => resolved_children(queries, queries@.len(), lex),
        Query::NDisjunction { queries, .. } => resolved_children(queries, queries@.len(), lex),
        Query::DisjunctionMax { queries } => resolved_children(queries, queries@.len(), lex),
        Query::Filter { query, .. } => resolved(*query, lex),
        Query::Exclude { query, .. } => resolved(*query, lex),
    }
}

/// `resolved` of each of the first `n` of `queries`, which are no more than
/// a 32-bit count can hold.
pub open spec fn resolved_children(queries: Vec<Query>, n: nat, lex: Lexicon) -> bool
    decreases queries, n,
{
    if n == 0 || n > queries@.len() {
        queries@.len() <= u32::MAX
    } else {
        resolved_children(queries, (n - 1) as nat, lex) && resolved(queries[n - 1], lex)
    }
}

/// The boolean program of any query, run on any stack, never underflows and
/// leaves exactly one more set, flagged as `is_negated` says.
pub proof fn lemma_boolean_program_shape(q: Query, lex: Lexicon, start: Seq<bool>)
    ensures
        shape_after(boolean_program(q, lex), start) == Some(start.push(is_negated(q))),
    decreases q, 0nat,
{
    match q {
        Query::MatchAll { .. } => {
            lemma_shape_single(BooleanOp::PushFull, start);
        },
        Query::MatchNone => {
            lemma_shape_single(BooleanOp::PushEmpty, start);
        },
        Query::MatchTerm { field, term, .. } => {
            match (lex.field_of(field@), lex.term_of(term@)) {
                (Some(f), Some(t)) => {
                    lemma_shape_single(BooleanOp::LoadPostings(f, t), start);
                },
                _ => {
                    lemma_shape_single(BooleanOp::PushEmpty, start);
                },
            }
        },
        Query::Conjunction { queries } => {
            lemma_joined_program_shape(queries, queries@.len(), true, lex, start);
        },
        Query::Disjunction { queries } => {
            lemma_joined_program_shape(queries, queries@.len(), false, lex, start);
        },
        Query::NDisjunction { queries, .. } => {
            lemma_joined_program_shape(queries, queries@.len(), false, lex, start);
        },
        Query::DisjunctionMax { queries } => {
            lemma_joined_program_shape(queries, queries@.len(), false, lex, start);
        },
        Query::Filter { query, filter } => {
            lemma_boolean_program_shape(*query, lex, start);
            lemma_boolean_program_shape(*filter, lex, start.push(is_negated(*query)));
            lemma_pair_shape(
                boolean_program(*query, lex),
                boolean_program(*filter, lex),
                BooleanOp::And,
                start,
                is_negated(*query),
                is_negated(*filter),
            );
        },
        Query::Exclude { query, exclude } => {
            lemma_boolean_program_shape(*query, lex, start);
            lemma_boolean_program_shape(*exclude, lex, start.push(is_negated(*query)));
            lemma_pair_shape(
                boolean_program(*query, lex),
                boolean_program(*exclude, lex),
                BooleanOp::AndNot,
                start,
                is_negated(*query),
                is_negated(*exclude),
            );
        },
    }
}

/// Two programs that each leave one set, followed by a binary instruction,
/// leave one set with the instruction's flag.
pub proof fn lemma_pair_shape(
    a: Seq<BooleanOp>,
    b: Seq<BooleanOp>,
    op: BooleanOp,
    start: Seq<bool>,
    fa: bool,
    fb: bool,
)
    requires
        shape_after(a, start) == Some(start.push(fa)),
        shape_after(b, start.push(fa)) == Some(start.push(fa).push(fb)),
        op == BooleanOp::And || op == BooleanOp::Or || op == BooleanOp::AndNot,
    ensures
        shape_after(a + b + seq![op], start) == Some(
            start.push(
                match op {
                    BooleanOp::And => fa && fb,
                    BooleanOp::Or => fa || fb,
                    _ => fa && !fb,
                },
            ),
        ),
{
    let both = start.push(fa).push(fb);
    lemma_shape_concat(a, b, start);
    lemma_shape_concat(a + b, seq![op], start);
    lemma_shape_single(op, both);
    assert(both.take(both.len() - 2) =~= start);
}

/// The joined program of the first `n` children, run on any stack, never
/// underflows and leaves exactly one more set, flagged as `joined_flag` says.
pub proof fn lemma_joined_program_shape(
    queries: Vec<Query>,
    n: nat,
    conjunction: bool,
    lex: Lexicon,
    start: Seq<bool>,
)
    requires
        n <= queries@.len(),
    ensures
        shape_after(
            joined_program(
                queries,
                n,
                if conjunction {
                    BooleanOp::And
                } else {
                    BooleanOp::Or
                },
                lex,
            ),
            start,
        ) == Some(start.push(joined_flag(queries, n, conjunction))),
    decreases queries, n,
{
    let join = if conjunction {
        BooleanOp::And
    } else {
        BooleanOp::Or
    };
    if n == 0 {
        lemma_shape_single(BooleanOp::PushEmpty, start);
    } else if n == 1 {
        lemma_boolean_program_shape(queries[0], lex, start);
    } else {
        let m = (n - 1) as nat;
        lemma_joined_program_shape(queries, m, conjunction, lex, start);
        lemma_boolean_program_shape(
            queries[n - 1],
            lex,
            start.push(joined_flag(queries, m, conjunction)),
        );
        lemma_pair_shape(
            joined_program(queries, m, join, lex),
            boolean_program(queries[n - 1], lex),
            join,
            start,
            joined_flag(queries, m, conjunction),
            is_negated(queries[n - 1]),
        );
    }
}

/// The score program of a resolved query, run on a stack of any depth, never
/// underflows and leaves exactly one more score.
pub proof fn lemma_score_program_depth(q: Query, lex: Lexicon, start: nat)
    requires
        resolved(q, lex),
    ensures
        depth_after(score_program(q, lex), start) == Some(start + 1),
    decreases q, 0nat,
{
    match q {
        Query::MatchAll { score } => {
            lemma_depth_single(ScoreOp::Literal(score), start);
        },
        Query::MatchNone => {
            lemma_depth_single(ScoreOp::Literal(0), start);
        },
        Query::MatchTerm { field, term, scorer } => {
            lemma_depth_single(
                ScoreOp::TermScore(lex.field_of(field@).unwrap(), lex.term_of(term@).unwrap(), scorer),
                start,
            );
        },
        Query::Conjunction { queries } => {
            lemma_combined_depth(queries, Aggregator::Average, lex, start);
        },
        Query::Disjunction { queries } => {
            lemma_combined_depth(queries, Aggregator::Average, lex, start);
        },
        Query::NDisjunction { queries, .. } => {
            lemma_combined_depth(queries, Aggregator::Average, lex, start);
        },
        Query::DisjunctionMax { queries } => {
            lemma_combined_depth(queries, Aggregator::Max, lex, start);
        },
        Query::Filter { query, .. } => {
            lemma_score_program_depth(*query, lex, start);
        },
        Query::Exclude { query, .. } => {
            lemma_score_program_depth(*query, lex, start);
        },
    }
}

/// The score programs of resolved children followed by their combining
/// instruction leave exactly one more score.
pub proof fn lemma_combined_depth(queries: Vec<Query>, scorer: Aggregator, lex: Lexicon, start: nat)
    requires
        resolved_children(queries, queries@.len(), lex),
    ensures
        depth_after(
            score_children(queries, queries@.len(), lex) + seq![
                ScoreOp::Combine(queries@.len() as u32, scorer),
            ],
            start,
        ) == Some(start + 1),
    decreases queries, queries@.len() + 1,
{
    let n = queries@.len();
    lemma_score_children_depth(queries, n, lex, start);
    let op = ScoreOp::Combine(n as u32, scorer);
    lemma_depth_concat(score_children(queries, n, lex), seq![op], start);
    lemma_depth_single(op, start + n);
}

/// The score programs of the first `n` resolved children leave `n` more
/// scores, and the children are few enough to count.
pub proof fn lemma_score_children_depth(queries: Vec<Query>, n: nat, lex: Lexicon, start: nat)
    requires
        n <= queries@.len(),
        resolved_children(queries, n, lex),
    ensures
        depth_after(score_children(queries, n, lex), start) == Some(start + n),
        queries@.len() <= u32::MAX,
    decreases queries, n,
{
    if n > 0 {
        let m = (n - 1) as nat;
        lemma_score_children_depth(queries, m, lex, start);
        lemma_score_program_depth(queries[n - 1], lex, start + m);
        lemma_depth_concat(score_children(queries, m, lex), score_program(queries[n - 1], lex), start);
    }
}

/// The whole boolean program of a search is well formed, and its result is
/// flagged as the query's own: the tombstone list is plain, so removing it
/// leaves the flag alone.
pub proof fn lemma_search_program_well_formed(q: Query, lex: Lexicon)
    ensures
        boolean_well_formed(search_program(q, lex)),
        result_flag(search_program(q, lex)) == is_negated(q),
{
    let empty = Seq::<bool>::empty();
    let own = boolean_program(q, lex);
    let one = empty.push(is_negated(q));
    lemma_boolean_program_shape(q, lex, empty);
    lemma_shape_single(BooleanOp::LoadDeletions, one);
    lemma_pair_shape(own, seq![BooleanOp::LoadDeletions], BooleanOp::AndNot, empty, is_negated(q), false);
    assert(own + seq![BooleanOp::LoadDeletions] + seq![BooleanOp::AndNot] =~= search_program(q, lex));
}

/// Compiles `query` into a plan: its boolean program followed by the removal
/// of tombstoned documents, and its score program, or a single zero score
/// where scores are not asked for.
pub fn plan_query(lexicon: &Lexicon, query: &Query, score: bool) -> (plan: SearchPlan)
    ensures
        plan.boolean_query@ == search_program(*query, *lexicon),
        plan.boolean_query_is_negated == is_negated(*query),
        plan.score_function@ == if score {
            score_program(*query, *lexicon)
        } else {
            seq![ScoreOp::Literal(0)]
        },
        boolean_well_formed(plan.boolean_query@),
        !score || resolved(*query, *lexicon) ==> score_well_formed(plan.score_function@),
{
    let mut plan = SearchPlan::new();
    let mut boolean_query: Vec<BooleanOp> = Vec::new();
    plan_boolean_query(lexicon, &mut boolean_query, query);
    boolean_query.push(BooleanOp::LoadDeletions);
    boolean_query.push(BooleanOp::AndNot);
    proof {
        assert(boolean_query@ =~= search_program(*query, *lexicon));
        lemma_search_program_well_formed(*query, *lexicon);
    }
    let is_negated: bool = match check_boolean_program(&boolean_query) {
        Some(flag) => flag,
        None => false,
    };
    let mut score_function: Vec<ScoreOp> = Vec::new();
    if score {
        plan_score_function(lexicon, &mut score_function, query);
        proof {
            assert(score_function@ =~= score_program(*query, *lexicon));
            if resolved(*query, *lexicon) {
                lemma_score_program_depth(*query, *lexicon, 0);
            }
        }
    } else {
        score_function.push(ScoreOp::Literal(0));
        proof {
            assert(score_function@ =~= seq![ScoreOp::Literal(0)]);
            lemma_depth_single(ScoreOp::Literal(0), 0);
        }
    }
    plan.boolean_query = boolean_query;
    plan.boolean_query_is_negated = is_negated;
    plan.score_function = score_function;
    plan
}

} // verus!
