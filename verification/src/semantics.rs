//! What a query means, and that its compiled program computes it.
//!
//! Storage is taken here as a function from a load instruction to what a
//! lookup for it answers, so that the meaning of a query does not depend on
//! the order of the lookups.

use vstd::prelude::*;
use crate::codec::StorageError;
use crate::driver::is_load;
use crate::driver::load_count;
use crate::driver::loaded;
use crate::driver::run;
use crate::driver::search_result;
use crate::driver::total_of;
use crate::planner::boolean_program;
use crate::planner::joined_program;
use crate::planner::search_program;
use crate::posting::lemma_pointwise;
use crate::posting::PostingModel;
use crate::query::BooleanOp;
use crate::query::Lexicon;
use crate::query::Query;

verus! {

/// Whether `doc` matches `q`, given what storage answers for each term. A
/// clause with an unknown name matches nothing, and so does a combinator
/// without children.
pub open spec fn matches(
    q: Query,
    lex: Lexicon,
    answer: spec_fn(BooleanOp) -> Result<PostingModel, StorageError>,
    doc: u16,
) -> bool
    decreases q, 0nat,
{
    match q {
        Query::MatchAll { .. } => true,
        Query::MatchNone => false,
        Query::MatchTerm { field, term, .. } => match (lex.field_of(field@), lex.term_of(term@)) {
            (Some(f), Some(t)) => match answer(BooleanOp::LoadPostings(f, t)) {
                Ok(set) => set.holds(doc),
                Err(_) => false,
            },
            _ => false,
        },
        Query::Conjunction { queries } => joined_matches(queries, queries@.len(), true, lex, answer, doc),
        Query::Disjunction { queries } => joined_matches(queries, queries@.len(), false, lex, answer, doc),
        Query::NDisjunction { queries, .. } => joined_matches(
            queries,
            queries@.len(),
            false,
            lex,
            answer,
            doc,
        ),
        Query::DisjunctionMax { queries } => joined_matches(
            queries,
            queries@.len(),
            false,
            lex,
            answer,
            doc,
        ),
        Query::Filter { query, filter } => matches(*query, lex, answer, doc) && matches(
            *filter,
            lex,
            answer,
            doc,
        ),
        Query::Exclude { query, exclude } => matches(*query, lex, answer, doc) && !matches(
            *exclude,
            lex,
            answer,
            doc,
        ),
    }
}

/// Whether `doc` matches the first `n` of `queries` joined: each of them for
/// a conjunction, one of them for a disjunction.
pub open spec fn joined_matches(
    queries: Vec<Query>,
    n: nat,
    conjunction: bool,
    lex: Lexicon,
    answer: spec_fn(BooleanOp) -> Result<PostingModel, StorageError>,
    doc: u16,
) -> bool
    decreases queries, n,
{
    if n == 0 || n > queries@.len() {
        false
    } else if n == 1 {
        matches(queries[0], lex, answer, doc)
    } else if conjunction {
        joined_matches(queries, (n - 1) as nat, conjunction, lex, answer, doc) && matches(
            queries[n - 1],
            lex,
            answer,
            doc,
        )
    } else {
        joined_matches(queries, (n - 1) as nat, conjunction, lex, answer, doc) || matches(
            queries[n - 1],
            lex,
            answer,
            doc,
        )
    }
}

/// The stack after one instruction, where a load pushes what storage answers
/// for it.
pub open spec fn answer_step(
    op: BooleanOp,
    stack: Seq<PostingModel>,
    answer: spec_fn(BooleanOp) -> Result<PostingModel, StorageError>,
) -> Result<Seq<PostingModel>, StorageError> {
    let n = stack.len();
    match op {
        BooleanOp::PushEmpty => Ok(stack.push(PostingModel::Empty)),
        BooleanOp::PushFull => Ok(stack.push(PostingModel::Full)),
        BooleanOp::LoadPostings(_, _) | BooleanOp::LoadDeletions => match answer(op) {
            Ok(set) => Ok(stack.push(set)),
            Err(e) => Err(e),
        },
        BooleanOp::And => if n >= 2 {
            Ok(stack.take(n - 2).push(stack[n - 2].intersection(stack[n - 1])))
        } else {
            Ok(stack)
        },
        BooleanOp::Or => if n >= 2 {
            Ok(stack.take(n - 2).push(stack[n - 2].union(stack[n - 1])))
        } else {
            Ok(stack)
        },
        BooleanOp::AndNot => if n >= 2 {
            Ok(stack.take(n - 2).push(stack[n - 2].exclusion(stack[n - 1])))
        } else {
            Ok(stack)
        },
    }
}

/// The stack that a program leaves when run on `start`, or the error of the
/// first load that fails.
pub open spec fn run_with(
    ops: Seq<BooleanOp>,
    start: Seq<PostingModel>,
    answer: spec_fn(BooleanOp) -> Result<PostingModel, StorageError>,
) -> Result<Seq<PostingModel>, StorageError>
    decreases ops.len(),
{
    if ops.len() == 0 {
        Ok(start)
    } else {
        match run_with(ops.drop_last(), start, answer) {
            Ok(stack) => answer_step(ops.last(), stack, answer),
            Err(e) => Err(e),
        }
    }
}

/// The answers handed to a run in program order are those of `answer`.
pub open spec fn answers_in_order(
    ops: Seq<BooleanOp>,
    lookups: Seq<Result<Option<Vec<u8>>, StorageError>>,
    answer: spec_fn(BooleanOp) -> Result<PostingModel, StorageError>,
) -> bool {
    forall|k: int|
        0 <= k < ops.len() && is_load(#[trigger] ops[k]) ==> load_count(ops.take(k)) < lookups.len()
            && loaded(lookups[load_count(ops.take(k)) as int]) == answer(ops[k])
}

/// A run on answers in program order is a run against storage.
pub proof fn lemma_run_in_order(
    ops: Seq<BooleanOp>,
    lookups: Seq<Result<Option<Vec<u8>>, StorageError>>,
    answer: spec_fn(BooleanOp) -> Result<PostingModel, StorageError>,
)
    requires
        answers_in_order(ops, lookups, answer),
    ensures
        run(ops, lookups) == run_with(ops, Seq::empty(), answer),
    decreases ops.len(),
{
    if ops.len() > 0 {
        let front = ops.drop_last();
        assert forall|k: int| 0 <= k < front.len() && is_load(#[trigger] front[k]) implies load_count(
            front.take(k),
        ) < lookups.len() && loaded(lookups[load_count(front.take(k)) as int]) == answer(front[k]) by {
            assert(front.take(k) =~= ops.take(k));
            assert(ops[k] == front[k]);
        }
        lemma_run_in_order(front, lookups, answer);
        let last = ops.len() - 1;
        assert(ops.take(last) =~= front);
        assert(ops[last] == ops.last());
    }
}

/// Running `a` and then `b` is running their concatenation.
pub proof fn lemma_run_concat(
    a: Seq<BooleanOp>,
    b: Seq<BooleanOp>,
    start: Seq<PostingModel>,
    answer: spec_fn(BooleanOp) -> Result<PostingModel, StorageError>,
)
    ensures
        run_with(a + b, start, answer) == match run_with(a, start, answer) {
            Ok(stack) => run_with(b, stack, answer),
            Err(e) => Err(e),
        },
    decreases b.len(),
{
    if b.len() == 0 {
        assert(a + b =~= a);
    } else {
        assert((a + b).drop_last() =~= a + b.drop_last());
        assert((a + b).last() == b.last());
        lemma_run_concat(a, b.drop_last(), start, answer);
    }
}

/// A program of one instruction does what the instruction does.
pub proof fn lemma_run_single(
    op: BooleanOp,
    start: Seq<PostingModel>,
    answer: spec_fn(BooleanOp) -> Result<PostingModel, StorageError>,
)
    ensures
        run_with(seq![op], start, answer) == answer_step(op, start, answer),
{
    let ops = seq![op];
    assert(ops.drop_last() =~= Seq::<BooleanOp>::empty());
    assert(run_with(ops.drop_last(), start, answer) == Ok::<Seq<PostingModel>, StorageError>(start));
    assert(ops.last() == op);
}

/// What a binary instruction makes of the two topmost sets.
pub open spec fn combined(op: BooleanOp, a: PostingModel, b: PostingModel) -> PostingModel {
    match op {
        BooleanOp::And => a.intersection(b),
        BooleanOp::Or => a.union(b),
        _ => a.exclusion(b),
    }
}

/// Two programs that each push one set, followed by a binary instruction,
/// push the sets combined.
pub proof fn lemma_run_pair(
    a: Seq<BooleanOp>,
    b: Seq<BooleanOp>,
    op: BooleanOp,
    start: Seq<PostingModel>,
    answer: spec_fn(BooleanOp) -> Result<PostingModel, StorageError>,
    ma: PostingModel,
    mb: PostingModel,
)
    requires
        run_with(a, start, answer) == Ok::<Seq<PostingModel>, StorageError>(start.push(ma)),
        run_with(b, start.push(ma), answer) == Ok::<Seq<PostingModel>, StorageError>(
            start.push(ma).push(mb),
        ),
        op == BooleanOp::And || op == BooleanOp::Or || op == BooleanOp::AndNot,
    ensures
        run_with(a + b + seq![op], start, answer) == Ok::<Seq<PostingModel>, StorageError>(
            start.push(combined(op, ma, mb)),
        ),
{
    let both = start.push(ma).push(mb);
    lemma_run_concat(a, b, start, answer);
    lemma_run_concat(a + b, seq![op], start, answer);
    lemma_run_single(op, both, answer);
    assert(both.take(both.len() - 2) =~= start);
}

/// The set that the program of `q` pushes.
pub open spec fn pushed(
    q: Query,
    lex: Lexicon,
    start: Seq<PostingModel>,
    answer: spec_fn(BooleanOp) -> Result<PostingModel, StorageError>,
) -> PostingModel {
    run_with(boolean_program(q, lex), start, answer).unwrap().last()
}

/// The set that the joined program of the first `n` of `queries` pushes.
pub open spec fn joined_pushed(
    queries: Vec<Query>,
    n: nat,
    conjunction: bool,
    lex: Lexicon,
    start: Seq<PostingModel>,
    answer: spec_fn(BooleanOp) -> Result<PostingModel, StorageError>,
) -> PostingModel {
    run_with(
        joined_program(
            queries,
            n,
            if conjunction {
                BooleanOp::And
            } else {
                BooleanOp::Or
            },
            lex,
        ),
        start,
        answer,
    ).unwrap().last()
}

/// Where storage answers every lookup, the program of a query pushes exactly
/// one set onto any stack, and that set holds the documents that match the
/// query.
pub proof fn lemma_program_computes_query(
    q: Query,
    lex: Lexicon,
    start: Seq<PostingModel>,
    answer: spec_fn(BooleanOp) -> Result<PostingModel, StorageError>,
)
    requires
        forall|op: BooleanOp| is_load(op) ==> (#[trigger] answer(op)).is_ok(),
    ensures
        run_with(boolean_program(q, lex), start, answer) == Ok::<Seq<PostingModel>, StorageError>(
            start.push(pushed(q, lex, start, answer)),
        ),
        forall|doc: u16|
            pushed(q, lex, start, answer).holds(doc) == #[trigger] matches(q, lex, answer, doc),
    decreases q, 0nat,
{
    match q {
        Query::MatchAll { .. } => {
            lemma_run_single(BooleanOp::PushFull, start, answer);
        },
        Query::MatchNone => {
            lemma_run_single(BooleanOp::PushEmpty, start, answer);
        },
        Query::MatchTerm { field, term, .. } => {
            match (lex.field_of(field@), lex.term_of(term@)) {
                (Some(f), Some(t)) => {
                    assert(is_load(BooleanOp::LoadPostings(f, t)));
                    lemma_run_single(BooleanOp::LoadPostings(f, t), start, answer);
                },
                _ => {
                    lemma_run_single(BooleanOp::PushEmpty, start, answer);
                },
            }
        },
        Query::Conjunction { queries } => {
            lemma_joined_computes(queries, queries@.len(), true, lex, start, answer);
            assert(pushed(q, lex, start, answer) == joined_pushed(
                queries,
                queries@.len(),
                true,
                lex,
                start,
                answer,
            ));
            assert forall|doc: u16|
                pushed(q, lex, start, answer).holds(doc) == #[trigger] matches(q, lex, answer, doc) by {
                assert(matches(q, lex, answer, doc) == joined_matches(
                    queries,
                    queries@.len(),
                    true,
                    lex,
                    answer,
                    doc,
                ));
            }
        },
        Query::Disjunction { queries } => {
            lemma_joined_computes(queries, queries@.len(), false, lex, start, answer);
            assert(pushed(q, lex, start, answer) == joined_pushed(
                queries,
                queries@.len(),
                false,
                lex,
                start,
                answer,
            ));
            assert forall|doc: u16|
                pushed(q, lex, start, answer).holds(doc) == #[trigger] matches(q, lex, answer, doc) by {
                assert(matches(q, lex, answer, doc) == joined_matches(
                    queries,
                    queries@.len(),
                    false,
                    lex,
                    answer,
                    doc,
                ));
            }
        },
        Query::NDisjunction { queries, .. } => {
            lemma_joined_computes(queries, queries@.len(), false, lex, start, answer);
            assert(pushed(q, lex, start, answer) == joined_pushed(
                queries,
                queries@.len(),
                false,
                lex,
                start,
                answer,
            ));
            assert forall|doc: u16|
                pushed(q, lex, start, answer).holds(doc) == #[trigger] matches(q, lex, answer, doc) by {
                assert(matches(q, lex, answer, doc) == joined_matches(
                    queries,
                    queries@.len(),
                    false,
                    lex,
                    answer,
                    doc,
                ));
            }
        },
        Query::DisjunctionMax { queries } => {
            lemma_joined_computes(queries, queries@.len(), false, lex, start, answer);
            assert(pushed(q, lex, start, answer) == joined_pushed(
                queries,
                queries@.len(),
                false,
                lex,
                start,
                answer,
            ));
            assert forall|doc: u16|
                pushed(q, lex, start, answer).holds(doc) == #[trigger] matches(q, lex, answer, doc) by {
                assert(matches(q, lex, answer, doc) == joined_matches(
                    queries,
                    queries@.len(),
                    false,
                    lex,
                    answer,
                    doc,
                ));
            }
        },
        Query::Filter { query, filter } => {
            let ma = pushed(*query, lex, start, answer);
            let mb = pushed(*filter, lex, start.push(ma), answer);
            lemma_program_computes_query(*query, lex, start, answer);
            lemma_program_computes_query(*filter, lex, start.push(ma), answer);
            lemma_run_pair(
                boolean_program(*query, lex),
                boolean_program(*filter, lex),
                BooleanOp::And,
                start,
                answer,
                ma,
                mb,
            );
            assert(pushed(q, lex, start, answer) == ma.intersection(mb));
            assert forall|doc: u16|
                pushed(q, lex, start, answer).holds(doc) == #[trigger] matches(q, lex, answer, doc) by {
                lemma_pointwise(ma, mb, doc);
                assert(ma.holds(doc) == matches(*query, lex, answer, doc));
                assert(mb.holds(doc) == matches(*filter, lex, answer, doc));
            }
        },
        Query::Exclude { query, exclude } => {
            let ma = pushed(*query, lex, start, answer);
            let mb = pushed(*exclude, lex, start.push(ma), answer);
            lemma_program_computes_query(*query, lex, start, answer);
            lemma_program_computes_query(*exclude, lex, start.push(ma), answer);
            lemma_run_pair(
                boolean_program(*query, lex),
                boolean_program(*exclude, lex),
                BooleanOp::AndNot,
                start,
                answer,
                ma,
                mb,
            );
            assert(pushed(q, lex, start, answer) == ma.exclusion(mb));
            assert forall|doc: u16|
                pushed(q, lex, start, answer).holds(doc) == #[trigger] matches(q, lex, answer, doc) by {
                lemma_pointwise(ma, mb, doc);
                assert(ma.holds(doc) == matches(*query, lex, answer, doc));
                assert(mb.holds(doc) == matches(*exclude, lex, answer, doc));
            }
        },
    }
}

/// Where storage answers every lookup, the joined program of the first `n`
/// children pushes exactly one set, which holds the documents that match
/// the children joined.
pub proof fn lemma_joined_computes(
    queries: Vec<Query>,
    n: nat,
    conjunction: bool,
    lex: Lexicon,
    start: Seq<PostingModel>,
    answer: spec_fn(BooleanOp) -> Result<PostingModel, StorageError>,
)
    requires
        n <= queries@.len(),
        forall|op: BooleanOp| is_load(op) ==> (#[trigger] answer(op)).is_ok(),
    ensures
        run_with(
            joined_program(
                queries,
                n,
                if conjunction {
                    BooleanOp::And
                } else {
                    BooleanOp::Or
                },
                lex,
            ),
            start,
            answer,
        ) == Ok::<Seq<PostingModel>, StorageError>(
            start.push(joined_pushed(queries, n, conjunction, lex, start, answer)),
        ),
        forall|doc: u16|
            joined_pushed(queries, n, conjunction, lex, start, answer).holds(doc)
                == #[trigger] joined_matches(queries, n, conjunction, lex, answer, doc),
    decreases queries, n,
{
    let join = if conjunction {
        BooleanOp::And
    } else {
        BooleanOp::Or
    };
    if n == 0 {
        lemma_run_single(BooleanOp::PushEmpty, start, answer);
    } else if n == 1 {
        lemma_program_computes_query(queries[0], lex, start, answer);
        assert(joined_pushed(queries, n, conjunction, lex, start, answer) == pushed(
            queries[0],
            lex,
            start,
            answer,
        ));
        assert forall|doc: u16|
            joined_pushed(queries, n, conjunction, lex, start, answer).holds(doc)
                == #[trigger] joined_matches(queries, n, conjunction, lex, answer, doc) by {
            assert(joined_matches(queries, n, conjunction, lex, answer, doc) == matches(
                queries[0],
                lex,
                answer,
                doc,
            ));
        }
    } else {
        let m = (n - 1) as nat;
        let ma = joined_pushed(queries, m, conjunction, lex, start, answer);
        let mb = pushed(queries[n - 1], lex, start.push(ma), answer);
        lemma_joined_computes(queries, m, conjunction, lex, start, answer);
        lemma_program_computes_query(queries[n - 1], lex, start.push(ma), answer);
        lemma_run_pair(
            joined_program(queries, m, join, lex),
            boolean_program(queries[n - 1], lex),
            join,
            start,
            answer,
            ma,
            mb,
        );
        assert(joined_pushed(queries, n, conjunction, lex, start, answer) == combined(join, ma, mb));
        assert forall|doc: u16|
            joined_pushed(queries, n, conjunction, lex, start, answer).holds(doc)
                == #[trigger] joined_matches(queries, n, conjunction, lex, answer, doc) by {
            lemma_pointwise(ma, mb, doc);
            assert(ma.holds(doc) == joined_matches(queries, m, conjunction, lex, answer, doc));
            assert(mb.holds(doc) == matches(queries[n - 1], lex, answer, doc));
        }
    }
}

/// Where storage answers every lookup, the whole program of a search leaves
/// one set: the documents that match the query and are not tombstoned.
pub proof fn lemma_search_computes_query(
    q: Query,
    lex: Lexicon,
    answer: spec_fn(BooleanOp) -> Result<PostingModel, StorageError>,
)
    requires
        forall|op: BooleanOp| is_load(op) ==> (#[trigger] answer(op)).is_ok(),
    ensures
        run_with(search_program(q, lex), Seq::empty(), answer).is_ok(),
        run_with(search_program(q, lex), Seq::empty(), answer).unwrap().len() == 1,
        forall|doc: u16|
            run_with(search_program(q, lex), Seq::empty(), answer).unwrap()[0].holds(doc) == (
            #[trigger] matches(q, lex, answer, doc) && !answer(BooleanOp::LoadDeletions).unwrap().holds(
                doc,
            )),
{
    let empty = Seq::<PostingModel>::empty();
    let own = boolean_program(q, lex);
    let ma = pushed(q, lex, empty, answer);
    let mb = answer(BooleanOp::LoadDeletions).unwrap();
    lemma_program_computes_query(q, lex, empty, answer);
    assert(is_load(BooleanOp::LoadDeletions));
    lemma_run_single(BooleanOp::LoadDeletions, empty.push(ma), answer);
    lemma_run_pair(own, seq![BooleanOp::LoadDeletions], BooleanOp::AndNot, empty, answer, ma, mb);
    assert(own + seq![BooleanOp::LoadDeletions] + seq![BooleanOp::AndNot] =~= search_program(q, lex));
    assert forall|doc: u16|
        run_with(search_program(q, lex), empty, answer).unwrap()[0].holds(doc) == (#[trigger] matches(
            q,
            lex,
            answer,
            doc,
        ) && !mb.holds(doc)) by {
        lemma_pointwise(ma, mb, doc);
    }
}

/// Where storage answers every posting lookup, a search that succeeds finds
/// only documents that match the query and are not tombstoned, and it finds
/// each such document whose id lies below the document count of the corpus.
pub proof fn lemma_search_finds_matches(
    q: Query,
    lex: Lexicon,
    lookups: Seq<Result<Option<Vec<u8>>, StorageError>>,
    stat: Result<Option<Vec<u8>>, StorageError>,
    answer: spec_fn(BooleanOp) -> Result<PostingModel, StorageError>,
)
    requires
        forall|op: BooleanOp| is_load(op) ==> (#[trigger] answer(op)).is_ok(),
        answers_in_order(search_program(q, lex), lookups, answer),
        search_result(search_program(q, lex), lookups, stat).is_ok(),
    ensures
        forall|doc: u16| #[trigger]
            search_result(search_program(q, lex), lookups, stat).unwrap().contains(doc) ==> matches(
                q,
                lex,
                answer,
                doc,
            ) && !answer(BooleanOp::LoadDeletions).unwrap().holds(doc),
        forall|doc: u16|
            #[trigger] matches(q, lex, answer, doc) && !answer(BooleanOp::LoadDeletions).unwrap().holds(
                doc,
            ) && total_of(stat).is_ok() && doc < total_of(stat).unwrap() ==> search_result(
                search_program(q, lex),
                lookups,
                stat,
            ).unwrap().contains(doc),
{
    let ops = search_program(q, lex);
    lemma_run_in_order(ops, lookups, answer);
    lemma_search_computes_query(q, lex, answer);
    let found = run(ops, lookups).unwrap()[0];
    let listed = search_result(ops, lookups, stat).unwrap();
    assert forall|doc: u16| #[trigger] listed.contains(doc) implies found.holds(doc) by {}
    assert forall|doc: u16|
        found.holds(doc) && total_of(stat).is_ok() && doc < total_of(stat).unwrap() implies #[trigger] listed.contains(
            doc,
        ) by {}
}

} // verus!
