//! Runs a boolean program over looked-up posting lists and turns the
//! resulting set into the list of matching document ids.
//!
//! The storage lookups are made by the caller, one per load instruction in
//! program order; what each returned is handed in as a plain value.

use vstd::prelude::*;
use crate::codec::decode_postings;
use crate::codec::decode_total_docs;
use crate::codec::decoded;
use crate::codec::new_filled;
use crate::codec::stored_total;
use crate::codec::valid_postings;
use crate::codec::StorageError;
use crate::merge;
use crate::merge::strictly_ascending;
use crate::planner::is_negated;
use crate::planner::lemma_search_program_well_formed;
use crate::planner::search_program;
use crate::planner::SearchPlan;
use crate::posting::PostingModel;
use crate::posting::PostingSet;
use crate::program::boolean_well_formed;
use crate::program::lemma_shape_stuck;
use crate::program::result_flag;
use crate::program::shape_after;
use crate::program::shape_step;
use crate::query::BooleanOp;
use crate::query::Lexicon;
use crate::query::Query;

verus! {

/// Whether an instruction reads a posting list from storage.
pub open spec fn is_load(op: BooleanOp) -> bool {
    op is LoadPostings || op is LoadDeletions
}

/// The number of load instructions in a program.
pub open spec fn load_count(ops: Seq<BooleanOp>) -> nat
    decreases ops.len(),
{
    if ops.len() == 0 {
        0
    } else {
        load_count(ops.drop_last()) + if is_load(ops.last()) {
            1nat
        } else {
            0nat
        }
    }
}

/// The set that a lookup's answer stands for: a missing key is the empty
/// set, a stored list its ids, and a failure or a malformed list an error.
pub open spec fn loaded(lookup: Result<Option<Vec<u8>>, StorageError>) -> Result<
    PostingModel,
    StorageError,
> {
    match lookup {
        Ok(Some(bytes)) => if valid_postings(bytes@) {
            Ok(PostingModel::Sparse(decoded(bytes@).to_set(), false))
        } else {
            Err(StorageError::Corrupt)
        },
        Ok(None) => Ok(PostingModel::Empty),
        Err(e) => Err(e),
    }
}

/// The stack after one instruction. A load takes the answer at place `used`
/// of `lookups`; a combinator replaces the two topmost sets.
pub open spec fn run_step(
    op: BooleanOp,
    stack: Seq<PostingModel>,
    lookups: Seq<Result<Option<Vec<u8>>, StorageError>>,
    used: nat,
) -> Result<Seq<PostingModel>, StorageError> {
    let n = stack.len();
    match op {
        BooleanOp::PushEmpty => Ok(stack.push(PostingModel::Empty)),
        BooleanOp::PushFull => Ok(stack.push(PostingModel::Full)),
        BooleanOp::LoadPostings(_, _) | BooleanOp::LoadDeletions => if used < lookups.len() {
            match loaded(lookups[used as int]) {
                Ok(set) => Ok(stack.push(set)),
                Err(e) => Err(e),
            }
        } else {
            Ok(stack.push(PostingModel::Empty))
        },
        BooleanOp::And => if n >= 2 {
            Ok(stack.take(n - 2).push(stack[n - 2].intersection(stack[n - 1])))
        } else {
            Ok(stack)
        },
        BooleanOp::Or => if n >= 2 {
            Ok(stack.take(n - 2).push(stack[n - 2].union(stack[n - 1])))
        } else {
            Ok(stack)
        },
        BooleanOp::AndNot => if n >= 2 {
            Ok(stack.take(n - 2).push(stack[n - 2].exclusion(stack[n - 1])))
        } else {
            Ok(stack)
        },
    }
}

/// The stack that a program leaves when run on an empty stack, or the error
/// of the first load that fails.
pub open spec fn run(ops: Seq<BooleanOp>, lookups: Seq<Result<Option<Vec<u8>>, StorageError>>) -> Result<
    Seq<PostingModel>,
    StorageError,
>
    decreases ops.len(),
{
    if ops.len() == 0 {
        Ok(Seq::empty())
    } else {
        match run(ops.drop_last(), lookups) {
            Ok(stack) => run_step(ops.last(), stack, lookups, load_count(ops.drop_last())),
            Err(e) => Err(e),
        }
    }
}

/// What each set on a stack denotes.
pub open spec fn models(stack: Seq<PostingSet>) -> Seq<PostingModel> {
    Seq::new(stack.len(), |k: int| stack[k]@)
}

/// A set that lists its members: neither full nor negated.
pub open spec fn is_plain(set: PostingModel) -> bool {
    set matches PostingModel::Empty || set matches PostingModel::Sparse(_, false)
}

/// A prefix of a program holds no more loads than the program.
pub proof fn lemma_load_count_prefix(ops: Seq<BooleanOp>, k: int)
    requires
        0 <= k <= ops.len(),
    ensures
        load_count(ops.take(k)) <= load_count(ops),
    decreases ops.len(),
{
    if k == ops.len() {
        assert(ops.take(k) =~= ops);
    } else {
        assert(ops.drop_last().take(k) =~= ops.take(k));
        lemma_load_count_prefix(ops.drop_last(), k);
    }
}

/// Once a prefix of a program has failed, the program fails the same way.
pub proof fn lemma_run_failed(
    ops: Seq<BooleanOp>,
    lookups: Seq<Result<Option<Vec<u8>>, StorageError>>,
    k: int,
)
    requires
        0 <= k <= ops.len(),
        run(ops.take(k), lookups).is_err(),
    ensures
        run(ops, lookups) == run(ops.take(k), lookups),
    decreases ops.len(),
{
    if k == ops.len() {
        assert(ops.take(k) =~= ops);
    } else {
        assert(ops.drop_last().take(k) =~= ops.take(k));
        lemma_run_failed(ops.drop_last(), lookups, k);
    }
}

/// The number of load instructions in a program: as many lookups as a run
/// of it takes.
pub fn count_loads(ops: &Vec<BooleanOp>) -> (count: usize)
    ensures
        count == load_count(ops@),
{
    let mut count: usize = 0;
    let mut k: usize = 0;
    assert(ops@.take(0) =~= Seq::<BooleanOp>::empty());
    while k < ops.len()
        invariant
            k <= ops.len(),
            count <= k,
            count == load_count(ops@.take(k as int)),
        decreases ops.len() - k,
    {
        assert(ops@.take(k + 1).drop_last() =~= ops@.take(k as int));
        match ops[k] {
            BooleanOp::LoadPostings(_, _) => {
                count += 1;
            },
            BooleanOp::LoadDeletions => {
                count += 1;
            },
            _ => {},
        }
        k += 1;
    }
    assert(ops@.take(k as int) =~= ops@);
    count
}

/// Turns a lookup's answer into the set it stands for.
pub fn load(lookup: &Result<Option<Vec<u8>>, StorageError>) -> (r: Result<PostingSet, StorageError>)
    ensures
        match r {
            Ok(set) => set.wf() && loaded(*lookup) == Ok::<PostingModel, StorageError>(set@),
            Err(e) => loaded(*lookup) == Err::<PostingModel, StorageError>(e),
        },
{
    match lookup {
        Ok(Some(bytes)) => match decode_postings(bytes) {
            Ok(ids) => Ok(PostingSet::Sparse(ids, false)),
            Err(e) => Err(e),
        },
        Ok(None) => Ok(PostingSet::Empty),
        Err(e) => Err(*e),
    }
}

/// Runs a well-formed boolean program. `lookups` holds, in program order,
/// what storage answered for each load instruction. The result is the one
/// set the program leaves, or the error of the first load that failed.
pub fn execute(ops: &Vec<BooleanOp>, lookups: &Vec<Result<Option<Vec<u8>>, StorageError>>) -> (r: Result<
    PostingSet,
    StorageError,
>)
    requires
        boolean_well_formed(ops@),
        lookups@.len() == load_count(ops@),
    ensures
        match r {
            Ok(set) => set.wf() && run(ops@, lookups@) == Ok::<Seq<PostingModel>, StorageError>(
                seq![set@],
            ) && result_flag(ops@) == !is_plain(set@),
            Err(e) => run(ops@, lookups@) == Err::<Seq<PostingModel>, StorageError>(e),
        },
{
    let mut stack: Vec<PostingSet> = Vec::new();
    let ghost mut flags: Seq<bool> = Seq::empty();
    let mut used: usize = 0;
    let mut k: usize = 0;
    proof {
        assert(ops@.take(0) =~= Seq::<BooleanOp>::empty());
        assert(models(stack@) =~= Seq::<PostingModel>::empty());
    }
    while k < ops.len()
        invariant
            k <= ops.len(),
            boolean_well_formed(ops@),
            lookups@.len() == load_count(ops@),
            used == load_count(ops@.take(k as int)),
            used <= k,
            shape_after(ops@.take(k as int), Seq::empty()) == Some(flags),
            stack@.len() == flags.len(),
            forall|i: int|
                0 <= i < stack@.len() ==> (#[trigger] stack@[i]).wf() && flags[i] == !is_plain(
                    stack@[i]@,
                ),
            run(ops@.take(k as int), lookups@) == Ok::<Seq<PostingModel>, StorageError>(models(stack@)),
        decreases ops.len() - k,
    {
        let ghost prefix = ops@.take(k as int);
        let ghost next = ops@.take(k + 1);
        let ghost before = stack@;
        let ghost old_flags = flags;
        proof {
            assert(next.drop_last() =~= prefix);
            assert(next.last() == ops@[k as int]);
            lemma_load_count_prefix(ops@, k + 1);
            if shape_after(next, Seq::empty()).is_none() {
                lemma_shape_stuck(ops@, k as int);
            }
            flags = shape_step(ops@[k as int], old_flags).unwrap();
        }
        match ops[k] {
            BooleanOp::PushEmpty => {
                stack.push(PostingSet::Empty);
                assert(models(stack@) =~= models(before).push(PostingModel::Empty));
            },
            BooleanOp::PushFull => {
                stack.push(PostingSet::Full);
                assert(models(stack@) =~= models(before).push(PostingModel::Full));
            },
            BooleanOp::LoadPostings(_, _) | BooleanOp::LoadDeletions => {
                match load(&lookups[used]) {
                    Ok(set) => {
                        let ghost m = set@;
                        stack.push(set);
                        assert(models(stack@) =~= models(before).push(m));
                    },
                    Err(e) => {
                        proof {
                            assert(run(next, lookups@) == Err::<Seq<PostingModel>, StorageError>(e));
                            lemma_run_failed(ops@, lookups@, k + 1);
                        }
                        return Err(e);
                    },
                }
                used += 1;
            },
            BooleanOp::And => {
                let b = stack.pop().unwrap();
                let a = stack.pop().unwrap();
                let ghost (ma, mb) = (a@, b@);
                stack.push(a.intersection(b));
                assert(models(stack@) =~= models(before).take(before.len() - 2).push(
                    ma.intersection(mb),
                ));
            },
            BooleanOp::Or => {
                let b = stack.pop().unwrap();
                let a = stack.pop().unwrap();
                let ghost (ma, mb) = (a@, b@);
                stack.push(a.union(b));
                assert(models(stack@) =~= models(before).take(before.len() - 2).push(ma.union(mb)));
            },
            BooleanOp::AndNot => {
                let b = stack.pop().unwrap();
                let a = stack.pop().unwrap();
                let ghost (ma, mb) = (a@, b@);
                stack.push(a.exclusion(b));
                assert(models(stack@) =~= models(before).take(before.len() - 2).push(
                    ma.exclusion(mb),
                ));
            },
        }
        k += 1;
    }
    assert(ops@.take(k as int) =~= ops@);
    let ghost full = stack@;
    let set = stack.pop().unwrap();
    assert(set == full[0]);
    assert(models(full) =~= seq![set@]);
    Ok(set)
}

/// Whether listing the documents of a set takes the size of the corpus.
pub fn needs_corpus_size(set: &PostingSet) -> (needed: bool)
    ensures
        needed == !is_plain(set@),
{
    match set {
        PostingSet::Empty => false,
        PostingSet::Full => true,
        PostingSet::Sparse(_, negated) => *negated,
    }
}

/// The document count that a lookup of the chunk's statistic stands for: a
/// missing statistic counts as zero documents.
pub open spec fn total_of(stat: Result<Option<Vec<u8>>, StorageError>) -> Result<i64, StorageError> {
    match stat {
        Ok(Some(bytes)) => if bytes@.len() >= 8 {
            Ok(stored_total(bytes@))
        } else {
            Err(StorageError::Corrupt)
        },
        Ok(None) => Ok(0i64),
        Err(e) => Err(e),
    }
}

/// Reads the size of the corpus from what storage answered for the chunk's
/// document-count statistic.
pub fn total_docs(stat: &Result<Option<Vec<u8>>, StorageError>) -> (r: Result<i64, StorageError>)
    ensures
        r == total_of(*stat),
{
    match stat {
        Ok(Some(bytes)) => decode_total_docs(bytes),
        Ok(None) => Ok(0),
        Err(e) => Err(*e),
    }
}

/// The documents of a corpus of `total` documents: every id below the count.
pub open spec fn corpus(total: i64) -> Set<u16> {
    Set::new(|d: u16| (d as int) < total)
}

/// Lists the documents that a set matches, in ascending order. A plain set
/// is listed as it is; a full or negated one against the corpus of
/// `total` documents.
pub fn resolve(set: PostingSet, total: i64) -> (ids: Vec<u16>)
    requires
        set.wf(),
    ensures
        strictly_ascending(ids@),
        ids@.to_set() == set@.members(corpus(total)),
        set matches PostingSet::Sparse(listed, false) ==> ids@ == listed@,
{
    match set {
        PostingSet::Sparse(data, false) => data,
        PostingSet::Sparse(data, true) => {
            let all_docs = new_filled(total);
            merge::exclusion(&all_docs, &data)
        },
        PostingSet::Empty => {
            let none = new_filled(0);
            assert(none@.to_set() =~= Set::<u16>::empty());
            none
        },
        PostingSet::Full => new_filled(total),
    }
}

/// The documents that a search finds: those of the one set its program
/// leaves. The size of the corpus is read from `stat` only where that set is
/// full or negated, so only then can `stat` fail the search.
pub open spec fn search_result(
    ops: Seq<BooleanOp>,
    lookups: Seq<Result<Option<Vec<u8>>, StorageError>>,
    stat: Result<Option<Vec<u8>>, StorageError>,
) -> Result<Set<u16>, StorageError> {
    match run(ops, lookups) {
        Ok(stack) => if is_plain(stack[0]) {
            Ok(stack[0].members(Set::empty()))
        } else {
            match total_of(stat) {
                Ok(total) => Ok(stack[0].members(corpus(total))),
                Err(e) => Err(e),
            }
        },
        Err(e) => Err(e),
    }
}

/// Runs the boolean program of a plan and lists the matching documents in
/// ascending order. `lookups` holds what storage answered for each load
/// instruction, in program order, and `stat` what it answered for the
/// chunk's document count. Once every load has succeeded, `stat` is read
/// exactly when the plan's program is flagged as negated.
pub fn search(
    plan: &SearchPlan,
    lookups: &Vec<Result<Option<Vec<u8>>, StorageError>>,
    stat: &Result<Option<Vec<u8>>, StorageError>,
) -> (r: Result<Vec<u16>, StorageError>)
    requires
        boolean_well_formed(plan.boolean_query@),
        lookups@.len() == load_count(plan.boolean_query@),
    ensures
        match r {
            Ok(ids) => strictly_ascending(ids@) && search_result(
                plan.boolean_query@,
                lookups@,
                *stat,
            ) == Ok::<Set<u16>, StorageError>(ids@.to_set()),
            Err(e) => search_result(plan.boolean_query@, lookups@, *stat) == Err::<
                Set<u16>,
                StorageError,
            >(e),
        },
{
    let set = match execute(&plan.boolean_query, lookups) {
        Ok(set) => set,
        Err(e) => {
            return Err(e);
        },
    };
    let total: i64 = if needs_corpus_size(&set) {
        match total_docs(stat) {
            Ok(total) => total,
            Err(e) => {
                return Err(e);
            },
        }
    } else {
        0
    };
    let ghost model = set@;
    let ids = resolve(set, total);
    proof {
        if is_plain(model) {
            assert(model.members(corpus(total)) =~= model.members(Set::empty()));
        }
    }
    Ok(ids)
}

/// A run that does not fail leaves as many sets as the program's flags, and
/// a set is full or negated exactly when its flag is up.
pub proof fn lemma_run_follows_shape(
    ops: Seq<BooleanOp>,
    lookups: Seq<Result<Option<Vec<u8>>, StorageError>>,
)
    requires
        shape_after(ops, Seq::empty()).is_some(),
        run(ops, lookups).is_ok(),
    ensures
        run(ops, lookups).unwrap().len() == shape_after(ops, Seq::empty()).unwrap().len(),
        forall|i: int|
            0 <= i < run(ops, lookups).unwrap().len() ==> shape_after(ops, Seq::empty()).unwrap()[i]
                == !is_plain(#[trigger] run(ops, lookups).unwrap()[i]),
    decreases ops.len(),
{
    if ops.len() > 0 {
        lemma_run_follows_shape(ops.drop_last(), lookups);
    }
}

/// Where a program's flag is down, the size of the corpus plays no part in
/// what a search finds: whatever the statistic lookup answered, the result
/// is the same.
pub proof fn lemma_unflagged_search_ignores_stat(
    ops: Seq<BooleanOp>,
    lookups: Seq<Result<Option<Vec<u8>>, StorageError>>,
    stat: Result<Option<Vec<u8>>, StorageError>,
    other: Result<Option<Vec<u8>>, StorageError>,
)
    requires
        boolean_well_formed(ops),
        !result_flag(ops),
    ensures
        search_result(ops, lookups, stat) == search_result(ops, lookups, other),
{
    if run(ops, lookups).is_ok() {
        lemma_run_follows_shape(ops, lookups);
    }
}

/// Whatever storage answers, the program compiled for a query never finds
/// its stack too short, and unless a load fails it leaves exactly one set,
/// which is full or negated exactly when the query's flag is up.
pub proof fn lemma_compiled_run_leaves_one(
    q: Query,
    lex: Lexicon,
    lookups: Seq<Result<Option<Vec<u8>>, StorageError>>,
)
    ensures
        boolean_well_formed(search_program(q, lex)),
        run(search_program(q, lex), lookups).is_ok() ==> run(
            search_program(q, lex),
            lookups,
        ).unwrap().len() == 1,
        run(search_program(q, lex), lookups).is_ok() ==> is_negated(q) == !is_plain(
            run(search_program(q, lex), lookups).unwrap()[0],
        ),
{
    lemma_search_program_well_formed(q, lex);
    if run(search_program(q, lex), lookups).is_ok() {
        lemma_run_follows_shape(search_program(q, lex), lookups);
    }
}

/// Where a program's flag is up and every load succeeds, the search rests on
/// the size of the corpus: if the statistic lookup fails, so does the search.
pub proof fn lemma_flagged_search_reads_stat(
    ops: Seq<BooleanOp>,
    lookups: Seq<Result<Option<Vec<u8>>, StorageError>>,
    stat: Result<Option<Vec<u8>>, StorageError>,
)
    requires
        boolean_well_formed(ops),
        result_flag(ops),
        run(ops, lookups).is_ok(),
        total_of(stat).is_err(),
    ensures
        search_result(ops, lookups, stat) == Err::<Set<u16>, StorageError>(total_of(stat).unwrap_err()),
{
    lemma_run_follows_shape(ops, lookups);
}

} // verus!
