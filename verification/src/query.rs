//! The query tree, the two instruction sets it is compiled to, and the
//! name tables the planner resolves against.

use vstd::prelude::*;

verus! {

/// Ordinal of a field within a schema.
#[derive(Debug, Clone, Copy, PartialEq, Eq)]
pub struct FieldRef {
    pub ord: u32,
}

/// Ordinal of a term within a term dictionary.
#[derive(Debug, Clone, Copy, PartialEq, Eq)]
pub struct TermRef {
    pub ord: u32,
}

/// The relevance formula that a term clause asks for.
#[derive(Debug, Clone, Copy, PartialEq, Eq)]
pub enum ScorerKind {
    TfIdf,
    Bm25,
}

/// How a combinator folds the scores of its children.
#[derive(Debug, Clone, Copy, PartialEq, Eq)]
pub enum Aggregator {
    Average,
    Max,
}

/// One instruction of the postfix program that computes the matching set.
#[derive(Debug, Clone, Copy, PartialEq, Eq)]
pub enum BooleanOp {
    /// Push the empty set.
    PushEmpty,
    /// Push the full set.
    PushFull,
    /// Push the posting list stored for a term of a field.
    LoadPostings(FieldRef, TermRef),
    /// Push the posting list stored under the chunk's tombstone key.
    LoadDeletions,
    /// Replace the two topmost sets by their intersection.
    And,
    /// Replace the two topmost sets by their union.
    Or,
    /// Replace the two topmost sets by the lower one without the upper one.
    AndNot,
}

/// One instruction of the postfix program that computes a document's score.
/// A literal score is carried as the bit pattern of a 64-bit IEEE 754 number.
#[derive(Debug, Clone, Copy, PartialEq, Eq)]
pub enum ScoreOp {
    /// Push a fixed score.
    Literal(u64),
    /// Push the score of a term of a field under a formula.
    TermScore(FieldRef, TermRef, ScorerKind),
    /// Replace the topmost scores, as many as given, by their aggregate.
    Combine(u32, Aggregator),
}

/// A boolean and scoring query over named fields and raw terms.
#[derive(Debug, PartialEq, Eq)]
pub enum Query {
    /// Every document, each with the given score (as a bit pattern).
    MatchAll { score: u64 },
    /// No document.
    MatchNone,
    /// The documents whose field holds the term.
    MatchTerm { field: String, term: Vec<u8>, scorer: ScorerKind },
    /// The documents that every child matches.
    Conjunction { queries: Vec<Query> },
    /// The documents that some child matches.
    Disjunction { queries: Vec<Query> },
    /// A disjunction that names how many children should match; the planner
    /// does not enforce the number.
    NDisjunction { queries: Vec<Query>, minimum_should_match: u32 },
    /// A disjunction scored by its best child.
    DisjunctionMax { queries: Vec<Query> },
    /// The documents of `query` that `filter` matches too.
    Filter { query: Box<Query>, filter: Box<Query> },
    /// The documents of `query` that `exclude` does not match.
    Exclude { query: Box<Query>, exclude: Box<Query> },
}

/// The first ordinal entered under `name`, if any.
pub open spec fn field_lookup(entries: Seq<(String, FieldRef)>, name: Seq<char>) -> Option<FieldRef>
    decreases entries.len(),
{
    if entries.len() == 0 {
        None
    } else if entries[0].0@ == name {
        Some(entries[0].1)
    } else {
        field_lookup(entries.drop_first(), name)
    }
}

/// The first ordinal entered under the bytes `term`, if any.
pub open spec fn term_lookup(entries: Seq<(Vec<u8>, TermRef)>, term: Seq<u8>) -> Option<TermRef>
    decreases entries.len(),
{
    if entries.len() == 0 {
        None
    } else if entries[0].0@ == term {
        Some(entries[0].1)
    } else {
        term_lookup(entries.drop_first(), term)
    }
}

/// The names a planner can resolve: the fields of a schema and the terms of
/// a term dictionary, each with its ordinal.
#[derive(Debug, Clone, PartialEq, Eq)]
pub struct Lexicon {
    pub fields: Vec<(String, FieldRef)>,
    pub terms: Vec<(Vec<u8>, TermRef)>,
}

/// Tells whether two byte strings are the same.
pub fn bytes_equal(a: &Vec<u8>, b: &Vec<u8>) -> (same: bool)
    ensures
        same == (a@ == b@),
{
    if a.len() != b.len() {
        return false;
    }
    let mut k: usize = 0;
    while k < a.len()
        invariant
            k <= a.len(),
            a.len() == b.len(),
            forall|m: int| 0 <= m < k ==> a[m] == b[m],
        decreases a.len() - k,
    {
        if a[k] != b[k] {
            return false;
        }
        k += 1;
    }
    assert(a@ =~= b@);
    true
}

impl Lexicon {
    /// A lexicon that knows no name.
    pub fn new() -> (lexicon: Lexicon)
        ensures
            lexicon.fields@.len() == 0,
            lexicon.terms@.len() == 0,
    {
        Lexicon { fields: Vec::new(), terms: Vec::new() }
    }

    /// The ordinal of the field called `name`.
    pub open spec fn field_of(&self, name: Seq<char>) -> Option<FieldRef> {
        field_lookup(self.fields@, name)
    }

    /// The ordinal of the term spelled `term`.
    pub open spec fn term_of(&self, term: Seq<u8>) -> Option<TermRef> {
        term_lookup(self.terms@, term)
    }

    /// Looks a field name up; a miss is an answer, not a failure.
    pub fn resolve_field(&self, name: &String) -> (found: Option<FieldRef>)
        ensures
            found == self.field_of(name@),
    {
        let mut k: usize = 0;
        assert(self.fields@.skip(0) =~= self.fields@);
        while k < self.fields.len()
            invariant
                k <= self.fields.len(),
                self.field_of(name@) == field_lookup(self.fields@.skip(k as int), name@),
            decreases self.fields.len() - k,
        {
            let ghost rest = self.fields@.skip(k as int);
            assert(rest[0] == self.fields@[k as int]);
            assert(rest.drop_first() =~= self.fields@.skip(k + 1));
            if self.fields[k].0 == *name {
                return Some(self.fields[k].1);
            }
            k += 1;
        }
        None
    }

    /// Looks a term up; a miss is an answer, not a failure.
    pub fn resolve_term(&self, term: &Vec<u8>) -> (found: Option<TermRef>)
        ensures
            found == self.term_of(term@),
    {
        let mut k: usize = 0;
        assert(self.terms@.skip(0) =~= self.terms@);
        while k < self.terms.len()
            invariant
                k <= self.terms.len(),
                self.term_of(term@) == term_lookup(self.terms@.skip(k as int), term@),
            decreases self.terms.len() - k,
        {
            let ghost rest = self.terms@.skip(k as int);
            assert(rest[0] == self.terms@[k as int]);
            assert(rest.drop_first() =~= self.terms@.skip(k + 1));
            if bytes_equal(&self.terms[k].0, term) {
                return Some(self.terms[k].1);
            }
            k += 1;
        }
        None
    }
}

} // verus!
