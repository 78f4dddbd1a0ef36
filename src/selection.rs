//! Choosing what a session sees next: one of the questions it has not answered
//! yet, drawn at random, or the completion report once none is left.

use vstd::prelude::*;
use crate::catalog::{Question, QuestionCatalog, question_ids};
use crate::progress::{
    AnswerRecord, answered_set, contains_id, distinct_ids, id_set, id_views, is_distinct_listing,
};
use crate::report::{accuracy_hundredths, accuracy_text, percent_text};

verus! {

broadcast use vstd::seq_lib::group_seq_properties;

/// The catalog ids that are not in `answered`, in catalog order.
pub open spec fn remaining(catalog: Seq<Seq<char>>, answered: Set<Seq<char>>) -> Seq<Seq<char>> {
    catalog.filter(|id: Seq<char>| !answered.contains(id))
}

/// The report given once a session has no question left.
pub struct Completion {
    pub total: usize,
    pub answered_count: usize,
    pub accuracy: String,
}

/// What a session sees next.
pub enum Outcome<'a> {
    /// A question still to answer. `current_question_number` is the number of
    /// questions left, this one included.
    InProgress { question: &'a Question, current_question_number: usize, total: usize },
    /// Nothing is left.
    Completed(Completion),
}

/// `r` is the completion report for a catalog of `total` questions and a session
/// that answered `answered_count` distinct ones. The accuracy counts every answered
/// question, whatever its correctness.
pub open spec fn is_completion(r: Outcome, total: nat, answered_count: nat) -> bool {
    match r {
        Outcome::Completed(c) => {
            &&& c.total == total
            &&& c.answered_count == answered_count
            &&& c.accuracy@ == percent_text(accuracy_hundredths(answered_count, total))
        },
        _ => false,
    }
}

/// `r` offers the catalog question whose id is `id`, with `left` questions left.
pub open spec fn offers(r: Outcome, questions: Seq<Question>, id: Seq<char>, left: nat) -> bool {
    match r {
        Outcome::InProgress { question, current_question_number, total } => {
            &&& questions.contains(*question)
            &&& question.id@ == id
            &&& current_question_number == left
            &&& total == questions.len()
        },
        _ => false,
    }
}

/// Relies on rand's `SliceRandom::choose` with `thread_rng`: `None` for an empty
/// slice, otherwise one of its elements, drawn uniformly.
#[verifier::external_body]
fn choose_position(positions: &Vec<usize>) -> (r: Option<usize>)
    ensures
        r is None <==> positions@.len() == 0,
        r is Some ==> positions@.contains(r->Some_0),
{
    rand::seq::SliceRandom::choose(positions.as_slice(), &mut rand::thread_rng()).copied()
}

proof fn lemma_listing_len(ids: Seq<String>, of: Set<Seq<char>>)
    requires
        is_distinct_listing(ids, of),
    ensures
        ids.len() == of.len(),
{
    id_views(ids).unique_seq_to_set();
}

/// The positions in `questions` of the questions whose ids are not in `answered`.
fn remaining_positions(questions: &Vec<Question>, answered: &Vec<String>) -> (r: Vec<usize>)
    ensures
        r@.len() == remaining(question_ids(questions@), id_set(answered@)).len(),
        forall|k: int|
            0 <= k < r@.len() ==> #[trigger] r@[k] < questions@.len() && question_ids(
                questions@,
            )[r@[k] as int] == remaining(question_ids(questions@), id_set(answered@))[k],
{
    let ghost ids = question_ids(questions@);
    let ghost done = id_set(answered@);
    let mut out: Vec<usize> = Vec::new();
    let mut i: usize = 0;
    while i < questions.len()
        invariant
            i <= questions@.len(),
            ids == question_ids(questions@),
            done == id_set(answered@),
            out@.len() == remaining(ids.subrange(0, i as int), done).len(),
            forall|k: int|
                0 <= k < out@.len() ==> #[trigger] out@[k] < i && ids[out@[k] as int] == remaining(
                    ids.subrange(0, i as int),
                    done,
                )[k],
        decreases questions@.len() - i,
    {
        let seen = contains_id(answered, &questions[i].id);
        let ghost prefix = ids.subrange(0, i as int);
        let ghost next = ids.subrange(0, i + 1);
        proof {
            reveal(Seq::filter);
            assert(next.drop_last() == prefix);
            assert(next.last() == ids[i as int]);
            assert(ids[i as int] == questions@[i as int].id@);
            if seen {
                assert(remaining(next, done) == remaining(prefix, done));
            } else {
                assert(remaining(next, done) == remaining(prefix, done).push(ids[i as int]));
            }
        }
        if !seen {
            out.push(i);
        }
        i = i + 1;
    }
    proof {
        assert(ids.subrange(0, ids.len() as int) == ids);
    }
    out
}

fn completion<'a>(answered_count: usize, total: usize) -> (r: Outcome<'a>)
    ensures
        is_completion(r, total as nat, answered_count as nat),
{
    Outcome::Completed(
        Completion { total, answered_count, accuracy: accuracy_text(answered_count, total) },
    )
}

fn offer<'a>(catalog: &'a QuestionCatalog, position: usize, left: usize) -> (r: Outcome<'a>)
    requires
        position < catalog@.len(),
    ensures
        offers(r, catalog@, question_ids(catalog@)[position as int], left as nat),
{
    let questions = catalog.questions();
    proof {
        assert(questions@[position as int] == catalog@[position as int]);
    }
    Outcome::InProgress {
        question: &questions[position],
        current_question_number: left,
        total: questions.len(),
    }
}

/// What a session that has answered the ids in `answered` sees next, where the
/// question offered is the one at `pick`, taken modulo the number left, among the
/// remaining ids in catalog order. `answered` may repeat ids and may name ids that
/// the catalog lacks; each distinct id counts once.
pub fn next_with_choice<'a>(catalog: &'a QuestionCatalog, answered: &Vec<String>, pick: usize) -> (r:
    Outcome<'a>)
    ensures
        ({
            let rem = remaining(question_ids(catalog@), id_set(answered@));
            &&& rem.len() == 0 ==> is_completion(r, catalog@.len(), id_set(answered@).len())
            &&& rem.len() > 0 ==> offers(r, catalog@, rem[pick as int % rem.len() as int], rem.len())
        }),
{
    let distinct = distinct_ids(answered);
    proof {
        lemma_listing_len(distinct@, id_set(answered@));
    }
    let positions = remaining_positions(catalog.questions(), answered);
    if positions.len() == 0 {
        completion(distinct.len(), catalog.len())
    } else {
        let k = pick % positions.len();
        offer(catalog, positions[k], positions.len())
    }
}

/// What a session that has answered the ids in `answered` sees next: a question
/// drawn uniformly from those it has not answered, or the completion report once
/// none is left. `answered` may repeat ids and may name ids that the catalog lacks;
/// each distinct id counts once.
pub fn next<'a>(catalog: &'a QuestionCatalog, answered: &Vec<String>) -> (r: Outcome<'a>)
    ensures
        ({
            let rem = remaining(question_ids(catalog@), id_set(answered@));
            &&& rem.len() == 0 ==> is_completion(r, catalog@.len(), id_set(answered@).len())
            &&& rem.len() > 0 ==> exists|id: Seq<char>|
                rem.contains(id) && #[trigger] offers(r, catalog@, id, rem.len())
        }),
{
    let distinct = distinct_ids(answered);
    proof {
        lemma_listing_len(distinct@, id_set(answered@));
    }
    let positions = remaining_positions(catalog.questions(), answered);
    match choose_position(&positions) {
        None => completion(distinct.len(), catalog.len()),
        Some(p) => {
            let ghost rem = remaining(question_ids(catalog@), id_set(answered@));
            let ghost k = choose|k: int| 0 <= k < positions@.len() && positions@[k] == p;
            let r = offer(catalog, p, positions.len());
            assert(rem.contains(rem[k]));
            assert(offers(r, catalog@, rem[k], rem.len()));
            r
        },
    }
}

proof fn lemma_remaining_antitone(catalog: Seq<Seq<char>>, fewer: Set<Seq<char>>, more: Set<Seq<char>>)
    requires
        fewer.subset_of(more),
    ensures
        remaining(catalog, more).len() <= remaining(catalog, fewer).len(),
    decreases catalog.len(),
{
    reveal(Seq::filter);
    if catalog.len() > 0 {
        lemma_remaining_antitone(catalog.drop_last(), fewer, more);
    }
}

proof fn lemma_remaining_of_nothing(catalog: Seq<Seq<char>>)
    ensures
        remaining(catalog, Set::empty()) == catalog,
    decreases catalog.len(),
{
    reveal(Seq::filter);
    if catalog.len() > 0 {
        lemma_remaining_of_nothing(catalog.drop_last());
        assert(catalog.drop_last().push(catalog.last()) == catalog);
    }
}

proof fn lemma_answered_grows(records: Seq<AnswerRecord>, record: AnswerRecord, session: Seq<char>)
    ensures
        answered_set(records, session).subset_of(answered_set(records.push(record), session)),
{
    assert forall|q: Seq<char>| #[trigger]
        answered_set(records, session).contains(q) implies answered_set(
        records.push(record),
        session,
    ).contains(q) by {
        let j = choose|j: int|
            0 <= j < records.len() && #[trigger] records[j].session_id@ == session
                && records[j].question_id@ == q;
        assert(records.push(record)[j] == records[j]);
    }
}

/// What remains of the catalog for a session holds exactly the catalog ids that
/// the session has not answered, and recording any answer never makes it longer.
pub proof fn lemma_remaining_never_grows(
    records: Seq<AnswerRecord>,
    record: AnswerRecord,
    catalog: Seq<Seq<char>>,
    session: Seq<char>,
)
    ensures
        remaining(catalog, answered_set(records, session)).to_set() == catalog.to_set().difference(
            answered_set(records, session),
        ),
        remaining(catalog, answered_set(records.push(record), session)).len() <= remaining(
            catalog,
            answered_set(records, session),
        ).len(),
{
    let done = answered_set(records, session);
    let pred = |id: Seq<char>| !done.contains(id);
    let rem = remaining(catalog, done);
    assert forall|id: Seq<char>|
        rem.to_set().contains(id) <==> catalog.to_set().difference(done).contains(id) by {
        if rem.contains(id) {
            let k = choose|k: int| 0 <= k < rem.len() && rem[k] == id;
            catalog.lemma_filter_pred(pred, k);
            catalog.lemma_filter_contains_rev(pred, id);
        }
        if catalog.contains(id) && !done.contains(id) {
            let k = choose|k: int| 0 <= k < catalog.len() && catalog[k] == id;
            catalog.lemma_filter_contains(pred, k);
        }
    }
    lemma_answered_grows(records, record, session);
    lemma_remaining_antitone(catalog, done, answered_set(records.push(record), session));
}

/// Recording a second answer to a question that a session has just answered
/// appends one more record but leaves every session's answered set, and so what
/// remains of the catalog, unchanged.
pub proof fn lemma_repeat_submission(
    records: Seq<AnswerRecord>,
    first: AnswerRecord,
    second: AnswerRecord,
    catalog: Seq<Seq<char>>,
    session: Seq<char>,
)
    requires
        first.session_id@ == second.session_id@,
        first.question_id@ == second.question_id@,
    ensures
        records.push(first).push(second).len() == records.push(first).len() + 1,
        answered_set(records.push(first).push(second), session) == answered_set(
            records.push(first),
            session,
        ),
        remaining(catalog, answered_set(records.push(first).push(second), session)).len()
            == remaining(catalog, answered_set(records.push(first), session)).len(),
{
    let once = records.push(first);
    let twice = once.push(second);
    lemma_answered_grows(once, second, session);
    assert forall|q: Seq<char>| #[trigger]
        answered_set(twice, session).contains(q) implies answered_set(once, session).contains(q) by {
        let j = choose|j: int|
            0 <= j < twice.len() && #[trigger] twice[j].session_id@ == session
                && twice[j].question_id@ == q;
        if j < once.len() {
            assert(once[j] == twice[j]);
        } else {
            assert(once[records.len() as int] == first);
        }
    }
    assert(answered_set(twice, session) == answered_set(once, session));
}

/// A token under which nothing has been recorded, such as one minted after a
/// restart, starts with no answered question and the whole catalog ahead of it,
/// whatever the records kept under other tokens.
pub proof fn lemma_unused_token_starts_fresh(
    records: Seq<AnswerRecord>,
    catalog: Seq<Seq<char>>,
    token: Seq<char>,
)
    requires
        forall|i: int| 0 <= i < records.len() ==> #[trigger] records[i].session_id@ != token,
    ensures
        answered_set(records, token) == Set::<Seq<char>>::empty(),
        remaining(catalog, answered_set(records, token)) == catalog,
{
    assert(answered_set(records, token) == Set::<Seq<char>>::empty());
    lemma_remaining_of_nothing(catalog);
}

} // verus!
