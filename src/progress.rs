//! Answer records and the progress they make up: a session's answered set is the
//! set of distinct question ids recorded against it.

use vstd::prelude::*;

verus! {

broadcast use vstd::seq_lib::group_seq_properties;

/// The text of each id.
pub open spec fn id_views(ids: Seq<String>) -> Seq<Seq<char>> {
    ids.map_values(|s: String| s@)
}

/// The set of ids in a list.
pub open spec fn id_set(ids: Seq<String>) -> Set<Seq<char>> {
    id_views(ids).to_set()
}

/// A list of ids that names no id twice and names exactly the ids of `of`.
pub open spec fn is_distinct_listing(ids: Seq<String>, of: Set<Seq<char>>) -> bool {
    &&& id_views(ids).no_duplicates()
    &&& id_set(ids) == of
}

/// One submitted answer.
pub struct AnswerRecord {
    pub session_id: String,
    pub question_id: String,
    pub is_correct: bool,
    pub created_at: String,
}

/// The distinct question ids that `records` hold for `session`.
pub open spec fn answered_set(records: Seq<AnswerRecord>, session: Seq<char>) -> Set<Seq<char>> {
    Set::new(
        |q: Seq<char>|
            exists|i: int|
                0 <= i < records.len() && #[trigger] records[i].session_id@ == session
                    && records[i].question_id@ == q,
    )
}

/// Relies on chrono's `Local::now` and its `Display`: the current local time as
/// text. Nothing is stated of the value, which depends on the clock.
#[verifier::external_body]
fn now_text() -> String {
    chrono::Local::now().to_string()
}

impl AnswerRecord {
    /// A record of an answer given at `created_at`.
    pub fn new(session_id: &str, question_id: &str, is_correct: bool, created_at: String) -> (r:
        AnswerRecord)
        ensures
            r.session_id@ == session_id@,
            r.question_id@ == question_id@,
            r.is_correct == is_correct,
            r.created_at@ == created_at@,
    {
        AnswerRecord {
            session_id: session_id.to_owned(),
            question_id: question_id.to_owned(),
            is_correct,
            created_at,
        }
    }

    /// A record of an answer given now, stamped with the local time.
    pub fn submitted(session_id: &str, question_id: &str, is_correct: bool) -> (r: AnswerRecord)
        ensures
            r.session_id@ == session_id@,
            r.question_id@ == question_id@,
            r.is_correct == is_correct,
    {
        AnswerRecord::new(session_id, question_id, is_correct, now_text())
    }

    /// The correctness flag as it is stored: `1` for a correct answer, `0` otherwise.
    pub fn correct_flag(&self) -> (r: i64)
        ensures
            r == (if self.is_correct {
                1int
            } else {
                0int
            }),
    {
        if self.is_correct {
            1
        } else {
            0
        }
    }
}

/// Whether `id` is one of `ids`.
pub fn contains_id(ids: &Vec<String>, id: &String) -> (r: bool)
    ensures
        r == id_set(ids@).contains(id@),
{
    let mut i: usize = 0;
    while i < ids.len()
        invariant
            i <= ids@.len(),
            forall|j: int| 0 <= j < i ==> ids@[j]@ != id@,
        decreases ids@.len() - i,
    {
        if ids[i] == *id {
            assert(id_views(ids@)[i as int] == id@);
            return true;
        }
        i = i + 1;
    }
    assert(!id_views(ids@).contains(id@)) by {
        if id_views(ids@).contains(id@) {
            let j = choose|j: int| 0 <= j < id_views(ids@).len() && id_views(ids@)[j] == id@;
            assert(ids@[j]@ == id@);
        }
    }
    false
}

/// The ids of `ids`, each once, in the order of first appearance.
pub fn distinct_ids(ids: &Vec<String>) -> (r: Vec<String>)
    ensures
        is_distinct_listing(r@, id_set(ids@)),
{
    let mut out: Vec<String> = Vec::new();
    let mut i: usize = 0;
    while i < ids.len()
        invariant
            i <= ids@.len(),
            is_distinct_listing(out@, id_set(ids@.subrange(0, i as int))),
        decreases ids@.len() - i,
    {
        let id = &ids[i];
        let seen = contains_id(&out, id);
        proof {
            assert(ids@.subrange(0, i + 1) == ids@.subrange(0, i as int).push(ids@[i as int]));
            assert(id_views(ids@.subrange(0, i + 1)) == id_views(ids@.subrange(0, i as int)).push(
                id@,
            ));
        }
        proof {
            id_views(ids@.subrange(0, i as int)).lemma_push_to_set_commute(id@);
        }
        if !seen {
            let ghost before = out@;
            out.push(id.clone());
            proof {
                assert(id_views(out@) == id_views(before).push(id@));
                id_views(before).lemma_push_to_set_commute(id@);
                assert(!id_views(before).contains(id@));
            }
        } else {
            assert(id_set(ids@.subrange(0, i as int)).insert(id@) == id_set(ids@.subrange(0, i as int)));
        }
        i = i + 1;
    }
    proof {
        assert(ids@.subrange(0, ids@.len() as int) == ids@);
    }
    out
}

/// An append-only log of answer records.
pub struct AnswerLog {
    records: Vec<AnswerRecord>,
}

impl View for AnswerLog {
    type V = Seq<AnswerRecord>;

    closed spec fn view(&self) -> Seq<AnswerRecord> {
        self.records@
    }
}

impl AnswerLog {
    /// An empty log.
    pub fn new() -> (r: AnswerLog)
        ensures
            r@.len() == 0,
    {
        AnswerLog { records: Vec::new() }
    }

    /// The number of records, duplicates included.
    pub fn len(&self) -> (r: usize)
        ensures
            r == self@.len(),
    {
        self.records.len()
    }

    /// Appends a record.
    pub fn append(&mut self, record: AnswerRecord)
        ensures
            final(self)@ == old(self)@.push(record),
    {
        self.records.push(record);
    }

    /// Records an answer given now. No check is made that the question exists, and
    /// an answer to a question already answered is recorded again.
    pub fn record(&mut self, session_id: &str, question_id: &str, is_correct: bool)
        ensures
            final(self)@.len() == old(self)@.len() + 1,
            final(self)@.subrange(0, old(self)@.len() as int) == old(self)@,
            final(self)@.last().session_id@ == session_id@,
            final(self)@.last().question_id@ == question_id@,
            final(self)@.last().is_correct == is_correct,
    {
        self.append(AnswerRecord::submitted(session_id, question_id, is_correct));
    }

    /// The distinct question ids recorded for `session_id`, in the order in which
    /// they were first answered.
    pub fn answered(&self, session_id: &str) -> (r: Vec<String>)
        ensures
            is_distinct_listing(r@, answered_set(self@, session_id@)),
    {
        let session = session_id.to_owned();
        let mut all: Vec<String> = Vec::new();
        let mut i: usize = 0;
        while i < self.records.len()
            invariant
                i <= self.records@.len(),
                session@ == session_id@,
                id_set(all@) == answered_set(self.records@.subrange(0, i as int), session@),
            decreases self.records@.len() - i,
        {
            let rec = &self.records[i];
            let ghost prefix = self.records@.subrange(0, i as int);
            let ghost next = self.records@.subrange(0, i + 1);
            proof {
                assert(next == prefix.push(*rec));
            }
            if rec.session_id == session {
                let ghost before = all@;
                all.push(rec.question_id.clone());
                proof {
                    assert(id_views(all@) == id_views(before).push(rec.question_id@));
                    assert(answered_set(next, session@) == answered_set(prefix, session@).insert(
                        rec.question_id@,
                    )) by {
                        assert(next[i as int] == *rec);
                        assert forall|q: Seq<char>| #[trigger]
                            answered_set(next, session@).contains(q) implies answered_set(
                            prefix,
                            session@,
                        ).insert(rec.question_id@).contains(q) by {
                            let j = choose|j: int|
                                0 <= j < next.len() && #[trigger] next[j].session_id@ == session@
                                    && next[j].question_id@ == q;
                            if j < i {
                                assert(prefix[j] == next[j]);
                            }
                        }
                        assert forall|q: Seq<char>| #[trigger]
                            answered_set(prefix, session@).contains(q) implies answered_set(
                            next,
                            session@,
                        ).contains(q) by {
                            let j = choose|j: int|
                                0 <= j < prefix.len() && #[trigger] prefix[j].session_id@
                                    == session@ && prefix[j].question_id@ == q;
                            assert(next[j] == prefix[j]);
                        }
                    }
                }
            } else {
                proof {
                    assert(answered_set(next, session@) == answered_set(prefix, session@)) by {
                        assert forall|q: Seq<char>| #[trigger]
                            answered_set(next, session@).contains(q) implies answered_set(
                            prefix,
                            session@,
                        ).contains(q) by {
                            let j = choose|j: int|
                                0 <= j < next.len() && #[trigger] next[j].session_id@ == session@
                                    && next[j].question_id@ == q;
                            assert(j < i);
                            assert(prefix[j] == next[j]);
                        }
                        assert forall|q: Seq<char>| #[trigger]
                            answered_set(prefix, session@).contains(q) implies answered_set(
                            next,
                            session@,
                        ).contains(q) by {
                            let j = choose|j: int|
                                0 <= j < prefix.len() && #[trigger] prefix[j].session_id@
                                    == session@ && prefix[j].question_id@ == q;
                            assert(next[j] == prefix[j]);
                        }
                    }
                }
            }
            i = i + 1;
        }
        proof {
            assert(self.records@.subrange(0, self.records@.len() as int) == self.records@);
        }
        distinct_ids(&all)
    }
}

} // verus!
