//! The question catalog: every known question, loaded once and never changed
//! afterwards.

use vstd::prelude::*;
use crate::progress::{contains_id, id_views};

verus! {

broadcast use vstd::seq_lib::group_seq_properties;

/// One answer option of a question.
pub struct QuestionOption {
    pub content: String,
    pub is_correct: bool,
}

/// A question with its options, in their order.
pub struct Question {
    pub id: String,
    pub content: Option<String>,
    pub images: Option<String>,
    pub options: Vec<QuestionOption>,
}

/// Why a catalog could not be built or could not answer.
#[derive(Debug, PartialEq, Eq, Structural)]
pub enum CatalogError {
    /// Two questions share an id.
    DuplicateId,
    /// No question has the id asked for.
    NotFound,
}

/// The ids of `questions`, in order.
pub open spec fn question_ids(questions: Seq<Question>) -> Seq<Seq<char>> {
    questions.map_values(|q: Question| q.id@)
}

/// All known questions; no two share an id.
pub struct QuestionCatalog {
    questions: Vec<Question>,
}

impl View for QuestionCatalog {
    type V = Seq<Question>;

    closed spec fn view(&self) -> Seq<Question> {
        self.questions@
    }
}

impl QuestionCatalog {
    #[verifier::type_invariant]
    spec fn ids_unique(&self) -> bool {
        question_ids(self.questions@).no_duplicates()
    }

    /// A catalog of `questions`, refused when two of them share an id.
    pub fn from_questions(questions: Vec<Question>) -> (r: Result<QuestionCatalog, CatalogError>)
        ensures
            question_ids(questions@).no_duplicates() <==> r is Ok,
            r is Ok ==> r->Ok_0@ == questions@,
            r is Err ==> r->Err_0 == CatalogError::DuplicateId,
    {
        let mut seen: Vec<String> = Vec::new();
        let mut i: usize = 0;
        while i < questions.len()
            invariant
                i <= questions@.len(),
                id_views(seen@) == question_ids(questions@).subrange(0, i as int),
                question_ids(questions@).subrange(0, i as int).no_duplicates(),
            decreases questions@.len() - i,
        {
            let id = &questions[i].id;
            if contains_id(&seen, id) {
                proof {
                    let ids = question_ids(questions@);
                    let k = choose|k: int| 0 <= k < i && id_views(seen@)[k] == id@;
                    assert(ids[k] == ids[i as int] && k != i);
                }
                return Err(CatalogError::DuplicateId);
            }
            let ghost before = seen@;
            seen.push(id.clone());
            proof {
                let ids = question_ids(questions@);
                assert(id_views(seen@) == id_views(before).push(id@));
                assert(ids.subrange(0, i + 1) == ids.subrange(0, i as int).push(ids[i as int]));
                assert(!ids.subrange(0, i as int).contains(id@));
            }
            i = i + 1;
        }
        proof {
            let ids = question_ids(questions@);
            assert(ids.subrange(0, ids.len() as int) == ids);
        }
        Ok(QuestionCatalog { questions })
    }

    /// The number of questions.
    pub fn len(&self) -> (r: usize)
        ensures
            r == self@.len(),
    {
        self.questions.len()
    }

    /// The questions, in the order in which they were loaded.
    pub fn questions(&self) -> (r: &Vec<Question>)
        ensures
            r@ == self@,
            question_ids(self@).no_duplicates(),
    {
        proof {
            use_type_invariant(self);
        }
        &self.questions
    }

    /// The question with the given id.
    pub fn lookup(&self, id: &str) -> (r: Result<&Question, CatalogError>)
        ensures
            r is Ok <==> question_ids(self@).contains(id@),
            r is Ok ==> self@.contains(*r->Ok_0) && r->Ok_0.id@ == id@,
            r is Err ==> r->Err_0 == CatalogError::NotFound,
    {
        let key = id.to_owned();
        let mut i: usize = 0;
        while i < self.questions.len()
            invariant
                i <= self@.len(),
                key@ == id@,
                forall|j: int| 0 <= j < i ==> self@[j].id@ != id@,
            decreases self@.len() - i,
        {
            if self.questions[i].id == key {
                proof {
                    assert(question_ids(self@)[i as int] == id@);
                    assert(self@[i as int] == self.questions@[i as int]);
                }
                return Ok(&self.questions[i]);
            }
            i = i + 1;
        }
        proof {
            if question_ids(self@).contains(id@) {
                let j = choose|j: int|
                    0 <= j < question_ids(self@).len() && question_ids(self@)[j] == id@;
                assert(self@[j].id@ == id@);
            }
        }
        Err(CatalogError::NotFound)
    }

    /// Whether a question has the given id.
    pub fn contains(&self, id: &str) -> (r: bool)
        ensures
            r == question_ids(self@).contains(id@),
    {
        self.lookup(id).is_ok()
    }
}

} // verus!
