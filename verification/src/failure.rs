//! The one kind of failure in this library: a message, and what it came from.

use vstd::prelude::*;

use crate::text::texts;

verus! {

/// What went wrong, in words.
#[derive(Debug)]
pub struct Failure {
    pub message: String,
    /// What the failure came from, the nearest cause first.
    pub causes: Vec<String>,
}

/// What a failure says.
pub struct FailureView {
    pub message: Seq<char>,
    pub causes: Seq<Seq<char>>,
}

impl View for Failure {
    type V = FailureView;

    open spec fn view(&self) -> FailureView {
        FailureView { message: self.message@, causes: texts(self.causes@) }
    }
}

/// A failure without a cause.
pub open spec fn failure_of(message: Seq<char>) -> FailureView {
    FailureView { message, causes: Seq::empty() }
}

/// A failure with one cause.
pub open spec fn failure_from(message: Seq<char>, cause: Seq<char>) -> FailureView {
    FailureView { message, causes: seq![cause] }
}

impl FailureView {
    /// The failure with the given message that came from this one.
    pub open spec fn under(self, message: Seq<char>) -> FailureView {
        FailureView { message, causes: seq![self.message] + self.causes }
    }
}

impl Failure {
    /// A failure with the given message.
    pub fn new(message: &str) -> (failure: Failure)
        ensures
            failure@ == failure_of(message@),
    {
        Failure::saying(message.to_owned())
    }

    /// A failure with the given message.
    pub fn saying(message: String) -> (failure: Failure)
        ensures
            failure@ == failure_of(message@),
    {
        let failure = Failure { message, causes: Vec::new() };
        assert(failure@.causes =~= Seq::empty());
        failure
    }

    /// A failure with the given message and cause.
    pub fn from_cause(message: String, cause: String) -> (failure: Failure)
        ensures
            failure@ == failure_from(message@, cause@),
    {
        let mut causes: Vec<String> = Vec::new();
        causes.push(cause);
        let failure = Failure { message, causes };
        assert(failure@.causes =~= seq![cause@]);
        failure
    }

    /// The failure with the given message that came from this one.
    pub fn under(self, message: &str) -> (failure: Failure)
        ensures
            failure@ == self@.under(message@),
    {
        let mut causes = self.causes;
        let ghost before = causes@;
        causes.insert(0, self.message);
        let failure = Failure { message: message.to_owned(), causes };
        assert(failure@.causes =~= seq![self.message@] + texts(before));
        failure
    }

    /// The message.
    pub fn to_string(&self) -> (message: String)
        ensures
            message@ == self@.message,
    {
        self.message.clone()
    }
}

/// A failure says what it was made to say, and came from what it was made from.
pub proof fn law_failures_say_what_they_are_told(
    message: &str,
    words: String,
    cause: String,
    new: Failure,
    said: Failure,
    caused: Failure,
    failure: Failure,
    told: String,
)
    requires
        call_ensures(Failure::new, (message,), new),
        call_ensures(Failure::saying, (words,), said),
        call_ensures(Failure::from_cause, (words, cause), caused),
        call_ensures(Failure::to_string, (&failure,), told),
    ensures
        new.message@ == message@ && new.causes@.len() == 0,
        said.message@ == words@ && said.causes@.len() == 0,
        caused.message@ == words@,
        caused.causes@.len() == 1 && caused.causes@[0]@ == cause@,
        told@ == failure.message@,
{
    assert(new.causes@.len() == texts(new.causes@).len());
    assert(said.causes@.len() == texts(said.causes@).len());
    assert(caused.causes@.len() == texts(caused.causes@).len());
    assert(caused.causes@[0]@ == texts(caused.causes@)[0]);
}

/// A failure that came from another has that one's message as its nearest cause,
/// and all that one's causes after it.
pub proof fn law_causes_are_kept(cause: Failure, message: &str, failure: Failure)
    requires
        call_ensures(Failure::under, (cause, message), failure),
    ensures
        says_after(failure, message@, cause),
{
    lemma_says_after(failure, message@, cause);
}

/// The failure has this message, and no cause.
pub open spec fn says(failure: Failure, message: Seq<char>) -> bool {
    failure.message@ == message && failure.causes@.len() == 0
}

/// The failure has this message, and this one cause.
pub open spec fn says_for(failure: Failure, message: Seq<char>, cause: Seq<char>) -> bool {
    failure.message@ == message && failure.causes@.len() == 1 && failure.causes@[0]@ == cause
}

/// The failure has this message, and came from another.
pub open spec fn says_after(failure: Failure, message: Seq<char>, cause: Failure) -> bool {
    &&& failure.message@ == message
    &&& failure.causes@.len() == cause.causes@.len() + 1
    &&& failure.causes@[0]@ == cause.message@
    &&& forall|i: int|
        0 <= i < cause.causes@.len() ==> (#[trigger] cause.causes@[i])@ == failure.causes@[i + 1]@
}

/// What a failure holds is what it says.
pub proof fn lemma_says(failure: Failure, message: Seq<char>, cause: Seq<char>)
    ensures
        failure@ == failure_of(message) ==> says(failure, message),
        failure@ == failure_from(message, cause) ==> says_for(failure, message, cause),
{
    let all = texts(failure.causes@);
    assert(all == failure@.causes && all.len() == failure.causes@.len());
    if all.len() > 0 {
        assert(all[0] == failure.causes@[0]@);
    }
}

/// A failure that came from another says so.
pub proof fn lemma_says_after(failure: Failure, message: Seq<char>, cause: Failure)
    requires
        failure@ == cause@.under(message),
    ensures
        says_after(failure, message, cause),
{
    let (all, causes) = (texts(failure.causes@), texts(cause.causes@));
    assert(all == failure@.causes && all.len() == failure.causes@.len());
    assert(causes == cause@.causes && causes.len() == cause.causes@.len());
    assert(all[0] == failure.causes@[0]@);
    assert forall|i: int| 0 <= i < cause.causes@.len() implies (#[trigger] cause.causes@[i])@
        == failure.causes@[i + 1]@ by {
        assert(causes[i] == cause.causes@[i]@);
        assert(all[i + 1] == failure.causes@[i + 1]@);
    }
}

} // verus!
