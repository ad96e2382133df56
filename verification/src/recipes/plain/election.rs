//! Joining an election.

use backon::ExponentialBuilder;
use vstd::prelude::*;

use crate::failure::{failure_from, failure_of, Failure};
use crate::recipes::backoff::{
    election_backoff, is_jittered_backoff, jittered_backoff,
    law_tries_end_with_success_or_the_allowance, left_after_tries, left_after_try, promises,
    Attempts,
};
use crate::recipes::exchange::{CreateMode, CreateReply, CreateRequest};
use crate::recipes::plain::candidate::{lists, Candidate, LeadershipState, ObserveError};
use crate::recipes::plain::child::ElectionChild;
use crate::recipes::ranking::views;
use crate::text::{join_path, path_under, starts_with};

verus! {

/// Participate in leader election through this struct
#[derive(Debug)]
pub struct LeaderElection<Z> {
    /// ZNode under which volunteers are registered
    election_node: String,
    zk: Z,
    backon_builder: ExponentialBuilder,
}

/// Access rights by which everyone may do everything.
#[derive(Debug, Clone, Copy, PartialEq, Eq)]
pub struct OpenUnsafe;

/// What the names of all volunteers' nodes begin with.
pub open spec fn name_stem() -> Seq<char> {
    "guid-n_"@
}

impl<Z> LeaderElection<Z> {
    /// The node under which volunteers are registered.
    pub closed spec fn node(self) -> Seq<char> {
        self.election_node@
    }

    pub closed spec fn connection(self) -> Z {
        self.zk
    }

    pub closed spec fn backoff(self) -> ExponentialBuilder {
        self.backon_builder
    }

    #[verifier::type_invariant]
    spec fn has_jittered_backoff(&self) -> bool {
        is_jittered_backoff(self.backon_builder)
    }

    /// Create a new leader election struct
    pub fn new(zk: Z, election_node: &str) -> (election: LeaderElection<Z>)
        ensures
            election.node() == election_node@,
            election.connection() == zk,
            election.backoff() == jittered_backoff(100, 5000, 5),
    {
        LeaderElection {
            election_node: election_node.to_owned(),
            zk,
            backon_builder: election_backoff(),
        }
    }

    /// Volunteers, and gives the request for the volunteer's node.
    pub fn volunteer(self) -> (started: (Volunteer<Z>, CreateRequest<OpenUnsafe>))
        ensures
            started.0.election() == self,
            started.1.path@ == path_under(self.node(), name_stem()),
            started.1.data@ == Seq::<u8>::empty(),
            started.1.mode is EphemeralSequential,
    {
        let request = CreateRequest {
            path: join_path(self.election_node.as_str(), "guid-n_"),
            data: Vec::new(),
            acl: OpenUnsafe,
            mode: CreateMode::EphemeralSequential,
        };
        (Volunteer { election: self }, request)
    }
}

/// A volunteer whose node has been asked for.
#[derive(Debug)]
pub struct Volunteer<Z> {
    election: LeaderElection<Z>,
}

/// A volunteer that has become a participant.
#[derive(Debug)]
pub struct Joined<Z> {
    pub candidate: Candidate<Z>,
    /// The path of the participant's node.
    pub path: String,
    /// The state of the participant before its first round.
    pub state: LeadershipState,
}

/// What follows the answer to the request for a volunteer's node.
#[derive(Debug)]
pub enum Joining<Z> {
    /// The volunteer participates.
    Joined(Joined<Z>),
    /// The volunteer has to look for its node among those listed.
    Search(Volunteer<Z>),
    /// The volunteer does not participate.
    Failed(Failure),
}

/// What follows an answer to a request for the participants, which a volunteer
/// makes to look for its node.
#[derive(Debug)]
pub enum Searching<Z> {
    /// The request is made again, after so many nanoseconds, with these attempts
    /// left.
    Retry(Volunteer<Z>, u128, Attempts),
    /// The search is over: the volunteer participates or not.
    Ended(Result<Joined<Z>, Failure>),
}

impl<Z> Joined<Z> {
    /// The volunteer of the given election participates with the node at `path`.
    pub open spec fn stems_from(self, election: LeaderElection<Z>, path: Seq<char>) -> bool {
        &&& self.candidate.path() == path
        &&& self.candidate.election_node() == election.node()
        &&& self.candidate.connection() == election.connection()
        &&& self.path@ == path
        &&& self.state is Uninitialized
    }
}

/// `children[k]` is the first whose name begins as a volunteer's.
pub open spec fn is_first_volunteer(children: Seq<Seq<char>>, k: int) -> bool {
    &&& 0 <= k < children.len()
    &&& name_stem().is_prefix_of(children[k])
    &&& forall|j: int| 0 <= j < k ==> !name_stem().is_prefix_of(#[trigger] children[j])
}

/// The first of the names that begins as a volunteer's.
pub open spec fn first_volunteer(children: Seq<Seq<char>>) -> Option<Seq<char>> {
    if exists|k: int| is_first_volunteer(children, k) {
        Some(children[choose|k: int| is_first_volunteer(children, k)])
    } else {
        None
    }
}

impl<Z> Volunteer<Z> {
    pub closed spec fn election(&self) -> LeaderElection<Z> {
        self.election
    }

    fn join(self, path: String) -> (joined: Joined<Z>)
        ensures
            joined.stems_from(self.election(), path@),
    {
        Joined {
            candidate: Candidate::new(path.clone(), self.election.election_node, self.election.zk),
            path,
            state: LeadershipState::Uninitialized,
        }
    }

    /// Goes on, with the answer to the request for the volunteer's node.
    pub fn created(self, reply: CreateReply) -> (step: Joining<Z>)
        ensures
            match reply {
                CreateReply::Created(path) => step matches Joining::Joined(joined)
                    && joined.stems_from(self.election(), path@),
                CreateReply::Refused(reason) => step matches Joining::Failed(failure) && failure@
                    == reason@.under("can't create ephemeral node, unrecoverable error"@),
                CreateReply::Lost => step == Joining::Search(self),
            },
    {
        match reply {
            CreateReply::Created(path) => Joining::Joined(self.join(path)),
            CreateReply::Refused(reason) => Joining::Failed(
                reason.under("can't create ephemeral node, unrecoverable error"),
            ),
            CreateReply::Lost => Joining::Search(self),
        }
    }

    /// The outcome of a search that ends with the given participants, or with the
    /// error of the last request for them.
    pub open spec fn finds(
        &self,
        children: Result<Vec<ElectionChild>, ObserveError>,
        outcome: Result<Joined<Z>, Failure>,
    ) -> bool {
        match children {
            Err(error) => outcome matches Err(failure) && failure@ == failure_from(
                "retry failed"@,
                error.in_full(),
            ),
            Ok(children) => match first_volunteer(views(children@)) {
                None => outcome matches Err(failure) && failure@ == failure_of(
                    "can't find my guid"@,
                ),
                Some(name) => outcome matches Ok(joined) && joined.stems_from(
                    self.election(),
                    path_under(self.election().node(), name),
                ),
            },
        }
    }

    /// All the attempts that may follow the first request for the participants.
    pub fn attempts(&self) -> (attempts: Attempts)
        ensures
            promises(self.election().backoff(), attempts.left()),
            attempts.backoff() == self.election().backoff(),
    {
        proof {
            use_type_invariant(&self.election);
        }
        Attempts::start(self.election.backon_builder)
    }

    /// Goes on, with the answer to a request for the participants after an answer
    /// was lost. Whatever the error, the request is made again while attempts are
    /// left, and the first participants that are listed end the search.
    pub fn listed(
        self,
        attempts: Attempts,
        children: Result<Vec<ElectionChild>, ObserveError>,
    ) -> (step: Searching<Z>)
        ensures
            match left_after_try(attempts.left(), children is Ok) {
                Some(left) => step matches Searching::Retry(again, nanos, fewer) && again == self
                    && fewer.left() == left && attempts.used_up(nanos, fewer),
                None => step matches Searching::Ended(outcome) && self.finds(children, outcome),
            },
    {
        match children {
            Ok(children) => Searching::Ended(self.searched(Ok(children))),
            Err(error) => match attempts.use_up() {
                Some((nanos, fewer)) => Searching::Retry(self, nanos, fewer),
                None => Searching::Ended(self.searched(Err(error))),
            },
        }
    }

    /// Goes on, with the participants that are listed after an answer was lost.
    /// The volunteer joins with the first node whose name begins as a volunteer's.
    pub fn searched(self, children: Result<Vec<ElectionChild>, ObserveError>) -> (outcome: Result<
        Joined<Z>,
        Failure,
    >)
        ensures
            self.finds(children, outcome),
    {
        match children {
            Err(error) => Err(
                Failure::from_cause("retry failed".to_owned(), error.write_in_full()),
            ),
            Ok(children) => match find_volunteer(&children) {
                None => Err(Failure::new("can't find my guid")),
                Some(k) => {
                    let path = join_path(
                        self.election.election_node.as_str(),
                        children[k].0.as_str(),
                    );
                    Ok(self.join(path))
                },
            },
        }
    }

    /// The volunteer's connection to the service.
    pub fn zk(&self) -> (zk: &Z)
        ensures
            *zk == self.election().connection(),
    {
        &self.election.zk
    }

    /// The node under which volunteers are registered.
    pub fn election_node(&self) -> (node: &str)
        ensures
            node@ == self.election().node(),
    {
        self.election.election_node.as_str()
    }
}

/// Finds the first node whose name begins as a volunteer's.
fn find_volunteer(children: &Vec<ElectionChild>) -> (found: Option<usize>)
    ensures
        match found {
            Some(k) => k < children.len() && first_volunteer(views(children@)) == Some(
                children@[k as int]@,
            ),
            None => first_volunteer(views(children@)) is None,
        },
{
    let ghost all = views(children@);
    let mut k: usize = 0;
    while k < children.len()
        invariant
            k <= children.len(),
            all == views(children@),
            forall|j: int| 0 <= j < k ==> !name_stem().is_prefix_of(#[trigger] all[j]),
        decreases children.len() - k,
    {
        assert(all[k as int] == children@[k as int]@);
        if starts_with(children[k].0.as_str(), "guid-n_") {
            assert(is_first_volunteer(all, k as int));
            return Some(k);
        }
        k = k + 1;
    }
    None
}

/// A volunteer whose request is met has its node in every listing that holds the
/// node's name, which is the one asked for with the number that the service
/// appended.
pub proof fn law_created_node_is_listed<Z>(
    election: LeaderElection<Z>,
    joined: Joined<Z>,
    number: Seq<char>,
    names: Seq<Seq<char>>,
)
    requires
        joined.stems_from(election, path_under(election.node(), name_stem()) + number),
        names.contains(name_stem() + number),
    ensures
        lists(names, joined.candidate.election_node(), joined.candidate.path()),
{
    let name = name_stem() + number;
    assert(path_under(election.node(), name_stem()) + number =~= path_under(election.node(), name));
    let k = choose|k: int| 0 <= k < names.len() && names[k] == name;
    assert(path_under(election.node(), names[k]) == joined.candidate.path());
}

/// A volunteer whose node was made although the answer was lost finds a
/// volunteer's node, and has it in every listing that holds the node's name, the
/// one that it searched among them.
pub proof fn law_lost_node_is_found_and_listed<Z>(
    election: LeaderElection<Z>,
    searched: Seq<Seq<char>>,
    number: Seq<char>,
)
    requires
        searched.contains(name_stem() + number),
    ensures
        first_volunteer(searched) matches Some(name) && searched.contains(name)
            && name_stem().is_prefix_of(name) && forall|joined: Joined<Z>, names: Seq<Seq<char>>|
            #![trigger joined.candidate, names.contains(name)]
            joined.stems_from(election, path_under(election.node(), name)) && names.contains(name)
                ==> lists(names, joined.candidate.election_node(), joined.candidate.path()),
{
    let made = name_stem() + number;
    assert(made.subrange(0, name_stem().len() as int) =~= name_stem());
    let k = choose|k: int| 0 <= k < searched.len() && searched[k] == made;
    lemma_first_volunteer(searched, k + 1);
    let name = first_volunteer(searched)->0;
    assert(searched.contains(name));
    assert forall|joined: Joined<Z>, names: Seq<Seq<char>>|
        #![trigger joined.candidate, names.contains(name)]
        joined.stems_from(election, path_under(election.node(), name)) && names.contains(
            name,
        ) implies lists(names, joined.candidate.election_node(), joined.candidate.path()) by {
        let j = choose|j: int| 0 <= j < names.len() && names[j] == name;
        assert(path_under(election.node(), names[j]) == joined.candidate.path());
    }
}

/// A volunteer that looks for its node asks for the participants until they are
/// listed, and no more than six times.
pub proof fn law_six_requests_at_most<Z>(election: LeaderElection<Z>, left: nat, tries: Seq<bool>)
    requires
        election.backoff() == jittered_backoff(100, 5000, 5),
        promises(election.backoff(), left),
    ensures
        left_after_tries(left, tries) is Some <==> tries.len() < 6 && !tries.contains(true),
{
    law_tries_end_with_success_or_the_allowance(left, tries);
}

/// A volunteer that tries its search again waits between a tenth of a second and
/// fifteen seconds.
pub proof fn law_delays_are_bounded<Z>(
    election: LeaderElection<Z>,
    attempts: Attempts,
    nanos: u128,
    fewer: Attempts,
)
    requires
        election.backoff() == jittered_backoff(100, 5000, 5),
        attempts.backoff() == election.backoff(),
        attempts.used_up(nanos, fewer),
    ensures
        100_000_000 <= nanos <= 15_000_000_000,
        fewer.backoff() == election.backoff(),
{
}

proof fn lemma_first_volunteer(children: Seq<Seq<char>>, n: int)
    requires
        0 < n <= children.len(),
        name_stem().is_prefix_of(children[n - 1]),
    ensures
        exists|k: int| is_first_volunteer(children, k),
    decreases n,
{
    if exists|j: int| 0 <= j < n - 1 && name_stem().is_prefix_of(#[trigger] children[j]) {
        let j = choose|j: int| 0 <= j < n - 1 && name_stem().is_prefix_of(#[trigger] children[j]);
        lemma_first_volunteer(children, j + 1);
    } else {
        assert(is_first_volunteer(children, n - 1));
    }
}

} // verus!
