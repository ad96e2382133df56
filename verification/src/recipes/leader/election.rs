//! Joining an election.

use backon::ExponentialBuilder;
use vstd::prelude::*;

use crate::failure::{failure_of, Failure, FailureView};
use crate::guid::{
    guid_text, is_random_guid, law_guid_text_is_read_back, lemma_guid_text_holds_no_separator,
    random_guid, write_guid,
};
use crate::recipes::backoff::{
    election_backoff, is_jittered_backoff, jittered_backoff,
    law_tries_end_with_success_or_the_allowance, left_after_tries, left_after_try, promises,
    Attempts,
};
use crate::recipes::exchange::{CreateMode, CreateReply, CreateRequest};
use crate::recipes::leader::candidate::{Candidate, LeadershipState};
use crate::recipes::leader::child::{
    child_from_full_path, law_full_path_is_read_back, law_listed_participant_is_found,
    law_participants_are_the_readable_names, participants, ElectionChild, ElectionChildView,
};
use crate::recipes::ranking::views;
use crate::text::{
    all_digits, decimal_value, is_digit, join_path, lemma_split_joined, path_under, separator,
    separator_at,
};

verus! {

/// Participate in leader election through this struct
#[derive(Debug)]
pub struct LeaderElection<Z, A: 'static> {
    /// ZNode under which volunteers are registered
    election_prefix: String,
    zk: Z,
    backon_builder: ExponentialBuilder,
    acl: &'static [A],
}

impl<Z, A> LeaderElection<Z, A> {
    /// The node under which volunteers are registered.
    pub closed spec fn prefix(self) -> Seq<char> {
        self.election_prefix@
    }

    pub closed spec fn connection(self) -> Z {
        self.zk
    }

    pub closed spec fn backoff(self) -> ExponentialBuilder {
        self.backon_builder
    }

    /// The access rights of the volunteers' nodes.
    pub closed spec fn rights(self) -> &'static [A] {
        self.acl
    }

    #[verifier::type_invariant]
    spec fn has_jittered_backoff(&self) -> bool {
        is_jittered_backoff(self.backon_builder)
    }

    /// Create a new leader election struct
    pub fn new(zk: Z, election_node: &str, acl: &'static [A]) -> (election: LeaderElection<Z, A>)
        ensures
            election.prefix() == election_node@,
            election.connection() == zk,
            election.rights() == acl,
            election.backoff() == jittered_backoff(100, 5000, 5),
    {
        LeaderElection {
            election_prefix: election_node.to_owned(),
            zk,
            backon_builder: election_backoff(),
            acl,
        }
    }

    /// Volunteers under a fresh identifier, and gives the request for the
    /// volunteer's node.
    pub fn volunteer(self) -> (started: (Volunteer<Z, A>, CreateRequest<&'static [A]>))
        ensures
            started.0.election() == self,
            is_random_guid(started.0.guid()),
            asks_for_node(started.1, self, started.0.guid()),
    {
        let guid = random_guid();
        self.volunteer_as(guid)
    }

    /// Volunteers under the given identifier, and gives the request for the
    /// volunteer's node.
    pub fn volunteer_as(self, guid: u128) -> (started: (
        Volunteer<Z, A>,
        CreateRequest<&'static [A]>,
    ))
        ensures
            started.0.election() == self,
            started.0.guid() == guid,
            asks_for_node(started.1, self, guid),
    {
        let name = write_guid(guid).concat("-n_");
        proof {
            reveal_strlit("-n_");
            assert("-n_"@ =~= separator());
        }
        let request = CreateRequest {
            path: join_path(self.election_prefix.as_str(), name.as_str()),
            data: Vec::new(),
            acl: self.acl,
            mode: CreateMode::EphemeralSequential,
        };
        (Volunteer { election: self, guid }, request)
    }
}

/// The path of a volunteer's node, before the service appends a sequence number.
pub open spec fn requested_path(prefix: Seq<char>, guid: u128) -> Seq<char> {
    path_under(prefix, guid_text(guid) + separator())
}

/// The request is for an empty node of the volunteer with the given identifier,
/// to go with the connection and to get a sequence number.
pub open spec fn asks_for_node<Z, A>(
    request: CreateRequest<&'static [A]>,
    election: LeaderElection<Z, A>,
    guid: u128,
) -> bool {
    &&& request.path@ == requested_path(election.prefix(), guid)
    &&& request.data@ == Seq::<u8>::empty()
    &&& request.acl == election.rights()
    &&& request.mode is EphemeralSequential
}

/// A volunteer whose node has been asked for.
#[derive(Debug)]
pub struct Volunteer<Z, A: 'static> {
    election: LeaderElection<Z, A>,
    guid: u128,
}

/// A volunteer that has become a participant.
#[derive(Debug)]
pub struct Joined<Z> {
    pub candidate: Candidate<Z>,
    /// The path of the participant's node.
    pub path: String,
    /// The state of the participant before its first round.
    pub state: LeadershipState,
}

/// What follows the answer to the request for a volunteer's node.
#[derive(Debug)]
pub enum Joining<Z, A: 'static> {
    /// The volunteer participates.
    Joined(Joined<Z>),
    /// The volunteer has to look for its node among those listed.
    Search(Volunteer<Z, A>),
    /// The volunteer does not participate.
    Failed(Failure),
}

/// What follows an answer to a request for the participants, which a volunteer
/// makes to look for its node.
#[derive(Debug)]
pub enum Searching<Z, A: 'static> {
    /// The request is made again, after so many nanoseconds, with these attempts
    /// left.
    Retry(Volunteer<Z, A>, u128, Attempts),
    /// The search is over: the volunteer participates or not.
    Ended(Result<Joined<Z>, Failure>),
}

/// The node of a participant at the given path.
pub open spec fn joined_node(prefix: Seq<char>, path: Seq<char>) -> Result<
    ElectionChildView,
    FailureView,
> {
    match child_from_full_path(path, prefix) {
        Ok(node) => Ok(node),
        Err(cause) => Err(cause.under("wrong format of the election child node"@)),
    }
}

/// `children[k]` is the first that carries the identifier.
pub open spec fn is_first_with_guid(children: Seq<ElectionChildView>, guid: u128, k: int) -> bool {
    &&& 0 <= k < children.len()
    &&& children[k].guid == guid
    &&& forall|j: int| 0 <= j < k ==> (#[trigger] children[j]).guid != guid
}

/// The first of the children that carries the identifier.
pub open spec fn first_with_guid(children: Seq<ElectionChildView>, guid: u128) -> Option<
    ElectionChildView,
> {
    if exists|k: int| is_first_with_guid(children, guid, k) {
        Some(children[choose|k: int| is_first_with_guid(children, guid, k)])
    } else {
        None
    }
}

impl<Z> Joined<Z> {
    /// The volunteer of the given election participates with the given node.
    pub open spec fn stems_from<A>(
        self,
        election: LeaderElection<Z, A>,
        node: ElectionChildView,
        path: Seq<char>,
    ) -> bool {
        &&& self.candidate.node() == node
        &&& self.candidate.connection() == election.connection()
        &&& self.candidate.backoff() == election.backoff()
        &&& self.path@ == path
        &&& self.state is Uninitialized
    }
}

impl<Z, A> Volunteer<Z, A> {
    pub closed spec fn election(&self) -> LeaderElection<Z, A> {
        self.election
    }

    pub closed spec fn guid(&self) -> u128 {
        self.guid
    }

    /// The outcome of joining with the node at `path`.
    pub open spec fn joins_at(&self, path: Seq<char>, outcome: Result<Joined<Z>, Failure>) -> bool {
        match joined_node(self.election().prefix(), path) {
            Ok(node) => outcome matches Ok(joined) && joined.stems_from(
                self.election(),
                node,
                path,
            ),
            Err(said) => outcome matches Err(failure) && failure@ == said,
        }
    }

    fn join(self, path: String) -> (outcome: Result<Joined<Z>, Failure>)
        ensures
            self.joins_at(path@, outcome),
    {
        proof {
            use_type_invariant(&self.election);
        }
        match ElectionChild::try_from_full_path(
            path.as_str(),
            self.election.election_prefix.as_str(),
        ) {
            Ok(node) => Ok(
                Joined {
                    candidate: Candidate::new(
                        node,
                        self.election.zk,
                        self.election.backon_builder,
                    ),
                    path,
                    state: LeadershipState::Uninitialized,
                },
            ),
            Err(cause) => Err(cause.under("wrong format of the election child node")),
        }
    }

    /// Goes on, with the answer to the request for the volunteer's node.
    pub fn created(self, reply: CreateReply) -> (step: Joining<Z, A>)
        ensures
            match reply {
                CreateReply::Created(path) => match step {
                    Joining::Joined(joined) => self.joins_at(path@, Ok(joined)),
                    Joining::Failed(failure) => self.joins_at(path@, Err(failure)),
                    Joining::Search(_) => false,
                },
                CreateReply::Refused(reason) => step matches Joining::Failed(failure) && failure@
                    == reason@.under("can't create ephemeral node, unrecoverable error"@),
                CreateReply::Lost => step == Joining::Search(self),
            },
    {
        match reply {
            CreateReply::Created(path) => match self.join(path) {
                Ok(joined) => Joining::Joined(joined),
                Err(failure) => Joining::Failed(failure),
            },
            CreateReply::Refused(reason) => Joining::Failed(
                reason.under("can't create ephemeral node, unrecoverable error"),
            ),
            CreateReply::Lost => Joining::Search(self),
        }
    }

    /// The outcome of a search that ends with the given participants, or with the
    /// error of the last request for them.
    pub open spec fn finds(
        &self,
        children: Result<Vec<ElectionChild>, Failure>,
        outcome: Result<Joined<Z>, Failure>,
    ) -> bool {
        match children {
            Err(cause) => outcome matches Err(failure) && failure@ == cause@.under(
                "can't get leader election nodes, retry failed"@,
            ),
            Ok(children) => match first_with_guid(views(children@), self.guid()) {
                None => outcome matches Err(failure) && failure@ == failure_of(
                    "can't find a znode with my guid"@,
                ),
                Some(child) => self.joins_at(child.full_path(), outcome),
            },
        }
    }

    /// All the attempts that may follow the first request for the participants.
    pub fn attempts(&self) -> (attempts: Attempts)
        ensures
            promises(self.election().backoff(), attempts.left()),
            attempts.backoff() == self.election().backoff(),
    {
        proof {
            use_type_invariant(&self.election);
        }
        Attempts::start(self.election.backon_builder)
    }

    /// Goes on, with the answer to a request for the participants after an answer
    /// was lost. Whatever the error, the request is made again while attempts are
    /// left, and the first participants that are listed end the search.
    pub fn listed(
        self,
        attempts: Attempts,
        children: Result<Vec<ElectionChild>, Failure>,
    ) -> (step: Searching<Z, A>)
        ensures
            match left_after_try(attempts.left(), children is Ok) {
                Some(left) => step matches Searching::Retry(again, nanos, fewer) && again == self
                    && fewer.left() == left && attempts.used_up(nanos, fewer),
                None => step matches Searching::Ended(outcome) && self.finds(children, outcome),
            },
    {
        match children {
            Ok(children) => Searching::Ended(self.searched(Ok(children))),
            Err(error) => match attempts.use_up() {
                Some((nanos, fewer)) => Searching::Retry(self, nanos, fewer),
                None => Searching::Ended(self.searched(Err(error))),
            },
        }
    }

    /// Goes on, with the participants that are listed after an answer was lost.
    pub fn searched(self, children: Result<Vec<ElectionChild>, Failure>) -> (outcome: Result<
        Joined<Z>,
        Failure,
    >)
        ensures
            self.finds(children, outcome),
    {
        match children {
            Err(cause) => Err(cause.under("can't get leader election nodes, retry failed")),
            Ok(children) => match self.find(&children) {
                None => Err(Failure::new("can't find a znode with my guid")),
                Some(k) => {
                    let path = children[k].full_path();
                    self.join(path)
                },
            },
        }
    }

    /// Finds the first child that carries the volunteer's identifier.
    fn find(&self, children: &Vec<ElectionChild>) -> (found: Option<usize>)
        ensures
            match found {
                Some(k) => k < children.len() && first_with_guid(views(children@), self.guid())
                    == Some(children@[k as int]@),
                None => first_with_guid(views(children@), self.guid()) is None,
            },
    {
        let ghost all = views(children@);
        let mut k: usize = 0;
        while k < children.len()
            invariant
                k <= children.len(),
                all == views(children@),
                forall|j: int| 0 <= j < k ==> (#[trigger] all[j]).guid != self.guid(),
            decreases children.len() - k,
        {
            assert(all[k as int] == children@[k as int]@);
            if children[k].guid == self.guid {
                assert(is_first_with_guid(all, self.guid(), k as int));
                return Some(k);
            }
            k = k + 1;
        }
        None
    }

    /// The volunteer's connection to the service.
    pub fn zk(&self) -> (zk: &Z)
        ensures
            *zk == self.election().connection(),
    {
        &self.election.zk
    }

    /// The node under which volunteers are registered.
    pub fn election_prefix(&self) -> (prefix: &str)
        ensures
            prefix@ == self.election().prefix(),
    {
        self.election.election_prefix.as_str()
    }
}

/// The node of the volunteer with the given identifier, once the service has
/// appended the given sequence number to its name.
pub open spec fn numbered_node(prefix: Seq<char>, guid: u128, digits: Seq<char>) -> ElectionChildView {
    ElectionChildView {
        election_prefix: prefix,
        path: guid_text(guid) + separator() + digits,
        guid,
        seq: decimal_value(digits) as u32,
    }
}

/// `digits` is a sequence number that the service can append.
pub open spec fn is_sequence_number(digits: Seq<char>) -> bool {
    digits.len() > 0 && all_digits(digits) && decimal_value(digits) <= u32::MAX
}

proof fn lemma_numbered_node_is_well_formed(prefix: Seq<char>, guid: u128, digits: Seq<char>)
    requires
        is_sequence_number(digits),
    ensures
        numbered_node(prefix, guid, digits).well_formed(),
{
    lemma_guid_text_holds_no_separator(guid);
    assert forall|i: int| !separator_at(digits, i) by {
        if separator_at(digits, i) {
            assert(is_digit(digits[i]));
        }
    }
    lemma_split_joined(guid_text(guid), digits);
    law_guid_text_is_read_back(guid);
    assert(is_digit(digits[0]));
}

/// A volunteer whose request is met joins with the node that it asked for: with
/// its own identifier, and with the number that the service appended.
pub proof fn law_created_node_is_the_volunteers(prefix: Seq<char>, guid: u128, digits: Seq<char>)
    requires
        is_sequence_number(digits),
    ensures
        joined_node(prefix, requested_path(prefix, guid) + digits) == Ok::<
            ElectionChildView,
            FailureView,
        >(numbered_node(prefix, guid, digits)),
{
    let node = numbered_node(prefix, guid, digits);
    lemma_numbered_node_is_well_formed(prefix, guid, digits);
    law_full_path_is_read_back(node);
    assert(requested_path(prefix, guid) + digits =~= node.full_path());
}

/// A volunteer whose node was made although the answer was lost finds its node
/// among those listed, and joins with one that carries its identifier: with the
/// very node, where no other one carries that identifier.
pub proof fn law_lost_node_is_found(
    prefix: Seq<char>,
    guid: u128,
    digits: Seq<char>,
    names: Seq<Seq<char>>,
)
    requires
        is_sequence_number(digits),
        names.contains(numbered_node(prefix, guid, digits).path),
    ensures
        ({
            let children = participants(prefix, names);
            let node = numbered_node(prefix, guid, digits);
            &&& first_with_guid(children, guid) matches Some(child) && child.guid == guid
                && joined_node(prefix, child.full_path()) == Ok::<ElectionChildView, FailureView>(
                child,
            )
            &&& (forall|child: ElectionChildView| #[trigger]
                children.contains(child) && child.guid == guid ==> child == node)
                ==> first_with_guid(children, guid) == Some(node)
        }),
{
    let children = participants(prefix, names);
    let node = numbered_node(prefix, guid, digits);
    lemma_numbered_node_is_well_formed(prefix, guid, digits);
    law_listed_participant_is_found(node, names);
    let k = choose|k: int| 0 <= k < children.len() && children[k] == node;
    lemma_first_with_guid(children, guid, k + 1);
    let child = first_with_guid(children, guid)->0;
    assert(children.contains(child));
    law_participants_are_the_readable_names(prefix, names, child);
    law_full_path_is_read_back(child);
}

/// A volunteer whose identifier no participant carries does not join.
pub proof fn law_unmade_node_is_not_found(children: Seq<ElectionChildView>, guid: u128)
    requires
        forall|child: ElectionChildView| #[trigger] children.contains(child) ==> child.guid != guid,
    ensures
        first_with_guid(children, guid) is None,
{
    assert forall|k: int| !is_first_with_guid(children, guid, k) by {
        if is_first_with_guid(children, guid, k) {
            assert(children.contains(children[k]));
        }
    }
}

/// A participant of an election has five attempts to spare at each round.
pub proof fn law_five_attempts_to_spare<Z, A>(election: LeaderElection<Z, A>, left: nat)
    requires
        election.backoff() == jittered_backoff(100, 5000, 5),
        promises(election.backoff(), left),
    ensures
        left == 5,
{
}

/// Whoever tries something again in an election, a participant its round or a
/// volunteer its search, waits between a tenth of a second and fifteen seconds.
pub proof fn law_delays_are_bounded<Z, A>(
    election: LeaderElection<Z, A>,
    attempts: Attempts,
    nanos: u128,
    fewer: Attempts,
)
    requires
        election.backoff() == jittered_backoff(100, 5000, 5),
        attempts.backoff() == election.backoff(),
        attempts.used_up(nanos, fewer),
    ensures
        100_000_000 <= nanos <= 15_000_000_000,
        fewer.backoff() == election.backoff(),
{
}

/// A volunteer that looks for its node asks for the participants until they are
/// listed, and no more than six times.
pub proof fn law_six_requests_at_most<Z, A>(election: LeaderElection<Z, A>, left: nat, tries: Seq<bool>)
    requires
        election.backoff() == jittered_backoff(100, 5000, 5),
        promises(election.backoff(), left),
    ensures
        left_after_tries(left, tries) is Some <==> tries.len() < 6 && !tries.contains(true),
{
    law_tries_end_with_success_or_the_allowance(left, tries);
}

proof fn lemma_first_with_guid(children: Seq<ElectionChildView>, guid: u128, n: int)
    requires
        0 < n <= children.len(),
        children[n - 1].guid == guid,
    ensures
        exists|k: int| is_first_with_guid(children, guid, k),
    decreases n,
{
    if exists|j: int| 0 <= j < n - 1 && (#[trigger] children[j]).guid == guid {
        let j = choose|j: int| 0 <= j < n - 1 && (#[trigger] children[j]).guid == guid;
        lemma_first_with_guid(children, guid, j + 1);
    } else {
        assert(is_first_with_guid(children, guid, n - 1));
    }
}

} // verus!
