//! A participant that watches the election: what it does in each round, and
//! when it stops.

use futures::channel::oneshot;
use tokio::sync::watch;
use vstd::prelude::*;

use crate::failure::Failure;
use crate::recipes::exchange::{describe_send_error, WatchedEventType};
use crate::recipes::plain::child::ElectionChild;
use crate::recipes::ranking::{find_just_before, is_first_at, stands_at, views, Place};
use crate::text::{join_path, path_under};

verus! {

/// Represents the current state this node is in
#[derive(Debug, Clone, Copy, PartialEq, Eq)]
pub enum LeadershipState {
    /// This node is a follower
    Follower,
    /// This node is the leader
    Leader,
    /// Leadership participation procedure has not yet started
    Uninitialized,
    /// An error has occured in the leader election procedure
    Error(&'static str),
}

/// What ends an election for a participant.
#[derive(Debug)]
pub enum ObserveError {
    /// The watch will not fire any more.
    Canceled,
    /// The service, or the way to it, failed.
    ZkError(String),
    /// Nobody receives the participant's state.
    SendError(String),
    /// The node of a leader is gone.
    LeaderNodeMissing,
    /// Something happened to the node of a leader.
    LeaderNodeChanged,
    /// Something other than its removal happened to the node ahead.
    FollowerNodeUnexpectedChange(String),
    /// There is no election's node.
    NoParticipants,
}

impl From<Failure> for ObserveError {
    fn from(value: Failure) -> (error: ObserveError) {
        ObserveError::ZkError(value.message)
    }
}

impl vstd::std_specs::convert::FromSpecImpl<Failure> for ObserveError {
    open spec fn obeys_from_spec() -> bool {
        true
    }

    open spec fn from_spec(value: Failure) -> ObserveError {
        ObserveError::ZkError(value.message)
    }
}

impl From<oneshot::Canceled> for ObserveError {
    fn from(_value: oneshot::Canceled) -> (error: ObserveError) {
        ObserveError::Canceled
    }
}

impl vstd::std_specs::convert::FromSpecImpl<oneshot::Canceled> for ObserveError {
    open spec fn obeys_from_spec() -> bool {
        true
    }

    open spec fn from_spec(value: oneshot::Canceled) -> ObserveError {
        ObserveError::Canceled
    }
}

/// A text in quotes, with the characters that cannot stand between them escaped.
pub uninterp spec fn quoted(text: Seq<char>) -> Seq<char>;

/// Quotes a text, by the `Debug` of `str`.
///
/// Trusted: what is written is a function of the text. How characters are
/// escaped is not said.
#[verifier::external_body]
fn quote(text: &str) -> (written: String)
    ensures
        written@ == quoted(text@),
{
    format!("{:?}", text)
}

impl ObserveError {
    /// The error with what it holds.
    pub open spec fn in_full(self) -> Seq<char> {
        match self {
            ObserveError::Canceled => "Canceled"@,
            ObserveError::ZkError(text) => "ZkError("@ + quoted(text@) + ")"@,
            ObserveError::SendError(text) => "SendError("@ + quoted(text@) + ")"@,
            ObserveError::LeaderNodeMissing => "LeaderNodeMissing"@,
            ObserveError::LeaderNodeChanged => "LeaderNodeChanged"@,
            ObserveError::FollowerNodeUnexpectedChange(text) => "FollowerNodeUnexpectedChange("@
                + quoted(text@) + ")"@,
            ObserveError::NoParticipants => "NoParticipants"@,
        }
    }

    /// Writes the error with what it holds.
    pub fn write_in_full(&self) -> (written: String)
        ensures
            written@ == self.in_full(),
    {
        match self {
            ObserveError::Canceled => "Canceled".to_owned(),
            ObserveError::ZkError(text) => "ZkError(".to_owned().concat(
                quote(text.as_str()).as_str(),
            ).concat(")"),
            ObserveError::SendError(text) => "SendError(".to_owned().concat(
                quote(text.as_str()).as_str(),
            ).concat(")"),
            ObserveError::LeaderNodeMissing => "LeaderNodeMissing".to_owned(),
            ObserveError::LeaderNodeChanged => "LeaderNodeChanged".to_owned(),
            ObserveError::FollowerNodeUnexpectedChange(
                text,
            ) => "FollowerNodeUnexpectedChange(".to_owned().concat(
                quote(text.as_str()).as_str(),
            ).concat(")"),
            ObserveError::NoParticipants => "NoParticipants".to_owned(),
        }
    }
}

impl From<watch::error::SendError<LeadershipState>> for ObserveError {
    fn from(value: watch::error::SendError<LeadershipState>) -> (error: ObserveError)
        ensures
            error matches ObserveError::SendError(text) && text@ == "channel closed"@,
    {
        ObserveError::SendError(describe_send_error(&value))
    }
}

impl vstd::std_specs::convert::FromSpecImpl<watch::error::SendError<LeadershipState>> for ObserveError {
    open spec fn obeys_from_spec() -> bool {
        false
    }

    open spec fn from_spec(value: watch::error::SendError<LeadershipState>) -> ObserveError {
        arbitrary()
    }
}

/// What a participant is in one round.
#[derive(Debug, Clone, Copy, PartialEq, Eq)]
pub enum Role {
    Leader,
    Follower,
}

impl Role {
    /// The state that a participant in this role announces.
    pub open spec fn state(self) -> LeadershipState {
        match self {
            Role::Leader => LeadershipState::Leader,
            Role::Follower => LeadershipState::Follower,
        }
    }
}

/// A participant, with its connection to the service.
#[derive(Debug)]
pub struct Candidate<Z> {
    zk: Z,
    path: String,
    election_node: String,
}

/// A round in which the participant knows its role, and has to set a watch on a
/// node and learn whether the node is there.
#[derive(Debug)]
pub struct Checking {
    role: Role,
    path: String,
}

/// A round in which the watch is set, and the participant has to announce its
/// state.
#[derive(Debug)]
pub struct Announcing {
    role: Role,
}

/// A round in which the participant has announced its state, and has to wait
/// for the watch.
#[derive(Debug)]
pub struct Watching {
    role: Role,
}

/// What follows a round.
#[derive(Debug, Clone, Copy, PartialEq, Eq)]
pub enum Verdict {
    /// Another round.
    Continue,
    /// This state, if any, is announced, and no other round follows.
    Stop(Option<LeadershipState>),
}

/// One of the children has the given path.
pub open spec fn lists(
    children: Seq<Seq<char>>,
    election_node: Seq<char>,
    path: Seq<char>,
) -> bool {
    exists|k: int|
        0 <= k < children.len() && path_under(election_node, #[trigger] children[k]) == path
}

/// A participant with the node at `path` opens a round in the given role, and
/// watches the node at `watched`: the first of those that are listed leads and
/// watches its own node, and each other one watches the one right ahead.
pub open spec fn opens_as(
    children: Seq<Seq<char>>,
    election_node: Seq<char>,
    path: Seq<char>,
    role: Role,
    watched: Seq<char>,
) -> bool {
    exists|me: Seq<char>|
        path == #[trigger] path_under(election_node, me) && match role {
            Role::Leader => stands_at(children, me, Place::First) && watched == path,
            Role::Follower => exists|ahead: Seq<char>| #[trigger]
                stands_at(children, me, Place::After(ahead)) && watched == path_under(
                    election_node,
                    ahead,
                ),
        }
}

/// What a participant says of the error that ends its election, if it can say
/// anything.
pub open spec fn error_text(error: ObserveError) -> Option<Seq<char>> {
    match error {
        ObserveError::Canceled => Some("Watch receiver canceled, server disconnected?"@),
        ObserveError::ZkError(_) => Some("ZooKeeper error"@),
        ObserveError::SendError(_) => None,
        ObserveError::LeaderNodeMissing => Some("Leader's znode was missing"@),
        ObserveError::LeaderNodeChanged => Some("Leader's znode has changed"@),
        ObserveError::NoParticipants => Some("No leader election participants"@),
        ObserveError::FollowerNodeUnexpectedChange(_) => Some(
            "Unexpected change to follower ephemeral node"@,
        ),
    }
}

/// After a round that went well another follows. After one that failed the
/// participant says what it can of the error, and stops.
pub open spec fn is_verdict_on(outcome: Result<(), ObserveError>, verdict: Verdict) -> bool {
    match outcome {
        Ok(_) => verdict is Continue,
        Err(error) => match error_text(error) {
            Some(text) => verdict matches Verdict::Stop(Some(LeadershipState::Error(said)))
                && said@ == text,
            None => verdict matches Verdict::Stop(None),
        },
    }
}

impl<Z> Candidate<Z> {
    /// The path of the participant's node.
    pub closed spec fn path(&self) -> Seq<char> {
        self.path@
    }

    /// The election's node.
    pub closed spec fn election_node(&self) -> Seq<char> {
        self.election_node@
    }

    pub closed spec fn connection(&self) -> Z {
        self.zk
    }

    /// A participant with the node at the given path.
    pub fn new(path: String, election_node: String, zk: Z) -> (candidate: Candidate<Z>)
        ensures
            candidate.path() == path@,
            candidate.election_node() == election_node@,
            candidate.connection() == zk,
    {
        Candidate { zk, path, election_node }
    }

    /// The path of a node under the election's node.
    pub fn get_full_path(&self, election_child: &ElectionChild) -> (path: String)
        ensures
            path@ == path_under(self.election_node(), election_child@),
    {
        join_path(self.election_node.as_str(), election_child.0.as_str())
    }

    /// Finds the participant's node among those that are listed.
    pub fn position(&self, children: &Vec<ElectionChild>) -> (found: Option<usize>)
        ensures
            match found {
                Some(k) => {
                    &&& k < children.len()
                    &&& path_under(self.election_node(), children@[k as int]@) == self.path()
                    &&& is_first_at(views(children@), children@[k as int]@, k as int)
                },
                None => !lists(views(children@), self.election_node(), self.path()),
            },
    {
        let ghost all = views(children@);
        let mut k: usize = 0;
        while k < children.len()
            invariant
                k <= children.len(),
                all == views(children@),
                forall|j: int|
                    0 <= j < k ==> path_under(self.election_node(), #[trigger] all[j])
                        != self.path(),
            decreases children.len() - k,
        {
            assert(all[k as int] == children@[k as int]@);
            if self.get_full_path(&children[k]) == self.path {
                return Some(k);
            }
            k = k + 1;
        }
        None
    }

    /// The role of the participant, from the participants that are listed. It is
    /// one of them.
    pub fn observe_once(&self, children: Result<Vec<ElectionChild>, ObserveError>) -> (step: Result<
        Checking,
        ObserveError,
    >)
        requires
            children matches Ok(children) ==> lists(
                views(children@),
                self.election_node(),
                self.path(),
            ),
        ensures
            match children {
                Err(error) => step == Err::<Checking, ObserveError>(error),
                Ok(children) => step matches Ok(checking) && opens_as(
                    views(children@),
                    self.election_node(),
                    self.path(),
                    checking.role(),
                    checking.path(),
                ),
            },
    {
        let children = match children {
            Err(error) => {
                return Err(error);
            },
            Ok(children) => children,
        };
        let ghost all = views(children@);
        let k = self.position(&children).unwrap();
        let ghost me = all[k as int];
        match find_just_before(&children, k) {
            None => {
                assert(stands_at(all, me, Place::First));
                Ok(Checking { role: Role::Leader, path: self.path.clone() })
            },
            Some(p) => {
                let ghost ahead = all[p as int];
                assert(stands_at(all, me, Place::After(ahead)));
                Ok(Checking { role: Role::Follower, path: self.get_full_path(&children[p]) })
            },
        }
    }

    /// What follows a round with the given outcome.
    pub fn observe(&self, outcome: Result<(), ObserveError>) -> (verdict: Verdict)
        ensures
            is_verdict_on(outcome, verdict),
    {
        match outcome {
            Ok(_) => Verdict::Continue,
            Err(error) => Verdict::Stop(
                match error {
                    ObserveError::Canceled => Some(
                        LeadershipState::Error("Watch receiver canceled, server disconnected?"),
                    ),
                    ObserveError::ZkError(_) => Some(LeadershipState::Error("ZooKeeper error")),
                    ObserveError::SendError(_) => None,
                    ObserveError::LeaderNodeMissing => Some(
                        LeadershipState::Error("Leader's znode was missing"),
                    ),
                    ObserveError::LeaderNodeChanged => Some(
                        LeadershipState::Error("Leader's znode has changed"),
                    ),
                    ObserveError::NoParticipants => Some(
                        LeadershipState::Error("No leader election participants"),
                    ),
                    ObserveError::FollowerNodeUnexpectedChange(_) => Some(
                        LeadershipState::Error("Unexpected change to follower ephemeral node"),
                    ),
                },
            ),
        }
    }

    /// The participant's connection to the service.
    pub fn zk(&self) -> (zk: &Z)
        ensures
            *zk == self.connection(),
    {
        &self.zk
    }

    /// The election's node, as a text.
    pub fn election_path(&self) -> (path: &str)
        ensures
            path@ == self.election_node(),
    {
        self.election_node.as_str()
    }
}

/// How a round ends in which `fired` is what happened to the watched node.
pub open spec fn ends_with(role: Role, fired: WatchedEventType, outcome: Result<
    (),
    ObserveError,
>) -> bool {
    match role {
        Role::Leader => outcome matches Err(ObserveError::LeaderNodeChanged),
        Role::Follower => match fired {
            WatchedEventType::NodeDeleted => outcome is Ok,
            _ => outcome matches Err(ObserveError::FollowerNodeUnexpectedChange(name)) && name@
                == fired.name(),
        },
    }
}

impl Checking {
    pub closed spec fn role(&self) -> Role {
        self.role
    }

    /// The path of the node to watch.
    pub closed spec fn path(&self) -> Seq<char> {
        self.path@
    }

    /// The path of the node to watch, as a text.
    pub fn watched_path(&self) -> (path: &str)
        ensures
            path@ == self.path(),
    {
        self.path.as_str()
    }

    /// Goes on, with the service's answer on whether the watched node is there.
    /// A follower whose node ahead is gone has nothing to announce.
    pub fn checked(self, present: Result<bool, Failure>) -> (step: Result<
        Option<Announcing>,
        ObserveError,
    >)
        ensures
            match present {
                Err(failure) => step matches Err(ObserveError::ZkError(text)) && text@
                    == failure@.message,
                Ok(true) => step matches Ok(Some(next)) && next.role() == self.role(),
                Ok(false) => match self.role() {
                    Role::Leader => step matches Err(ObserveError::LeaderNodeMissing),
                    Role::Follower => step matches Ok(None),
                },
            },
    {
        match present {
            Err(failure) => Err(ObserveError::from(failure)),
            Ok(true) => Ok(Some(Announcing { role: self.role })),
            Ok(false) => match self.role {
                Role::Leader => Err(ObserveError::LeaderNodeMissing),
                Role::Follower => Ok(None),
            },
        }
    }
}

impl Announcing {
    pub closed spec fn role(&self) -> Role {
        self.role
    }

    /// The state to announce.
    pub fn state(&self) -> (state: LeadershipState)
        ensures
            state == self.role().state(),
    {
        match self.role {
            Role::Leader => LeadershipState::Leader,
            Role::Follower => LeadershipState::Follower,
        }
    }

    /// Goes on, once it is known whether someone received the state.
    pub fn announced(
        self,
        sent: Result<(), watch::error::SendError<LeadershipState>>,
    ) -> (step: Result<Watching, ObserveError>)
        ensures
            match sent {
                Ok(_) => step matches Ok(next) && next.role() == self.role(),
                Err(_) => step matches Err(ObserveError::SendError(text)) && text@
                    == "channel closed"@,
            },
    {
        match sent {
            Ok(_) => Ok(Watching { role: self.role }),
            Err(error) => Err(ObserveError::from(error)),
        }
    }
}

impl Watching {
    pub closed spec fn role(&self) -> Role {
        self.role
    }

    /// Ends the round, with what happened to the watched node, or with the error
    /// of a watch that was lost.
    pub fn fired(self, event: Result<WatchedEventType, oneshot::Canceled>) -> (outcome: Result<
        (),
        ObserveError,
    >)
        ensures
            match event {
                Err(_) => outcome matches Err(ObserveError::Canceled),
                Ok(event) => ends_with(self.role(), event, outcome),
            },
    {
        match event {
            Err(canceled) => Err(ObserveError::from(canceled)),
            Ok(event) => match self.role {
                Role::Leader => Err(ObserveError::LeaderNodeChanged),
                Role::Follower => match event {
                    WatchedEventType::NodeDeleted => Ok(()),
                    WatchedEventType::Other(_) => Err(
                        ObserveError::FollowerNodeUnexpectedChange(event.to_name()),
                    ),
                },
            },
        }
    }
}

/// All of a round that was opened in the given role: what is announced in it,
/// if anything, and how it ends, where `present`, `delivered` and `event` are
/// what the participant learns as it goes on.
pub open spec fn is_round(
    role: Role,
    present: bool,
    delivered: bool,
    event: Option<WatchedEventType>,
    announced: Option<LeadershipState>,
    outcome: Result<(), ObserveError>,
) -> bool {
    if !present {
        announced is None && match role {
            Role::Leader => outcome matches Err(ObserveError::LeaderNodeMissing),
            Role::Follower => outcome is Ok,
        }
    } else {
        announced == Some(role.state()) && if !delivered {
            outcome matches Err(ObserveError::SendError(_))
        } else {
            match event {
                None => outcome matches Err(ObserveError::Canceled),
                Some(event) => ends_with(role, event, outcome),
            }
        }
    }
}

/// A participant announces that it leads only if it was the first of those
/// listed and its node was there.
pub proof fn law_only_the_first_leads(
    children: Seq<Seq<char>>,
    election_node: Seq<char>,
    me: Seq<char>,
    role: Role,
    watched: Seq<char>,
    present: bool,
    delivered: bool,
    event: Option<WatchedEventType>,
    outcome: Result<(), ObserveError>,
)
    requires
        opens_as(children, election_node, path_under(election_node, me), role, watched),
        is_round(
            role,
            present,
            delivered,
            event,
            Some(LeadershipState::Leader),
            outcome,
        ),
    ensures
        stands_at(children, me, Place::First),
        present,
{
    assert forall|name: Seq<char>| #[trigger]
        path_under(election_node, name) == path_under(election_node, me) implies name == me by {
        let n = election_node.len() as int + 1;
        assert(path_under(election_node, name).skip(n) =~= name);
        assert(path_under(election_node, me).skip(n) =~= me);
    }
}

/// A round goes well exactly for a follower whose node ahead is gone.
pub proof fn law_a_round_goes_well_when_the_node_ahead_is_gone(
    role: Role,
    present: bool,
    delivered: bool,
    event: Option<WatchedEventType>,
    announced: Option<LeadershipState>,
    outcome: Result<(), ObserveError>,
)
    requires
        is_round(role, present, delivered, event, announced, outcome),
    ensures
        outcome is Ok <==> role is Follower && (!present || (delivered && event == Some(
            WatchedEventType::NodeDeleted,
        ))),
{
}

/// Leadership ends the election for the participant: a round in which it leads
/// is the last one.
pub proof fn law_leading_is_the_last_round(
    present: bool,
    delivered: bool,
    event: Option<WatchedEventType>,
    announced: Option<LeadershipState>,
    outcome: Result<(), ObserveError>,
    verdict: Verdict,
)
    requires
        is_round(Role::Leader, present, delivered, event, announced, outcome),
        is_verdict_on(outcome, verdict),
    ensures
        verdict is Stop,
{
}

/// A participant stops silently exactly if nobody receives its states.
pub proof fn law_every_error_is_announced_while_someone_listens(
    error: ObserveError,
    verdict: Verdict,
)
    requires
        is_verdict_on(Err(error), verdict),
    ensures
        verdict is Stop,
        verdict == Verdict::Stop(None) <==> error is SendError,
{
}

/// One attempt at a round: what is announced in it, how it ends, and what
/// follows.
pub struct Attempt {
    pub announced: Option<LeadershipState>,
    pub outcome: Result<(), ObserveError>,
    pub verdict: Verdict,
}

impl Attempt {
    /// The attempt failed before anything was announced, or was a round in some
    /// role, and the participant went by its outcome.
    pub open spec fn can_happen(self) -> bool {
        &&& is_verdict_on(self.outcome, self.verdict)
        &&& (self.announced is None && self.outcome is Err) || exists|
            role: Role,
            present: bool,
            delivered: bool,
            event: Option<WatchedEventType>,
        | #[trigger]
            is_round(role, present, delivered, event, self.announced, self.outcome)
    }

    /// The states that are announced in the attempt and after it.
    pub open spec fn states(self) -> Seq<LeadershipState> {
        let told = match self.announced {
            Some(state) => seq![state],
            None => Seq::empty(),
        };
        match self.verdict {
            Verdict::Stop(Some(state)) => told.push(state),
            _ => told,
        }
    }
}

/// The states that are announced over the given attempts.
pub open spec fn states_announced(attempts: Seq<Attempt>) -> Seq<LeadershipState>
    decreases attempts.len(),
{
    if attempts.len() == 0 {
        Seq::empty()
    } else {
        states_announced(attempts.drop_last()) + attempts.last().states()
    }
}

/// The attempts of one election: each but the last is followed by another.
pub open spec fn is_run(attempts: Seq<Attempt>) -> bool {
    forall|i: int|
        0 <= i < attempts.len() ==> (#[trigger] attempts[i]).can_happen() && (i < attempts.len() - 1
            ==> attempts[i].verdict is Continue)
}

/// Over a whole election a participant announces that it follows any number of
/// times, then at most once that it leads, then at most once an error, with which
/// it stops.
pub proof fn law_states_come_in_order(attempts: Seq<Attempt>)
    requires
        is_run(attempts),
    ensures
        ({
            let states = states_announced(attempts);
            &&& forall|i: int|
                0 <= i < states.len() ==> !((#[trigger] states[i]) is Uninitialized)
            &&& forall|i: int, j: int|
                0 <= i < j < states.len() ==> match #[trigger] states[i] {
                    LeadershipState::Follower => true,
                    LeadershipState::Leader => (#[trigger] states[j]) is Error,
                    _ => false,
                }
            &&& attempts.len() > 0 && attempts.last().verdict is Continue ==> forall|i: int|
                0 <= i < states.len() ==> (#[trigger] states[i]) is Follower
            &&& attempts.len() > 0 && attempts.last().verdict matches Verdict::Stop(Some(_))
                <==> states.len() > 0 && states.last() is Error
        }),
    decreases attempts.len(),
{
    if attempts.len() > 0 {
        let before = attempts.drop_last();
        assert forall|i: int| 0 <= i < before.len() implies (#[trigger] before[i]).can_happen() && (
        i < before.len() - 1 ==> before[i].verdict is Continue) by {
            assert(attempts[i].can_happen());
        }
        law_states_come_in_order(before);
        if before.len() > 0 {
            assert(attempts[before.len() - 1].verdict is Continue);
        }
        assert(attempts[attempts.len() - 1].can_happen());
    }
}

} // verus!
