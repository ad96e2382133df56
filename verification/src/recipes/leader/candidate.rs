//! A participant that watches the election: what it does in each round, and
//! when it stops.

use backon::ExponentialBuilder;
use futures::channel::oneshot;
use tokio::sync::watch;
use vstd::prelude::*;

use crate::failure::{failure_from, failure_of, Failure, FailureView};
use crate::recipes::backoff::{is_jittered_backoff, promises, Attempts};
use crate::recipes::exchange::{describe_canceled, describe_send_error, WatchedEventType};
use crate::recipes::leader::child::{ElectionChild, ElectionChildView};
use crate::recipes::ranking::{find_just_before, is_first_at, stands_at, views, Place};

verus! {

pub const CANT_SEND_ERROR_MSG: &'static str = "Can't send leadership state update";

pub const RX_CANCELLED_ERROR_MSG: &'static str = "Watch receiver canceled, server disconnected?";

pub const ZNODE_NOT_FOUND_ERROR_MSG: &'static str =
    "The ephemeral znode of the participant was not found";

/// Represents the current state this node is in
#[derive(Debug, Clone, Copy, PartialEq, Eq)]
pub enum LeadershipState {
    /// This node is a follower
    Follower,
    /// This node is the leader
    Leader,
    /// Leadership participation procedure has not yet started
    Uninitialized,
    /// An error has occured in the leader election procedure
    Error,
}

/// What a participant is in one round.
#[derive(Debug, Clone, Copy, PartialEq, Eq)]
pub enum Role {
    Leader,
    Follower,
}

impl Role {
    /// The state that a participant in this role announces.
    pub open spec fn state(self) -> LeadershipState {
        match self {
            Role::Leader => LeadershipState::Leader,
            Role::Follower => LeadershipState::Follower,
        }
    }
}

/// A participant, with its connection to the service.
#[derive(Debug)]
pub struct Candidate<Z> {
    zk: Z,
    node: ElectionChild,
    backon_builder: ExponentialBuilder,
}

/// A round in which the participant knows its role, and has to set a watch on a
/// node and learn whether the node is there.
#[derive(Debug)]
pub struct Checking {
    role: Role,
    path: String,
}

/// A round in which the watch is set, and the participant has to announce its
/// state.
#[derive(Debug)]
pub struct Announcing {
    role: Role,
}

/// A round in which the participant has announced its state, and has to wait
/// for the watch.
#[derive(Debug)]
pub struct Watching {
    role: Role,
}

/// What follows a round.
#[derive(Debug)]
pub enum Verdict {
    /// Another round, with these attempts.
    Continue(Attempts),
    /// The same round again, after so many nanoseconds, with these attempts left.
    Retry(u128, Attempts),
    /// This state is announced, and no other round follows.
    Stop(LeadershipState),
}

impl<Z> Candidate<Z> {
    /// The participant's node.
    pub closed spec fn node(&self) -> ElectionChildView {
        self.node@
    }

    pub closed spec fn connection(&self) -> Z {
        self.zk
    }

    pub closed spec fn backoff(&self) -> ExponentialBuilder {
        self.backon_builder
    }

    #[verifier::type_invariant]
    spec fn has_jittered_backoff(&self) -> bool {
        is_jittered_backoff(self.backon_builder)
    }

    /// A participant with the given node.
    pub(crate) fn new(node: ElectionChild, zk: Z, backon_builder: ExponentialBuilder) -> (candidate:
        Candidate<Z>)
        requires
            is_jittered_backoff(backon_builder),
        ensures
            candidate.node() == node@,
            candidate.connection() == zk,
            candidate.backoff() == backon_builder,
    {
        Candidate { zk, node, backon_builder }
    }

    /// The role of the participant, from the participants that are listed.
    pub fn observe_once(&self, children: Result<Vec<ElectionChild>, Failure>) -> (step: Result<
        Checking,
        Failure,
    >)
        ensures
            match children {
                Err(failure) => step == Err::<Checking, Failure>(failure),
                Ok(children) => match step {
                    Ok(checking) => opens_as(
                        views(children@),
                        self.node(),
                        checking.role(),
                        checking.path(),
                    ),
                    Err(failure) => {
                        &&& stands_at(views(children@), self.node(), Place::Unlisted)
                        &&& failure@ == failure_of(ZNODE_NOT_FOUND_ERROR_MSG@)
                    },
                },
            },
            children matches Ok(children) ==> (step is Ok <==> views(children@).contains(self.node())),
    {
        let children = match children {
            Err(failure) => {
                return Err(failure);
            },
            Ok(children) => children,
        };
        match self.position(&children) {
            None => Err(Failure::new(ZNODE_NOT_FOUND_ERROR_MSG)),
            Some(k) => match find_just_before(&children, k) {
                None => Ok(Checking { role: Role::Leader, path: self.node.full_path() }),
                Some(p) => {
                    let ghost ahead = views(children@)[p as int];
                    assert(stands_at(views(children@), self.node(), Place::After(ahead)));
                    Ok(Checking { role: Role::Follower, path: children[p].full_path() })
                },
            },
        }
    }

    /// Finds the participant's node among those that are listed.
    fn position(&self, children: &Vec<ElectionChild>) -> (found: Option<usize>)
        ensures
            match found {
                Some(k) => is_first_at(views(children@), self.node(), k as int),
                None => stands_at(views(children@), self.node(), Place::Unlisted),
            },
    {
        let ghost all = views(children@);
        let mut k: usize = 0;
        while k < children.len()
            invariant
                k <= children.len(),
                all == views(children@),
                forall|j: int| 0 <= j < k ==> all[j] != self.node(),
            decreases children.len() - k,
        {
            if children[k] == self.node {
                return Some(k);
            }
            k = k + 1;
        }
        None
    }

    /// A full allowance of attempts.
    pub fn attempts(&self) -> (attempts: Attempts)
        ensures
            promises(self.backoff(), attempts.left()),
            attempts.backoff() == self.backoff(),
    {
        proof {
            use_type_invariant(self);
        }
        Attempts::start(self.backon_builder)
    }

    /// What follows a round with the given outcome. One that went well restores
    /// the full allowance of attempts, and one that failed may use up one.
    pub fn observe(&self, attempts: Attempts, outcome: Result<(), Failure>) -> (verdict: Verdict)
        ensures
            match outcome {
                Ok(_) => verdict matches Verdict::Continue(fresh) && promises(
                    self.backoff(),
                    fresh.left(),
                ) && fresh.backoff() == self.backoff(),
                Err(failure) => match left_after_failure(attempts.left(), failure@) {
                    Some(left) => verdict matches Verdict::Retry(nanos, fewer) && fewer.left()
                        == left && attempts.used_up(nanos, fewer),
                    None => verdict == Verdict::Stop(LeadershipState::Error),
                },
            },
    {
        match outcome {
            Ok(_) => Verdict::Continue(self.attempts()),
            Err(failure) => {
                if is_retryable(&failure) {
                    match attempts.use_up() {
                        Some((nanos, fewer)) => Verdict::Retry(nanos, fewer),
                        None => Verdict::Stop(LeadershipState::Error),
                    }
                } else {
                    Verdict::Stop(LeadershipState::Error)
                }
            },
        }
    }

    /// The participant's connection to the service.
    pub fn zk(&self) -> (zk: &Z)
        ensures
            *zk == self.connection(),
    {
        &self.zk
    }

    /// The election's node.
    pub fn election_prefix(&self) -> (prefix: &str)
        ensures
            prefix@ == self.node().election_prefix,
    {
        self.node.election_prefix.as_str()
    }
}

/// A round that failed is tried again if the participant's node was not listed.
pub fn is_retryable(failure: &Failure) -> (yes: bool)
    ensures
        yes == (failure@.message == ZNODE_NOT_FOUND_ERROR_MSG@),
{
    failure.message == ZNODE_NOT_FOUND_ERROR_MSG.to_owned()
}

/// How many attempts are left after a failure that is tried again. A participant
/// that does not try again announces an error and stops.
pub open spec fn left_after_failure(left: nat, failure: FailureView) -> Option<nat> {
    if failure.message == ZNODE_NOT_FOUND_ERROR_MSG@ && left > 0 {
        Some((left - 1) as nat)
    } else {
        None
    }
}

/// A participant with the node `me` opens a round in the given role, and watches
/// the node at `path`: the first of those that are listed leads and watches its
/// own node, and each other one watches the one right ahead.
pub open spec fn opens_as(
    children: Seq<ElectionChildView>,
    me: ElectionChildView,
    role: Role,
    path: Seq<char>,
) -> bool {
    match role {
        Role::Leader => stands_at(children, me, Place::First) && path == me.full_path(),
        Role::Follower => exists|ahead: ElectionChildView| #[trigger]
            stands_at(children, me, Place::After(ahead)) && path == ahead.full_path(),
    }
}

/// What follows once the participant knows whether the watched node is there:
/// it announces its state, or the round is over, or it fails.
pub open spec fn after_check(role: Role, present: bool) -> Result<bool, FailureView> {
    if present {
        Ok(true)
    } else {
        match role {
            Role::Leader => Err(failure_of("Leader's znode was missing"@)),
            Role::Follower => Ok(false),
        }
    }
}

/// What follows an attempt to announce the state.
pub open spec fn after_announcement(delivered: bool) -> Result<(), FailureView> {
    if delivered {
        Ok(())
    } else {
        Err(failure_from(CANT_SEND_ERROR_MSG@, "channel closed"@))
    }
}

/// What happened to the watched node, if the watch was not lost.
pub open spec fn fired_event(fired: Result<WatchedEventType, oneshot::Canceled>) -> Option<
    WatchedEventType,
> {
    match fired {
        Ok(event) => Some(event),
        Err(_) => None,
    }
}

/// How a round ends once the watch has fired, or will not fire any more.
pub open spec fn after_watch(role: Role, event: Option<WatchedEventType>) -> Result<
    (),
    FailureView,
> {
    match event {
        None => Err(failure_from(RX_CANCELLED_ERROR_MSG@, "oneshot canceled"@)),
        Some(event) => match role {
            Role::Leader => Err(
                failure_of("Unexpected change to the leader's node: "@ + event.name()),
            ),
            Role::Follower => match event {
                WatchedEventType::NodeDeleted => Ok(()),
                _ => Err(failure_of("Unexpected change to the follower's node: "@ + event.name())),
            },
        },
    }
}

impl Checking {
    pub closed spec fn role(&self) -> Role {
        self.role
    }

    /// The path of the node to watch.
    pub closed spec fn path(&self) -> Seq<char> {
        self.path@
    }

    /// The path of the node to watch, as a text.
    pub fn watched_path(&self) -> (path: &str)
        ensures
            path@ == self.path(),
    {
        self.path.as_str()
    }

    /// Goes on, with the service's answer on whether the watched node is there.
    /// A follower whose node ahead is gone has nothing to announce.
    pub fn checked(self, present: Result<bool, Failure>) -> (step: Result<
        Option<Announcing>,
        Failure,
    >)
        ensures
            match present {
                Err(failure) => step == Err::<Option<Announcing>, Failure>(failure),
                Ok(present) => match after_check(self.role(), present) {
                    Ok(true) => step matches Ok(Some(next)) && next.role() == self.role(),
                    Ok(false) => step matches Ok(None),
                    Err(message) => step matches Err(failure) && failure@ == message,
                },
            },
    {
        match present {
            Err(failure) => Err(failure),
            Ok(true) => Ok(Some(Announcing { role: self.role })),
            Ok(false) => match self.role {
                Role::Leader => Err(Failure::new("Leader's znode was missing")),
                Role::Follower => Ok(None),
            },
        }
    }
}

impl Announcing {
    pub closed spec fn role(&self) -> Role {
        self.role
    }

    /// The state to announce.
    pub fn state(&self) -> (state: LeadershipState)
        ensures
            state == self.role().state(),
    {
        match self.role {
            Role::Leader => LeadershipState::Leader,
            Role::Follower => LeadershipState::Follower,
        }
    }

    /// Goes on, once it is known whether someone received the state.
    pub fn announced(
        self,
        sent: Result<(), watch::error::SendError<LeadershipState>>,
    ) -> (step: Result<Watching, Failure>)
        ensures
            match after_announcement(sent is Ok) {
                Ok(_) => step matches Ok(next) && next.role() == self.role(),
                Err(message) => step matches Err(failure) && failure@ == message,
            },
    {
        match sent {
            Ok(_) => Ok(Watching { role: self.role }),
            Err(error) => Err(
                Failure::from_cause(CANT_SEND_ERROR_MSG.to_owned(), describe_send_error(&error)),
            ),
        }
    }
}

impl Watching {
    pub closed spec fn role(&self) -> Role {
        self.role
    }

    /// Ends the round, with what happened to the watched node, or with the error
    /// of a watch that was lost.
    pub fn fired(self, fired: Result<WatchedEventType, oneshot::Canceled>) -> (outcome: Result<
        (),
        Failure,
    >)
        ensures
            match after_watch(self.role(), fired_event(fired)) {
                Ok(_) => outcome is Ok,
                Err(message) => outcome matches Err(failure) && failure@ == message,
            },
    {
        match fired {
            Err(canceled) => Err(
                Failure::from_cause(
                    RX_CANCELLED_ERROR_MSG.to_owned(),
                    describe_canceled(&canceled),
                ),
            ),
            Ok(event) => match self.role {
                Role::Leader => Err(
                    Failure::saying(
                        "Unexpected change to the leader's node: ".to_owned().concat(
                            event.to_name().as_str(),
                        ),
                    ),
                ),
                Role::Follower => match event {
                    WatchedEventType::NodeDeleted => Ok(()),
                    WatchedEventType::Other(_) => Err(
                        Failure::saying(
                            "Unexpected change to the follower's node: ".to_owned().concat(
                                event.to_name().as_str(),
                            ),
                        ),
                    ),
                },
            },
        }
    }
}

/// All of a round that was opened in the given role: what is announced in it,
/// if anything, and how it ends, where `present`, `delivered` and `event` are
/// what the participant learns as it goes on.
pub open spec fn round(
    role: Role,
    present: bool,
    delivered: bool,
    event: Option<WatchedEventType>,
) -> (Option<LeadershipState>, Result<(), FailureView>) {
    match after_check(role, present) {
        Err(message) => (None, Err(message)),
        Ok(false) => (None, Ok(())),
        Ok(true) => (
            Some(role.state()),
            match after_announcement(delivered) {
                Err(message) => Err(message),
                Ok(_) => after_watch(role, event),
            },
        ),
    }
}

/// A participant announces that it leads only if it was the first of those
/// listed and its node was there.
pub proof fn law_only_the_first_leads(
    children: Seq<ElectionChildView>,
    me: ElectionChildView,
    role: Role,
    path: Seq<char>,
    present: bool,
    delivered: bool,
    event: Option<WatchedEventType>,
)
    requires
        opens_as(children, me, role, path),
        round(role, present, delivered, event).0 == Some(LeadershipState::Leader),
    ensures
        stands_at(children, me, Place::First),
        present,
{
}

/// A round goes well only for a follower whose node ahead is gone.
pub proof fn law_a_round_goes_well_when_the_node_ahead_is_gone(
    role: Role,
    present: bool,
    delivered: bool,
    event: Option<WatchedEventType>,
)
    ensures
        round(role, present, delivered, event).1 is Ok <==> role is Follower && (!present || (
        delivered && event == Some(WatchedEventType::NodeDeleted))),
{
}

/// No failure that a participant itself finds within a round is one that is
/// tried again: that is reserved for a participant whose node is not listed.
pub proof fn law_only_the_unlisted_try_again(
    role: Role,
    present: bool,
    delivered: bool,
    event: Option<WatchedEventType>,
)
    ensures
        round(role, present, delivered, event).1 matches Err(failure) ==> failure.message
            != ZNODE_NOT_FOUND_ERROR_MSG@,
{
    reveal_strlit("The ephemeral znode of the participant was not found");
    reveal_strlit("Leader's znode was missing");
    reveal_strlit("Can't send leadership state update");
    reveal_strlit("Watch receiver canceled, server disconnected?");
    reveal_strlit("Unexpected change to the leader's node: ");
    reveal_strlit("Unexpected change to the follower's node: ");
    let found = ZNODE_NOT_FOUND_ERROR_MSG@;
    assert(found[0] == 'T');
    if round(role, present, delivered, event).1 is Err {
        assert(round(role, present, delivered, event).1->Err_0.message[0] != 'T');
    }
}

/// Leadership ends the election for the participant: a round in which it leads
/// fails, and is not tried again however many attempts are left.
pub proof fn law_leading_is_the_last_round(
    present: bool,
    delivered: bool,
    event: Option<WatchedEventType>,
    left: nat,
)
    ensures
        ({
            let outcome = round(Role::Leader, present, delivered, event).1;
            outcome is Err && left_after_failure(left, outcome->Err_0) is None
        }),
{
    law_only_the_unlisted_try_again(Role::Leader, present, delivered, event);
}

/// One attempt at a round.
pub enum Attempt {
    /// It failed before anything was announced: the participant was not listed,
    /// or the service failed.
    Unopened(FailureView),
    /// It was a round in the given role.
    Opened(Role, bool, bool, Option<WatchedEventType>),
}

impl Attempt {
    /// The state that is announced in the attempt.
    pub open spec fn announced(self) -> Option<LeadershipState> {
        match self {
            Attempt::Unopened(_) => None,
            Attempt::Opened(role, present, delivered, event) => round(
                role,
                present,
                delivered,
                event,
            ).0,
        }
    }

    /// How the attempt ends.
    pub open spec fn outcome(self) -> Result<(), FailureView> {
        match self {
            Attempt::Unopened(failure) => Err(failure),
            Attempt::Opened(role, present, delivered, event) => round(
                role,
                present,
                delivered,
                event,
            ).1,
        }
    }

    pub open spec fn went_well(self) -> bool {
        self.outcome() is Ok
    }

    /// The attempt failed because the participant was not listed.
    pub open spec fn was_unlisted(self) -> bool {
        self.outcome() matches Err(failure) && failure.message == ZNODE_NOT_FOUND_ERROR_MSG@
    }
}

/// How many attempts are left after the given ones, of `allowance` that each
/// round has, or none if the participant has stopped.
pub open spec fn left_after(allowance: nat, attempts: Seq<Attempt>) -> Option<nat>
    decreases attempts.len(),
{
    if attempts.len() == 0 {
        Some(allowance)
    } else {
        match left_after(allowance, attempts.drop_last()) {
            None => None,
            Some(left) => match attempts.last().outcome() {
                Ok(_) => Some(allowance),
                Err(failure) => left_after_failure(left, failure),
            },
        }
    }
}

/// The states that are announced over the given attempts.
pub open spec fn states_announced(allowance: nat, attempts: Seq<Attempt>) -> Seq<LeadershipState>
    decreases attempts.len(),
{
    if attempts.len() == 0 {
        Seq::empty()
    } else {
        let before = states_announced(allowance, attempts.drop_last());
        if left_after(allowance, attempts.drop_last()) is None {
            before
        } else {
            let told = match attempts.last().announced() {
                Some(state) => before.push(state),
                None => before,
            };
            if left_after(allowance, attempts) is None {
                told.push(LeadershipState::Error)
            } else {
                told
            }
        }
    }
}

/// The last `n` of the attempts failed because the participant was not listed.
spec fn ends_unlisted(attempts: Seq<Attempt>, n: int) -> bool {
    &&& 0 <= n <= attempts.len()
    &&& forall|j: int|
        attempts.len() - n <= j < attempts.len() ==> (#[trigger] attempts[j]).was_unlisted()
}

/// While a participant has not stopped, it has used up as many attempts as have
/// failed since the last round that went well.
proof fn lemma_attempts_used_up(allowance: nat, attempts: Seq<Attempt>)
    ensures
        left_after(allowance, attempts) matches Some(left) ==> left <= allowance && ends_unlisted(
            attempts,
            allowance - left,
        ) && (attempts.len() == allowance - left || attempts[attempts.len() - 1 - (allowance
            - left)].went_well()),
    decreases attempts.len(),
{
    if attempts.len() > 0 {
        let before = attempts.drop_last();
        lemma_attempts_used_up(allowance, before);
        if left_after(allowance, attempts) is Some {
            let left = left_after(allowance, attempts)->0;
            assert forall|j: int|
                attempts.len() - (allowance - left) <= j < attempts.len() implies (
            #[trigger] attempts[j]).was_unlisted() by {
                if j < before.len() {
                    assert(before[j].was_unlisted());
                }
            }
        }
    }
}

/// Each round that goes well restores the full allowance: a participant goes on
/// as long as no attempt fails but for its not being listed, and no more than
/// `allowance` attempts in a row fail for that.
pub proof fn law_only_failures_in_a_row_end_the_election(allowance: nat, attempts: Seq<Attempt>)
    ensures
        left_after(allowance, attempts) is Some <==> {
            &&& forall|i: int|
                0 <= i < attempts.len() ==> (#[trigger] attempts[i]).went_well()
                    || attempts[i].was_unlisted()
            &&& forall|i: int|
                0 <= i < attempts.len() - allowance ==> #[trigger] has_good_round(
                    attempts,
                    i,
                    i + allowance,
                )
        },
    decreases attempts.len(),
{
    if attempts.len() > 0 {
        let before = attempts.drop_last();
        let last = attempts.len() - 1;
        law_only_failures_in_a_row_end_the_election(allowance, before);
        lemma_attempts_used_up(allowance, before);
        assert forall|i: int| 0 <= i < before.len() - allowance implies #[trigger] has_good_round(
            attempts,
            i,
            i + allowance,
        ) == has_good_round(before, i, i + allowance) by {
            if has_good_round(attempts, i, i + allowance) {
                let j = choose|j: int| i <= j <= i + allowance && (#[trigger] attempts[j]).went_well();
                assert(before[j].went_well());
            }
            if has_good_round(before, i, i + allowance) {
                let j = choose|j: int| i <= j <= i + allowance && (#[trigger] before[j]).went_well();
                assert(attempts[j].went_well());
            }
        }
        let goes_on = left_after(allowance, attempts) is Some;
        let conditions = (forall|i: int|
            0 <= i < attempts.len() ==> (#[trigger] attempts[i]).went_well()
                || attempts[i].was_unlisted()) && (forall|i: int|
            0 <= i < attempts.len() - allowance ==> #[trigger] has_good_round(
                attempts,
                i,
                i + allowance,
            ));
        if conditions {
            assert forall|i: int| 0 <= i < before.len() implies (#[trigger] before[i]).went_well()
                || before[i].was_unlisted() by {
                assert(attempts[i].went_well() || attempts[i].was_unlisted());
            }
            assert forall|i: int| 0 <= i < before.len() - allowance implies #[trigger] has_good_round(
                before,
                i,
                i + allowance,
            ) by {
                assert(has_good_round(attempts, i, i + allowance));
            }
            assert(left_after(allowance, before) is Some);
            let left = left_after(allowance, before)->0;
            assert(attempts[last].went_well() || attempts[last].was_unlisted());
            if !attempts[last].went_well() && left == 0 {
                assert(has_good_round(attempts, last - allowance, last - allowance + allowance));
                let j = choose|j: int|
                    last - allowance <= j <= last && (#[trigger] attempts[j]).went_well();
                assert(before[j].was_unlisted());
            }
            assert(goes_on);
        }
        if goes_on {
            let left = left_after(allowance, before)->0;
            assert forall|i: int| 0 <= i < attempts.len() implies (
            #[trigger] attempts[i]).went_well() || attempts[i].was_unlisted() by {
                if i < before.len() {
                    assert(before[i].went_well() || before[i].was_unlisted());
                }
            }
            assert forall|i: int| 0 <= i < attempts.len() - allowance implies #[trigger] has_good_round(
                attempts,
                i,
                i + allowance,
            ) by {
                if i < before.len() - allowance {
                    assert(has_good_round(before, i, i + allowance));
                } else if attempts[last].went_well() {
                } else {
                    let j = before.len() - 1 - (allowance - left);
                    assert(before[j].went_well());
                    assert(attempts[j].went_well());
                }
            }
        }
    }
}

/// One of the attempts from the `i`th to the `j`th went well.
pub open spec fn has_good_round(attempts: Seq<Attempt>, i: int, j: int) -> bool {
    exists|k: int| i <= k <= j && (#[trigger] attempts[k]).went_well()
}

/// Over a whole election a participant announces that it follows any number of
/// times, then at most once that it leads, then at most once an error, with which
/// it stops.
pub proof fn law_states_come_in_order(allowance: nat, attempts: Seq<Attempt>)
    ensures
        ({
            let states = states_announced(allowance, attempts);
            &&& forall|i: int|
                0 <= i < states.len() ==> (#[trigger] states[i]) != LeadershipState::Uninitialized
            &&& forall|i: int, j: int|
                0 <= i < j < states.len() ==> match #[trigger] states[i] {
                    LeadershipState::Follower => true,
                    LeadershipState::Leader => #[trigger] states[j] == LeadershipState::Error,
                    _ => false,
                }
            &&& left_after(allowance, attempts) is None <==> states.len() > 0 && states.last()
                == LeadershipState::Error
            &&& left_after(allowance, attempts) is Some ==> forall|i: int|
                0 <= i < states.len() ==> (#[trigger] states[i]) == LeadershipState::Follower
        }),
    decreases attempts.len(),
{
    if attempts.len() > 0 {
        law_states_come_in_order(allowance, attempts.drop_last());
        match attempts.last() {
            Attempt::Unopened(_) => {},
            Attempt::Opened(role, present, delivered, event) => {
                law_only_the_unlisted_try_again(role, present, delivered, event);
            },
        }
    }
}

} // verus!
