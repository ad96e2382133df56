//! What holds of the operations of an election, whatever they are given: laws on
//! their arguments and results alone.

use futures::channel::oneshot::Canceled;
use std::cmp::Ordering;
use tokio::sync::watch::error::SendError;
use vstd::prelude::*;

use crate::failure::{lemma_says, lemma_says_after, says, says_after, says_for, Failure};
use crate::recipes::backoff::Attempts;
use crate::recipes::exchange::{CreateMode, CreateReply, CreateRequest, WatchedEventType};
use crate::recipes::plain::candidate::{
    lists, quoted, Announcing, Candidate, Checking, LeadershipState, ObserveError, Role, Verdict,
    Watching,
};
use crate::recipes::plain::child::{get_children, ElectionChild};
use crate::recipes::plain::election::{
    is_first_volunteer, Joined, Joining, LeaderElection, OpenUnsafe, Searching, Volunteer,
};
use crate::recipes::ranking::{
    goes_before, is_first_at, is_foremost, is_just_before, stands_at, views, Place, Rankable,
};
use crate::text::{lemma_text_below_at, path_under, text_below, texts};

verus! {

/// The name stands before the other in lexicographic order: up to some place they
/// agree, and there it ends and the other does not, or it has the lower character.
pub open spec fn is_lower(a: Seq<char>, b: Seq<char>) -> bool {
    exists|k: int|
        #![trigger a.take(k)]
        0 <= k <= a.len() && k < b.len() && a.take(k) == b.take(k) && (k == a.len() || a[k] < b[k])
}

proof fn lemma_is_lower(a: Seq<char>, b: Seq<char>)
    ensures
        text_below(a, b) <==> is_lower(a, b),
{
    lemma_text_below_at(a, b);
    if text_below(a, b) {
        let k = choose|k: int| #[trigger] crate::text::differ_upwards_at(a, b, k);
        assert(a.take(k) =~= b.take(k));
    }
    if is_lower(a, b) {
        let k = choose|k: int|
            #![trigger a.take(k)]
            0 <= k <= a.len() && k < b.len() && a.take(k) == b.take(k) && (k == a.len() || a[k]
                < b[k]);
        assert forall|i: int| 0 <= i < k implies a[i] == b[i] by {
            assert(a.take(k)[i] == a[i]);
            assert(b.take(k)[i] == b[i]);
        }
        assert(crate::text::differ_upwards_at(a, b, k));
    }
}

/// Participants rank as their names do, however they are asked, and are equal
/// exactly if their names are.
pub proof fn law_lower_name_goes_first(
    a: ElectionChild,
    b: ElectionChild,
    order: Ordering,
    partial: Option<Ordering>,
    below: bool,
    same: bool,
)
    requires
        call_ensures(ElectionChild::cmp, (&a, &b), order),
        call_ensures(ElectionChild::partial_cmp, (&a, &b), partial),
        call_ensures(ElectionChild::is_below, (&a, &b), below),
        call_ensures(ElectionChild::eq, (&a, &b), same),
    ensures
        order is Less <==> is_lower(a.0@, b.0@),
        order is Equal <==> a.0@ == b.0@,
        order is Greater <==> is_lower(b.0@, a.0@),
        partial == Some(order),
        below <==> is_lower(a.0@, b.0@),
        same <==> a.0@ == b.0@,
{
    lemma_is_lower(a.0@, b.0@);
    lemma_is_lower(b.0@, a.0@);
    crate::recipes::plain::child::law_rank_is_a_total_order(a, b, b);
}

/// Every name is a participant's.
pub proof fn law_every_name_is_taken(name: String, child: Result<ElectionChild, ()>)
    requires
        call_ensures(ElectionChild::try_from, (name,), child),
    ensures
        child matches Ok(child) && child.0@ == name@,
{
}

/// All the names in the answer are participants, each at its place, and there are
/// no others. Without the election's node there are none, and without an answer
/// the words of the failure are kept.
pub proof fn law_every_name_is_listed(
    reply: Result<Option<Vec<String>>, Failure>,
    children: Result<Vec<ElectionChild>, ObserveError>,
)
    requires
        call_ensures(get_children, (reply,), children),
    ensures
        match reply {
            Err(failure) => children matches Err(ObserveError::ZkError(text)) && text@
                == failure.message@,
            Ok(None) => children matches Err(ObserveError::NoParticipants),
            Ok(Some(names)) => children matches Ok(children) && children@.len() == names@.len()
                && forall|i: int|
                0 <= i < names@.len() ==> (#[trigger] children@[i]).0@ == names@[i]@,
        },
{
    if let Ok(Some(names)) = reply {
        let found = children->Ok_0@;
        assert(views(found).len() == found.len());
        assert forall|i: int| 0 <= i < names@.len() implies (#[trigger] found[i]).0@
            == names@[i]@ by {
            assert(views(found)[i] == found[i]@);
            assert(texts(names@)[i] == names@[i]@);
        }
    }
}

/// An error keeps the words of what it came from.
pub proof fn law_errors_keep_the_words(
    failure: Failure,
    unsent: SendError<LeadershipState>,
    canceled: Canceled,
    from_failure: ObserveError,
    from_unsent: ObserveError,
    from_canceled: ObserveError,
)
    requires
        call_ensures(ObserveError::from, (failure,), from_failure),
        call_ensures(ObserveError::from, (unsent,), from_unsent),
        call_ensures(ObserveError::from, (canceled,), from_canceled),
    ensures
        from_failure matches ObserveError::ZkError(text) && text@ == failure.message@,
        from_unsent matches ObserveError::SendError(text) && text@ == "channel closed"@,
        from_canceled matches ObserveError::Canceled,
{
}

/// An error is written as its own name, with what it holds quoted in brackets.
pub proof fn law_errors_are_written_by_name(error: ObserveError, written: String)
    requires
        call_ensures(ObserveError::write_in_full, (&error,), written),
    ensures
        written@ == match error {
            ObserveError::Canceled => "Canceled"@,
            ObserveError::ZkError(text) => "ZkError("@ + quoted(text@) + ")"@,
            ObserveError::SendError(text) => "SendError("@ + quoted(text@) + ")"@,
            ObserveError::LeaderNodeMissing => "LeaderNodeMissing"@,
            ObserveError::LeaderNodeChanged => "LeaderNodeChanged"@,
            ObserveError::FollowerNodeUnexpectedChange(text) => "FollowerNodeUnexpectedChange("@
                + quoted(text@) + ")"@,
            ObserveError::NoParticipants => "NoParticipants"@,
        },
{
}

/// A participant is what it was made of, and paths lead through the election's
/// node.
pub proof fn law_participant_is_what_it_was_made_of<Z>(
    path: String,
    node: String,
    zk: Z,
    candidate: Candidate<Z>,
    child: ElectionChild,
    connection: &Z,
    election: &str,
    child_path: String,
)
    requires
        call_ensures(Candidate::<Z>::new, (path, node, zk), candidate),
        call_ensures(Candidate::<Z>::zk, (&candidate,), connection),
        call_ensures(Candidate::<Z>::election_path, (&candidate,), election),
        call_ensures(Candidate::<Z>::get_full_path, (&candidate, &child), child_path),
    ensures
        candidate.path() == path@,
        candidate.election_node() == node@,
        *connection == zk,
        election@ == node@,
        child_path@ == node@ + seq!['/'] + child.0@,
{
}

/// A participant is found at the first place whose name makes its path, and not
/// found exactly if there is no such place.
pub proof fn law_participant_is_found_by_its_path<Z>(
    candidate: Candidate<Z>,
    children: Vec<ElectionChild>,
    found: Option<usize>,
)
    requires
        call_ensures(Candidate::<Z>::position, (&candidate, &children), found),
    ensures
        match found {
            Some(k) => {
                &&& k < children@.len()
                &&& candidate.path() == candidate.election_node() + seq!['/']
                    + children@[k as int].0@
                &&& forall|j: int|
                    0 <= j < k ==> candidate.path() != candidate.election_node() + seq!['/'] + (
                    #[trigger] children@[j]).0@
            },
            None => forall|j: int|
                0 <= j < children@.len() ==> candidate.path() != candidate.election_node() + seq![
                    '/',
                ] + (#[trigger] children@[j]).0@,
        },
{
    let all = views(children@);
    assert(all.len() == children@.len());
    assert forall|j: int| 0 <= j < children@.len() implies #[trigger] all[j] == children@[j].0@ by {}
    match found {
        Some(k) => {
            assert forall|j: int| 0 <= j < k implies candidate.path() != candidate.election_node()
                + seq!['/'] + (#[trigger] children@[j]).0@ by {
                lemma_path_tells_the_name(
                    candidate.election_node(),
                    all[j],
                    children@[k as int].0@,
                );
                assert(all[j] != children@[k as int]@);
            }
        },
        None => {
            assert forall|j: int| 0 <= j < children@.len() implies candidate.path()
                != candidate.election_node() + seq!['/'] + (#[trigger] children@[j]).0@ by {
                assert(path_under(candidate.election_node(), all[j]) != candidate.path());
            }
        },
    }
}

proof fn lemma_path_tells_the_name(node: Seq<char>, a: Seq<char>, b: Seq<char>)
    ensures
        node + seq!['/'] + a == node + seq!['/'] + b <==> a == b,
{
    let n = node.len() as int + 1;
    assert((node + seq!['/'] + a).skip(n) =~= a);
    assert((node + seq!['/'] + b).skip(n) =~= b);
}

/// The `i`th of the participants goes before the `j`th: its name is lower, or is
/// the same and it is listed earlier.
pub open spec fn is_ahead(children: Seq<ElectionChild>, i: int, j: int) -> bool {
    is_lower(children[i].0@, children[j].0@) || (children[i].0@ == children[j].0@ && i < j)
}

/// The `k`th of the participants is the first that has the given name.
pub open spec fn is_at(children: Seq<ElectionChild>, me: Seq<char>, k: int) -> bool {
    &&& 0 <= k < children.len()
    &&& children[k].0@ == me
    &&& forall|j: int| 0 <= j < k ==> (#[trigger] children[j]).0@ != me
}

proof fn lemma_places(children: Seq<ElectionChild>, me: Seq<char>)
    ensures
        views(children).len() == children.len(),
        forall|k: int| #[trigger] is_first_at(views(children), me, k) <==> is_at(children, me, k),
        forall|i: int, j: int|
            0 <= i < children.len() && 0 <= j < children.len() ==> (#[trigger] goes_before(
                views(children),
                i,
                j,
            ) <==> is_ahead(children, i, j)),
{
    let all = views(children);
    assert forall|k: int| 0 <= k < children.len() implies #[trigger] all[k] == children[k].0@ by {}
    assert forall|k: int| #[trigger] is_first_at(all, me, k) <==> is_at(children, me, k) by {
        if is_first_at(all, me, k) {
            assert forall|j: int| 0 <= j < k implies (#[trigger] children[j]).0@ != me by {
                assert(all[j] != me);
            }
        }
        if is_at(children, me, k) {
            assert forall|j: int| 0 <= j < k implies all[j] != me by {
                assert(children[j].0@ != me);
            }
        }
    }
    assert forall|i: int, j: int|
        0 <= i < children.len() && 0 <= j < children.len() implies (#[trigger] goes_before(
        all,
        i,
        j,
    ) <==> is_ahead(children, i, j)) by {
        lemma_is_lower(all[i], all[j]);
        lemma_is_lower(all[j], all[i]);
        if all[i] == all[j] {
            if text_below(all[i], all[j]) {
                crate::text::lemma_text_below_asymmetric(all[i], all[j]);
            }
        } else {
            crate::text::lemma_text_below_total(all[i], all[j]);
            if text_below(all[i], all[j]) {
                crate::text::lemma_text_below_asymmetric(all[i], all[j]);
            }
        }
    }
}

/// A participant that is listed leads exactly if no listed participant goes before
/// it, and then it watches its own node. Else it watches the node of the one
/// right ahead: one that goes before it, with no other between them.
pub proof fn law_participant_watches_the_one_ahead<Z>(
    candidate: Candidate<Z>,
    me: Seq<char>,
    children: Vec<ElectionChild>,
    step: Result<Checking, ObserveError>,
)
    requires
        candidate.path() == candidate.election_node() + seq!['/'] + me,
        exists|k: int| 0 <= k < children@.len() && (#[trigger] children@[k]).0@ == me,
        call_ensures(Candidate::<Z>::observe_once, (&candidate, Ok(children)), step),
    ensures
        step matches Ok(checking) && exists|k: int| #[trigger]
            is_at(children@, me, k) && match checking.role() {
                Role::Leader => {
                    &&& checking.path() == candidate.path()
                    &&& forall|j: int|
                        0 <= j < children@.len() ==> !#[trigger] is_ahead(children@, j, k)
                },
                Role::Follower => exists|p: int|
                    0 <= p < children@.len() && #[trigger] is_ahead(children@, p, k)
                        && checking.path() == candidate.election_node() + seq!['/']
                        + children@[p].0@ && forall|j: int|
                        0 <= j < children@.len() && #[trigger] is_ahead(children@, j, k)
                            ==> !is_ahead(children@, p, j),
            },
{
    let all = views(children@);
    let node = candidate.election_node();
    lemma_places(children@, me);
    let l = choose|l: int| 0 <= l < children@.len() && (#[trigger] children@[l]).0@ == me;
    assert(all[l] == children@[l].0@);
    assert(path_under(node, all[l]) == candidate.path());
    assert(lists(all, node, candidate.path()));
    let checking = step->Ok_0;
    let found = choose|found: Seq<char>|
        candidate.path() == #[trigger] path_under(node, found) && match checking.role() {
            Role::Leader => stands_at(all, found, Place::First) && checking.path()
                == candidate.path(),
            Role::Follower => exists|ahead: Seq<char>| #[trigger]
                stands_at(all, found, Place::After(ahead)) && checking.path() == path_under(
                    node,
                    ahead,
                ),
        };
    lemma_path_tells_the_name(node, found, me);
    match checking.role() {
        Role::Leader => {
            let k = choose|k: int| #[trigger] is_first_at(all, me, k) && is_foremost(all, k);
            assert(is_at(children@, me, k));
            assert forall|j: int| 0 <= j < children@.len() implies !#[trigger] is_ahead(
                children@,
                j,
                k,
            ) by {
                assert(!goes_before(all, j, k));
            }
        },
        Role::Follower => {
            let ahead = choose|ahead: Seq<char>| #[trigger]
                stands_at(all, me, Place::After(ahead)) && checking.path() == path_under(
                    node,
                    ahead,
                );
            let (k, p) = choose|k: int, p: int| #[trigger]
                is_first_at(all, me, k) && #[trigger] is_just_before(all, p, k) && all[p] == ahead;
            assert(is_at(children@, me, k));
            assert(goes_before(all, p, k));
            assert(is_ahead(children@, p, k));
            assert(all[p] == children@[p].0@);
            assert forall|j: int|
                0 <= j < children@.len() && #[trigger] is_ahead(children@, j, k) implies !is_ahead(
                children@,
                p,
                j,
            ) by {
                assert(goes_before(all, j, k));
                assert(!goes_before(all, p, j));
            }
        },
    }
}

/// Of all that are listed no two lead.
pub proof fn law_no_two_lead<Z>(
    candidate: Candidate<Z>,
    other: Candidate<Z>,
    a: Seq<char>,
    b: Seq<char>,
    children: Vec<ElectionChild>,
    first: Checking,
    second: Checking,
)
    requires
        candidate.path() == candidate.election_node() + seq!['/'] + a,
        other.path() == other.election_node() + seq!['/'] + b,
        exists|k: int| 0 <= k < children@.len() && (#[trigger] children@[k]).0@ == a,
        exists|k: int| 0 <= k < children@.len() && (#[trigger] children@[k]).0@ == b,
        call_ensures(Candidate::<Z>::observe_once, (&candidate, Ok(children)), Ok(first)),
        call_ensures(Candidate::<Z>::observe_once, (&other, Ok(children)), Ok(second)),
        first.role() is Leader,
        second.role() is Leader,
    ensures
        a == b,
{
    law_participant_watches_the_one_ahead(candidate, a, children, Ok(first));
    law_participant_watches_the_one_ahead(other, b, children, Ok(second));
    let k = choose|k: int| #[trigger]
        is_at(children@, a, k) && forall|j: int|
            0 <= j < children@.len() ==> !#[trigger] is_ahead(children@, j, k);
    let l = choose|l: int| #[trigger]
        is_at(children@, b, l) && forall|j: int|
            0 <= j < children@.len() ==> !#[trigger] is_ahead(children@, j, l);
    assert(!is_ahead(children@, k, l) && !is_ahead(children@, l, k));
    if a != b {
        lemma_is_lower(a, b);
        lemma_is_lower(b, a);
        crate::text::lemma_text_below_total(a, b);
    }
}

/// Without a listing there is no round.
pub proof fn law_failed_listing_fails_the_round<Z>(
    candidate: Candidate<Z>,
    error: ObserveError,
    step: Result<Checking, ObserveError>,
)
    requires
        call_ensures(Candidate::<Z>::observe_once, (&candidate, Err(error)), step),
    ensures
        step == Err::<Checking, ObserveError>(error),
{
}

/// A participant announces its state exactly if the watched node is there: that it
/// leads if it leads, and that it follows if it follows. Without the node a
/// leader fails, and a follower is done.
pub proof fn law_seen_node_lets_a_participant_announce(
    checking: Checking,
    present: Result<bool, Failure>,
    step: Result<Option<Announcing>, ObserveError>,
    watched: &str,
)
    requires
        call_ensures(Checking::checked, (checking, present), step),
        call_ensures(Checking::watched_path, (&checking,), watched),
    ensures
        watched@ == checking.path(),
        match present {
            Err(failure) => step matches Err(ObserveError::ZkError(text)) && text@
                == failure.message@,
            Ok(true) => step matches Ok(Some(announcing)) && forall|state: LeadershipState|
                #[trigger] call_ensures(Announcing::state, (&announcing,), state) ==> state == (
                if checking.role() is Leader {
                    LeadershipState::Leader
                } else {
                    LeadershipState::Follower
                }),
            Ok(false) => if checking.role() is Leader {
                step matches Err(ObserveError::LeaderNodeMissing)
            } else {
                step matches Ok(None)
            },
        },
{
}

/// A participant goes on to wait exactly if someone received its state, and stays
/// what it is.
pub proof fn law_received_state_lets_a_participant_wait(
    checking: Checking,
    announcing: Announcing,
    sent: Result<(), SendError<LeadershipState>>,
    step: Result<Watching, ObserveError>,
)
    requires
        call_ensures(Checking::checked, (checking, Ok(true)), Ok(Some(announcing))),
        call_ensures(Announcing::announced, (announcing, sent), step),
    ensures
        sent is Ok <==> step is Ok,
        step matches Ok(watching) ==> watching.role() == checking.role(),
        step matches Err(error) ==> (error matches ObserveError::SendError(text) && text@
            == "channel closed"@),
{
}

/// Nothing but the removal of the node ahead lets a follower go on, and nothing at
/// all lets a leader go on.
pub proof fn law_only_removal_ahead_ends_a_round_well(
    watching: Watching,
    event: Result<WatchedEventType, Canceled>,
    outcome: Result<(), ObserveError>,
)
    requires
        call_ensures(Watching::fired, (watching, event), outcome),
    ensures
        outcome is Ok <==> watching.role() is Follower && event matches Ok(
            WatchedEventType::NodeDeleted,
        ),
        outcome matches Err(error) ==> match event {
            Err(_) => error matches ObserveError::Canceled,
            Ok(event) => if watching.role() is Leader {
                error matches ObserveError::LeaderNodeChanged
            } else {
                error matches ObserveError::FollowerNodeUnexpectedChange(text) && (
                event matches WatchedEventType::Other(name) && text@ == name@)
            },
        },
{
}

/// After a round that went well another follows. After one that failed none does,
/// and the participant says why, if anyone listens.
pub proof fn law_round_is_followed_as_it_ended<Z>(
    candidate: Candidate<Z>,
    outcome: Result<(), ObserveError>,
    verdict: Verdict,
)
    requires
        call_ensures(Candidate::<Z>::observe, (&candidate, outcome), verdict),
    ensures
        match outcome {
            Ok(_) => verdict == Verdict::Continue,
            Err(ObserveError::SendError(_)) => verdict == Verdict::Stop(None),
            Err(error) => verdict matches Verdict::Stop(Some(LeadershipState::Error(said))) && said@
                == match error {
                ObserveError::Canceled => "Watch receiver canceled, server disconnected?"@,
                ObserveError::ZkError(_) => "ZooKeeper error"@,
                ObserveError::LeaderNodeMissing => "Leader's znode was missing"@,
                ObserveError::LeaderNodeChanged => "Leader's znode has changed"@,
                ObserveError::NoParticipants => "No leader election participants"@,
                _ => "Unexpected change to follower ephemeral node"@,
            },
        },
{
}

/// Whoever volunteers, wherever, asks for an empty node that goes with the
/// connection, gets a sequence number and is open to everyone, under the
/// election's node, with the name that all volunteers' nodes begin with.
pub proof fn law_volunteer_asks_for_an_ephemeral_numbered_node<Z>(
    zk: Z,
    node: &str,
    election: LeaderElection<Z>,
    started: (Volunteer<Z>, CreateRequest<OpenUnsafe>),
    election_node: &str,
    connection: &Z,
)
    requires
        call_ensures(LeaderElection::<Z>::new, (zk, node), election),
        call_ensures(LeaderElection::<Z>::volunteer, (election,), started),
        call_ensures(Volunteer::<Z>::election_node, (&started.0,), election_node),
        call_ensures(Volunteer::<Z>::zk, (&started.0,), connection),
    ensures
        started.0.election() == election,
        election_node@ == node@,
        *connection == zk,
        started.1.mode == CreateMode::EphemeralSequential,
        started.1.data@.len() == 0,
        started.1.path@ == node@ + seq!['/', 'g', 'u', 'i', 'd', '-', 'n', '_'],
{
    reveal_strlit("guid-n_");
    assert(started.1.path@ =~= node@ + seq!['/', 'g', 'u', 'i', 'd', '-', 'n', '_']);
}

/// The volunteer of an election participates with the node at the given path, over
/// the election's connection, and without a state yet.
pub open spec fn joins_at<Z>(joined: Joined<Z>, volunteer: Volunteer<Z>, path: Seq<char>) -> bool {
    &&& joined.path@ == path
    &&& joined.candidate.path() == path
    &&& joined.candidate.election_node() == volunteer.election().node()
    &&& joined.candidate.connection() == volunteer.election().connection()
    &&& joined.state == LeadershipState::Uninitialized
}

/// A volunteer whose node was made joins with it. One whose node was refused fails
/// for that reason, and one whose answer was lost goes on to search.
pub proof fn law_answer_decides_who_joins<Z>(
    volunteer: Volunteer<Z>,
    path: String,
    reason: Failure,
    made: Joining<Z>,
    refused: Joining<Z>,
    lost: Joining<Z>,
)
    requires
        call_ensures(Volunteer::<Z>::created, (volunteer, CreateReply::Created(path)), made),
        call_ensures(Volunteer::<Z>::created, (volunteer, CreateReply::Refused(reason)), refused),
        call_ensures(Volunteer::<Z>::created, (volunteer, CreateReply::Lost), lost),
    ensures
        made matches Joining::Joined(joined) && joins_at(joined, volunteer, path@),
        refused matches Joining::Failed(failure) && says_after(
            failure,
            "can't create ephemeral node, unrecoverable error"@,
            reason,
        ),
        lost == Joining::Search(volunteer),
{
    lemma_says_after(
        refused->Failed_0,
        "can't create ephemeral node, unrecoverable error"@,
        reason,
    );
}

/// The name begins as all volunteers' do.
pub open spec fn is_volunteers(name: Seq<char>) -> bool {
    name.len() >= 7 && name.take(7) == seq!['g', 'u', 'i', 'd', '-', 'n', '_']
}

/// A search ends well exactly if a listed name begins as a volunteer's, and then
/// the volunteer joins with the first such node, at its path under the election's
/// node.
pub open spec fn joins_with_the_first<Z>(
    volunteer: Volunteer<Z>,
    children: Seq<ElectionChild>,
    outcome: Result<Joined<Z>, Failure>,
) -> bool {
    match outcome {
        Ok(joined) => exists|k: int|
            0 <= k < children.len() && is_volunteers((#[trigger] children[k]).0@) && joins_at(
                joined,
                volunteer,
                volunteer.election().node() + seq!['/'] + children[k].0@,
            ) && forall|j: int| 0 <= j < k ==> !is_volunteers((#[trigger] children[j]).0@),
        Err(failure) => says(failure, "can't find my guid"@) && forall|j: int|
            0 <= j < children.len() ==> !is_volunteers((#[trigger] children[j]).0@),
    }
}

proof fn lemma_is_volunteers(name: Seq<char>)
    ensures
        is_volunteers(name) <==> "guid-n_"@.is_prefix_of(name),
{
    reveal_strlit("guid-n_");
    assert("guid-n_"@ =~= seq!['g', 'u', 'i', 'd', '-', 'n', '_']);
    if name.len() >= 7 {
        assert(name.take(7) =~= name.subrange(0, 7));
    }
}

proof fn lemma_joins_with_the_first<Z>(
    volunteer: Volunteer<Z>,
    children: Vec<ElectionChild>,
    outcome: Result<Joined<Z>, Failure>,
)
    requires
        volunteer.finds(Ok(children), outcome),
    ensures
        joins_with_the_first(volunteer, children@, outcome),
{
    let all = views(children@);
    assert(all.len() == children@.len());
    assert forall|k: int| 0 <= k < children@.len() implies #[trigger] all[k] == children@[k].0@ by {}
    if exists|k: int| is_first_volunteer(all, k) {
        let k = choose|k: int| is_first_volunteer(all, k);
        lemma_is_volunteers(all[k]);
        assert(all[k] == children@[k].0@);
        assert forall|j: int| 0 <= j < k implies !is_volunteers((#[trigger] children@[j]).0@) by {
            lemma_is_volunteers(all[j]);
        }
    } else {
        lemma_says(outcome->Err_0, outcome->Err_0@.message, Seq::empty());
        assert forall|j: int| 0 <= j < children@.len() implies !is_volunteers(
            (#[trigger] children@[j]).0@,
        ) by {
            lemma_is_volunteers(all[j]);
            if is_volunteers(all[j]) {
                lemma_some_first(all, j + 1);
            }
        }
    }
}

proof fn lemma_some_first(children: Seq<Seq<char>>, n: int)
    requires
        0 < n <= children.len(),
        is_volunteers(children[n - 1]),
    ensures
        exists|k: int| is_first_volunteer(children, k),
    decreases n,
{
    if exists|j: int| 0 <= j < n - 1 && is_volunteers(#[trigger] children[j]) {
        let j = choose|j: int| 0 <= j < n - 1 && is_volunteers(#[trigger] children[j]);
        lemma_some_first(children, j + 1);
    } else {
        lemma_is_volunteers(children[n - 1]);
        assert forall|j: int| 0 <= j < n - 1 implies !"guid-n_"@.is_prefix_of(
            #[trigger] children[j],
        ) by {
            lemma_is_volunteers(children[j]);
        }
        assert(is_first_volunteer(children, n - 1));
    }
}

/// A volunteer that searches what is listed, however many that are, joins with the
/// first volunteer's node or not at all.
pub proof fn law_search_finds_the_first_volunteers_node<Z>(
    volunteer: Volunteer<Z>,
    children: Vec<ElectionChild>,
    outcome: Result<Joined<Z>, Failure>,
    attempts: Attempts,
    step: Searching<Z>,
)
    requires
        call_ensures(Volunteer::<Z>::searched, (volunteer, Ok(children)), outcome),
        call_ensures(Volunteer::<Z>::listed, (volunteer, attempts, Ok(children)), step),
    ensures
        joins_with_the_first(volunteer, children@, outcome),
        step matches Searching::Ended(ended) && joins_with_the_first(volunteer, children@, ended),
{
    lemma_joins_with_the_first(volunteer, children, outcome);
    lemma_joins_with_the_first(volunteer, children, step->Ended_0);
}

/// A volunteer of an election has five attempts to spare. A listing that failed is
/// asked for again while any are left, whatever the error, and the last error ends
/// the search.
pub proof fn law_failed_search_is_tried_again<Z>(
    zk: Z,
    node: &str,
    election: LeaderElection<Z>,
    volunteer: Volunteer<Z>,
    full: Attempts,
    attempts: Attempts,
    error: ObserveError,
    written: String,
    outcome: Result<Joined<Z>, Failure>,
    step: Searching<Z>,
)
    requires
        call_ensures(LeaderElection::<Z>::new, (zk, node), election),
        volunteer.election() == election,
        call_ensures(Volunteer::<Z>::attempts, (&volunteer,), full),
        call_ensures(ObserveError::write_in_full, (&error,), written),
        call_ensures(Volunteer::<Z>::searched, (volunteer, Err(error)), outcome),
        call_ensures(Volunteer::<Z>::listed, (volunteer, attempts, Err(error)), step),
    ensures
        full.left() == 5,
        full.backoff() == election.backoff(),
        outcome matches Err(failure) && says_for(failure, "retry failed"@, written@),
        if attempts.left() > 0 {
            step matches Searching::Retry(again, nanos, fewer) && again == volunteer && fewer.left()
                == attempts.left() - 1 && fewer.backoff() == attempts.backoff() && (
            attempts.backoff() == election.backoff() ==> 100_000_000 <= nanos <= 15_000_000_000)
        } else {
            step matches Searching::Ended(Err(failure)) && says_for(
                failure,
                "retry failed"@,
                written@,
            )
        },
{
    lemma_says(outcome->Err_0, "retry failed"@, written@);
    if attempts.left() == 0 {
        lemma_says(step->Ended_0->Err_0, "retry failed"@, written@);
    }
}

} // verus!
