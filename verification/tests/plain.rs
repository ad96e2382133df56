//! The election among participants that are known by name.

use futures::channel::oneshot::Canceled;
use std::cmp::Ordering;
use tokio::sync::watch::error::SendError;
use zookeeper_recipes::recipes::exchange::{CreateMode, CreateReply, WatchedEventType};
use zookeeper_recipes::recipes::{
    get_children, Candidate, Checking, ElectionChild, Joining, LeaderElection, LeadershipState,
    ObserveError, OpenUnsafe, Searching, Verdict,
};
use zookeeper_recipes::Failure;

fn children(names: &[&str]) -> Vec<ElectionChild> {
    let names = names.iter().map(|name| name.to_string()).collect();
    get_children(Ok(Some(names))).unwrap()
}

fn participant(name: &str) -> Candidate<u32> {
    Candidate::new(format!("/election/{}", name), "/election".to_string(), 7)
}

fn round(me: &str, names: &[&str]) -> Checking {
    participant(me).observe_once(Ok(children(names))).unwrap()
}

#[test]
fn all_names_are_participants() {
    let listed = children(&["b", "", "a"]);
    assert_eq!(listed.len(), 3);
    assert_eq!(listed[0].0, "b");
    assert_eq!(listed[1].0, "");
    assert_eq!(listed[2].0, "a");
}

#[test]
fn election_without_a_node_has_no_participants() {
    assert!(matches!(get_children(Ok(None)), Err(ObserveError::NoParticipants)));
    match get_children(Err(Failure::new("connection lost"))) {
        Err(ObserveError::ZkError(text)) => assert_eq!(text, "connection lost"),
        other => panic!("{:?}", other),
    }
}

#[test]
fn names_rank_in_lexicographic_order() {
    let child = |name: &str| ElectionChild::try_from(name.to_string()).unwrap();
    assert!(child("a") < child("b"));
    assert!(child("a") < child("ab"));
    assert!(child("") < child("a"));
    assert!(child("B") < child("a"));
    assert!(child("z") < child("\u{e9}"));
    assert!(child("\u{ffff}") < child("\u{10000}"));
    assert!(child("a") == child("a"));
    assert_eq!(child("a").partial_cmp(&child("a")), Some(Ordering::Equal));
    assert_eq!(child("b").partial_cmp(&child("a")), Some(Ordering::Greater));
    assert_eq!(child("b").cmp(&child("a")), Ordering::Greater);
    assert_eq!(child("a").cmp(&child("a")), Ordering::Equal);
    assert_eq!(child("").cmp(&child("a")), Ordering::Less);
    assert!(child("guid-n_0000000009") < child("guid-n_0000000010"));
    assert!(child("guid-n_10") < child("guid-n_9"));
}

#[test]
fn first_name_leads_and_watches_its_own_path() {
    let checking = round("guid-n_0000000001", &["guid-n_0000000002", "guid-n_0000000001"]);
    assert_eq!(checking.watched_path(), "/election/guid-n_0000000001");
    let announcing = checking.checked(Ok(true)).unwrap().unwrap();
    assert_eq!(announcing.state(), LeadershipState::Leader);
}

#[test]
fn other_names_watch_the_one_right_ahead() {
    let names = ["n_4", "n_1", "n_3"];
    let checking = round("n_4", &names);
    assert_eq!(checking.watched_path(), "/election/n_3");
    let announcing = checking.checked(Ok(true)).unwrap().unwrap();
    assert_eq!(announcing.state(), LeadershipState::Follower);
    assert_eq!(round("n_3", &names).watched_path(), "/election/n_1");
}

#[test]
fn participant_is_found_by_its_full_path() {
    let me = participant("b");
    assert_eq!(me.position(&children(&["a", "b"])), Some(1));
    assert_eq!(me.position(&children(&["a", "/election/b"])), None);
    assert_eq!(me.position(&children(&[])), None);
    assert_eq!(me.get_full_path(&children(&["a"])[0]), "/election/a");
    assert_eq!(me.election_path(), "/election");
    assert_eq!(*me.zk(), 7);
}

#[test]
fn failed_listing_fails_the_round() {
    let me = participant("b");
    let e = me.observe_once(Err(ObserveError::NoParticipants)).unwrap_err();
    assert!(matches!(e, ObserveError::NoParticipants));
}

#[test]
fn missing_node_fails_a_leader_and_frees_a_follower() {
    let e = round("a", &["a", "b"]).checked(Ok(false)).unwrap_err();
    assert!(matches!(e, ObserveError::LeaderNodeMissing));
    assert!(round("b", &["a", "b"]).checked(Ok(false)).unwrap().is_none());
    match round("b", &["a", "b"]).checked(Err(Failure::new("connection lost"))) {
        Err(ObserveError::ZkError(text)) => assert_eq!(text, "connection lost"),
        other => panic!("{:?}", other),
    }
}

#[test]
fn state_that_nobody_receives_fails_the_round() {
    let announcing = round("a", &["a"]).checked(Ok(true)).unwrap().unwrap();
    let state = announcing.state();
    match announcing.announced(Err(SendError(state))) {
        Err(ObserveError::SendError(text)) => assert_eq!(text, "channel closed"),
        other => panic!("{:?}", other),
    }
}

#[test]
fn watch_ends_the_round() {
    let watching = |me: &str| {
        let announcing = round(me, &["a", "b"]).checked(Ok(true)).unwrap().unwrap();
        announcing.announced(Ok(())).unwrap()
    };
    let changed = || WatchedEventType::Other("NodeDataChanged".to_string());
    assert!(matches!(watching("a").fired(Err(Canceled)), Err(ObserveError::Canceled)));
    assert!(matches!(watching("b").fired(Err(Canceled)), Err(ObserveError::Canceled)));
    assert!(matches!(
        watching("a").fired(Ok(WatchedEventType::NodeDeleted)),
        Err(ObserveError::LeaderNodeChanged)
    ));
    assert!(matches!(
        watching("a").fired(Ok(changed())),
        Err(ObserveError::LeaderNodeChanged)
    ));
    assert!(watching("b").fired(Ok(WatchedEventType::NodeDeleted)).is_ok());
    match watching("b").fired(Ok(changed())) {
        Err(ObserveError::FollowerNodeUnexpectedChange(name)) => {
            assert_eq!(name, "NodeDataChanged")
        }
        other => panic!("{:?}", other),
    }
}

#[test]
fn errors_are_announced_in_words() {
    let me = participant("a");
    let text = || "some text".to_string();
    for (error, said) in [
        (
            ObserveError::Canceled,
            "Watch receiver canceled, server disconnected?",
        ),
        (ObserveError::ZkError(text()), "ZooKeeper error"),
        (ObserveError::LeaderNodeMissing, "Leader's znode was missing"),
        (ObserveError::LeaderNodeChanged, "Leader's znode has changed"),
        (ObserveError::NoParticipants, "No leader election participants"),
        (
            ObserveError::FollowerNodeUnexpectedChange(text()),
            "Unexpected change to follower ephemeral node",
        ),
    ] {
        let verdict = me.observe(Err(error));
        assert_eq!(verdict, Verdict::Stop(Some(LeadershipState::Error(said))));
    }
    assert_eq!(me.observe(Err(ObserveError::SendError(text()))), Verdict::Stop(None));
    assert_eq!(me.observe(Ok(())), Verdict::Continue);
}

#[test]
fn errors_are_made_from_their_causes() {
    let e = ObserveError::from(Failure::new("no route"));
    assert!(matches!(e, ObserveError::ZkError(text) if text == "no route"));
    let e = ObserveError::from(SendError(LeadershipState::Follower));
    assert!(matches!(e, ObserveError::SendError(text) if text == "channel closed"));
    assert!(matches!(ObserveError::from(Canceled), ObserveError::Canceled));
}

#[test]
fn volunteer_asks_for_a_numbered_node() {
    let (volunteer, request) = LeaderElection::new(7, "/election").volunteer();
    assert_eq!(request.path, "/election/guid-n_");
    assert!(request.data.is_empty());
    assert_eq!(request.acl, OpenUnsafe);
    assert!(matches!(request.mode, CreateMode::EphemeralSequential));
    assert_eq!(*volunteer.zk(), 7);
    assert_eq!(volunteer.election_node(), "/election");
}

#[test]
fn answer_decides_whether_a_volunteer_joins() {
    let volunteer = || LeaderElection::new(7, "/election").volunteer().0;
    let path = "/election/guid-n_0000000003".to_string();
    match volunteer().created(CreateReply::Created(path.clone())) {
        Joining::Joined(joined) => {
            assert_eq!(joined.path, path);
            assert_eq!(joined.state, LeadershipState::Uninitialized);
            assert_eq!(*joined.candidate.zk(), 7);
            assert_eq!(
                joined.candidate.position(&children(&["guid-n_0000000003"])),
                Some(0)
            );
        }
        other => panic!("{:?}", other),
    }
    match volunteer().created(CreateReply::Refused(Failure::new("no parent"))) {
        Joining::Failed(e) => {
            assert_eq!(e.to_string(), "can't create ephemeral node, unrecoverable error");
            assert_eq!(e.causes, ["no parent"]);
        }
        other => panic!("{:?}", other),
    }
    assert!(matches!(volunteer().created(CreateReply::Lost), Joining::Search(_)));
}

#[test]
fn search_takes_the_first_numbered_node() {
    let volunteer = || LeaderElection::new(7, "/election").volunteer().0;
    let listed = || children(&["lock", "guid-n_0000000003", "guid-n_0000000001"]);
    let joined = volunteer().searched(Ok(listed())).unwrap();
    assert_eq!(joined.path, "/election/guid-n_0000000003");
    assert_eq!(joined.candidate.position(&listed()), Some(1));
    let checking = joined.candidate.observe_once(Ok(listed())).unwrap();
    assert_eq!(checking.watched_path(), "/election/guid-n_0000000001");
    let e = volunteer().searched(Ok(children(&["lock", "guid-n"]))).unwrap_err();
    assert_eq!(e.to_string(), "can't find my guid");
    assert!(e.causes.is_empty());
    let e = volunteer().searched(Err(ObserveError::NoParticipants)).unwrap_err();
    assert_eq!(e.to_string(), "retry failed");
    assert_eq!(e.causes, ["NoParticipants"]);
    let lost = ObserveError::ZkError("connection \"a\" lost\n".to_string());
    let e = volunteer().searched(Err(lost)).unwrap_err();
    assert_eq!(e.causes, ["ZkError(\"connection \\\"a\\\" lost\\n\")"]);
}

#[test]
fn second_name_takes_over_from_the_first() {
    let first = participant("guid-n_0000000009");
    let second = participant("guid-n_0000000010");

    // the first participant becomes the leader
    let alone = first.observe_once(Ok(children(&["guid-n_0000000009"]))).unwrap();
    let alone = alone.checked(Ok(true)).unwrap().unwrap();
    assert_eq!(alone.state(), LeadershipState::Leader);

    // the second participant is not the leader
    let both = children(&["guid-n_0000000010", "guid-n_0000000009"]);
    let behind = second.observe_once(Ok(both)).unwrap();
    assert_eq!(behind.watched_path(), "/election/guid-n_0000000009");
    let behind = behind.checked(Ok(true)).unwrap().unwrap();
    assert_eq!(behind.state(), LeadershipState::Follower);
    let outcome = behind
        .announced(Ok(()))
        .unwrap()
        .fired(Ok(WatchedEventType::NodeDeleted));
    assert_eq!(second.observe(outcome), Verdict::Continue);

    // the second participant now becomes the leader
    let left = second.observe_once(Ok(children(&["guid-n_0000000010"]))).unwrap();
    let left = left.checked(Ok(true)).unwrap().unwrap();
    assert_eq!(left.state(), LeadershipState::Leader);
}

#[test]
fn errors_are_written_in_full() {
    let text = || "caf\u{e9} \\ \"x\"\t".to_string();
    for error in [
        ObserveError::Canceled,
        ObserveError::ZkError(text()),
        ObserveError::SendError(text()),
        ObserveError::LeaderNodeMissing,
        ObserveError::LeaderNodeChanged,
        ObserveError::FollowerNodeUnexpectedChange(text()),
        ObserveError::NoParticipants,
    ] {
        assert_eq!(error.write_in_full(), format!("{:?}", error));
    }
}

/// The states that a participant announces in a round and after it, and whether
/// it goes on. The watched node is there, unless it is said to be `gone`.
fn told(me: &str, names: &[&str], gone: bool, heard: bool) -> (Vec<LeadershipState>, bool) {
    let mut states = vec![];
    let outcome = match round(me, names).checked(Ok(!gone)) {
        Ok(Some(announcing)) => {
            let state = announcing.state();
            states.push(state);
            let sent = if heard { Ok(()) } else { Err(SendError(state)) };
            match announcing.announced(sent) {
                Ok(watching) => watching.fired(Ok(WatchedEventType::NodeDeleted)),
                Err(e) => Err(e),
            }
        }
        Ok(None) => Ok(()),
        Err(e) => Err(e),
    };
    match participant(me).observe(outcome) {
        Verdict::Continue => (states, true),
        Verdict::Stop(None) => (states, false),
        Verdict::Stop(Some(state)) => {
            states.push(state);
            (states, false)
        }
    }
}

#[test]
fn states_of_a_name_come_in_order() {
    let follower = LeadershipState::Follower;
    let leader = LeadershipState::Leader;
    assert_eq!(told("c", &["a", "b", "c"], false, true), (vec![follower], true));
    assert_eq!(told("c", &["a", "b", "c"], true, true), (vec![], true));
    assert_eq!(told("c", &["a", "c"], false, true), (vec![follower], true));
    assert_eq!(
        told("c", &["c"], false, true),
        (vec![leader, LeadershipState::Error("Leader's znode has changed")], false)
    );
    assert_eq!(
        told("c", &["c"], true, true),
        (vec![LeadershipState::Error("Leader's znode was missing")], false)
    );
    assert_eq!(told("c", &["c"], false, false), (vec![leader], false));
}

#[test]
fn names_are_asked_for_six_times() {
    let (mut volunteer, _) = LeaderElection::new(7, "/election").volunteer();
    let mut attempts = volunteer.attempts();
    let mut asked = 1;
    let failure = loop {
        // whatever the error
        let error = if asked % 2 == 0 {
            ObserveError::NoParticipants
        } else {
            ObserveError::ZkError("connection lost".to_string())
        };
        match volunteer.listed(attempts, Err(error)) {
            Searching::Retry(again, nanos, fewer) => {
                assert!(nanos >= 100_000_000 && nanos <= 15_000_000_000);
                asked = asked + 1;
                volunteer = again;
                attempts = fewer;
            }
            Searching::Ended(outcome) => break outcome.unwrap_err(),
        }
    };
    assert_eq!(asked, 6);
    assert_eq!(failure.to_string(), "retry failed");
    assert_eq!(failure.causes, ["NoParticipants"]);
}

#[test]
fn first_listing_of_names_ends_the_search() {
    for failures in 0..6 {
        let (mut volunteer, _) = LeaderElection::new(7, "/election").volunteer();
        let mut attempts = volunteer.attempts();
        for _ in 0..failures {
            match volunteer.listed(attempts, Err(ObserveError::NoParticipants)) {
                Searching::Retry(again, _, fewer) => {
                    volunteer = again;
                    attempts = fewer;
                }
                other => panic!("{:?}", other),
            }
        }
        match volunteer.listed(attempts, Ok(children(&["lock", "guid-n_0000000004"]))) {
            Searching::Ended(Ok(joined)) => assert_eq!(joined.path, "/election/guid-n_0000000004"),
            other => panic!("{:?}", other),
        }
    }
    let (volunteer, _) = LeaderElection::new(7, "/election").volunteer();
    let attempts = volunteer.attempts();
    match volunteer.listed(attempts, Ok(children(&[]))) {
        Searching::Ended(Err(e)) => assert_eq!(e.to_string(), "can't find my guid"),
        other => panic!("{:?}", other),
    }
}
