//! The election among participants with identifiers.

use futures::channel::oneshot::Canceled;
use std::cmp::Ordering;
use tokio::sync::watch::error::SendError;
use uuid::Uuid;
use zookeeper_recipes::recipes::exchange::{CreateMode, CreateReply, WatchedEventType};
use zookeeper_recipes::recipes::leader::{
    get_children, is_retryable, Attempts, Candidate, Checking, ElectionChild, Joined, Joining,
    LeaderElection, LeadershipState, Searching, Verdict,
};
use zookeeper_recipes::Failure;

const GUID: &str = "67e55044-10b1-426f-9247-bb680e5fe0c8";
const OTHER_GUID: &str = "00000000-0000-0000-0000-0000000000ff";
const THIRD_GUID: &str = "00000000-0000-0000-0000-00000000abcd";

static ACL: &[&str] = &["world:anyone"];

fn message(failure: &Failure) -> String {
    failure.to_string()
}

fn name(guid: &str, number: &str) -> String {
    format!("{}-n_{}", guid, number)
}

/// A participant whose node has the given name, and a connection that is known
/// by a number.
fn candidate(name: &str) -> Candidate<u32> {
    let election = LeaderElection::new(7, "/election", ACL);
    let (volunteer, _) = election.volunteer_as(0);
    match volunteer.created(CreateReply::Created(format!("/election/{}", name))) {
        Joining::Joined(joined) => joined.candidate,
        _ => panic!("the volunteer did not join"),
    }
}

fn listing(names: &[String]) -> Result<Vec<ElectionChild>, Failure> {
    get_children("/election", Ok(Some(names.to_vec())))
}

/// The round of a participant that is the first, or right after another.
fn opened(me: &str, names: &[String]) -> Checking {
    candidate(me).observe_once(listing(names)).unwrap()
}

#[test]
fn parse_path() {
    let guid = Uuid::new_v4();
    let ok_path = format!("/election/{}-n_000123", guid);
    let c = ElectionChild::try_from_full_path(&ok_path, "/election").unwrap();
    assert_eq!(c.election_prefix, "/election");
    assert_eq!(c.path, format!("{}-n_000123", guid));
    assert_eq!(c.guid, guid.as_u128());
    assert_eq!(c.full_path(), format!("/election/{}-n_000123", guid));
}

#[test]
fn sequence_number_is_read_from_the_path() {
    let c = ElectionChild::try_from_full_path(&format!("/election/{}-n_000123", GUID), "/election")
        .unwrap();
    assert_eq!(c.seq, 123);
    assert_eq!(c.guid, 0x67e55044_10b1_426f_9247_bb680e5fe0c8);
}

#[test]
fn path_outside_the_election_is_refused() {
    let e = ElectionChild::try_from_full_path("/other/x-n_1", "/election").unwrap_err();
    assert_eq!(
        message(&e),
        "wrong format of a child node; must start with election prefix /election"
    );
}

#[test]
fn path_beside_the_election_is_refused() {
    let path = format!("/elections/{}-n_1", GUID);
    let e = ElectionChild::try_from_full_path(&path, "/election").unwrap_err();
    assert_eq!(message(&e), "wrong format of a child node; must be `/prefix/path`");
    let e = ElectionChild::try_from_full_path("/election", "/election").unwrap_err();
    assert_eq!(message(&e), "wrong format of a child node; must be `/prefix/path`");
}

#[test]
fn name_needs_one_separator() {
    let wrong = "wrong format of a child node's path; must `<guid>-n_<number>`";
    for name in ["", "abc", "a-n_b-n_c", "-n_-n_", "-n-_", "n_1"] {
        let path = format!("/election/{}", name);
        let e = ElectionChild::try_from_full_path(&path, "/election").unwrap_err();
        assert_eq!(message(&e), wrong);
        let e = ElectionChild::try_from_parts("/election", name).unwrap_err();
        assert_eq!(message(&e), wrong);
    }
}

#[test]
fn name_needs_an_identifier() {
    for guid in ["", "guid", "67e55044-10b1-426f-9247-bb680e5fe0c", "67e5504410b1-426f-9247-bb680e5fe0c8xx"] {
        let path = format!("/election/{}-n_1", guid);
        let e = ElectionChild::try_from_full_path(&path, "/election").unwrap_err();
        assert_eq!(message(&e), "Can't parse node's guid");
        let e = ElectionChild::try_from_parts("/election", &format!("{}-n_1", guid)).unwrap_err();
        assert_eq!(message(&e), "Can't parse node's guid");
    }
}

#[test]
fn identifier_comes_in_four_forms() {
    let value = 0x67e55044_10b1_426f_9247_bb680e5fe0c8;
    for guid in [
        "67e5504410b1426f9247bb680e5fe0c8",
        "67E55044-10B1-426F-9247-BB680E5FE0C8",
        "{67e55044-10b1-426f-9247-bb680e5fe0c8}",
        "urn:uuid:67e55044-10b1-426f-9247-bb680e5fe0c8",
        "URN:uuid:67e55044-10b1-426f-9247-bb680e5fe0c8",
    ] {
        let c = ElectionChild::try_from_parts("/election", &format!("{}-n_5", guid)).unwrap();
        assert_eq!(c.guid, value);
        assert_eq!(c.seq, 5);
    }
    for guid in [
        "{67e5504410b1426f9247bb680e5fe0c8}",
        "urn:uuid:67e5504410b1426f9247bb680e5fe0c8",
        "{67e55044-10b1-426f-9247-bb680e5fe0c8",
        "67e55044_10b1-426f-9247-bb680e5fe0c8",
        "67e5504410b1426f9247bb680e5fe0cg",
        "67e5504410b1426f9247bb680e5fe0c\u{e9}",
    ] {
        assert!(ElectionChild::try_from_parts("/election", &format!("{}-n_5", guid)).is_err());
    }
}

#[test]
fn name_needs_a_number() {
    for number in ["", "+", "-1", "1x", " 1", "4294967296", "99999999999999999999", "++1"] {
        let path = format!("/election/{}", name(GUID, number));
        let e = ElectionChild::try_from_full_path(&path, "/election").unwrap_err();
        assert_eq!(
            message(&e),
            "cant parse node's sequential number as u32 from {full_path}: {e}"
        );
        let e = ElectionChild::try_from_parts("/election", &name(GUID, number)).unwrap_err();
        assert_eq!(
            message(&e),
            format!(
                "cant parse node's sequential number as u32 from prefix `/election` and path `{}`",
                name(GUID, number)
            )
        );
    }
}

#[test]
fn numbers_up_to_the_largest_are_read() {
    for (number, seq) in [
        ("0", 0),
        ("+7", 7),
        ("0000000010", 10),
        ("00000000000000000010", 10),
        ("4294967295", u32::MAX),
    ] {
        let c = ElectionChild::try_from_parts("/election", &name(GUID, number)).unwrap();
        assert_eq!(c.seq, seq);
    }
}

#[test]
fn node_is_read_back_from_its_path() {
    let c = ElectionChild::try_from_parts("/a/b", &name(GUID, "0000000042")).unwrap();
    let again = ElectionChild::try_from_full_path(&c.full_path(), "/a/b").unwrap();
    assert!(c == again);
}

#[test]
fn nodes_are_equal_in_all_and_ranked_by_number() {
    let a = ElectionChild::try_from_parts("/election", &name(GUID, "5")).unwrap();
    let b = ElectionChild::try_from_parts("/election", &name(OTHER_GUID, "5")).unwrap();
    let c = ElectionChild::try_from_parts("/election", &name(GUID, "40")).unwrap();
    assert!(a != b);
    assert_eq!(a.cmp(&b), Ordering::Equal);
    assert_eq!(a.cmp(&c), Ordering::Less);
    assert_eq!(c.cmp(&a), Ordering::Greater);
    assert_eq!(a.partial_cmp(&c), Some(Ordering::Less));
    assert!(a < c);
}

#[test]
fn malformed_names_are_passed_over() {
    let names = vec![
        name(GUID, "2"),
        "lock".to_string(),
        name("guid", "1"),
        name(OTHER_GUID, "1"),
        name(OTHER_GUID, "one"),
    ];
    let children = get_children("/election", Ok(Some(names))).unwrap();
    assert_eq!(children.len(), 2);
    assert_eq!(children[0].full_path(), format!("/election/{}", name(GUID, "2")));
    assert_eq!(children[1].seq, 1);
}

#[test]
fn missing_election_lists_nobody() {
    assert_eq!(get_children("/election", Ok(None)).unwrap().len(), 0);
    let e = get_children("/election", Err(Failure::new("connection lost"))).unwrap_err();
    assert_eq!(message(&e), "connection lost");
}

#[test]
fn lowest_number_leads_and_watches_itself() {
    let names = [name(OTHER_GUID, "0000000010"), name(GUID, "0000000009")];
    let checking = opened(&names[1], &names);
    assert_eq!(checking.watched_path(), format!("/election/{}", names[1]));
    let announcing = checking.checked(Ok(true)).unwrap().unwrap();
    assert_eq!(announcing.state(), LeadershipState::Leader);
}

#[test]
fn follower_watches_the_nearest_number_below() {
    let names = [
        name(GUID, "30"),
        name(OTHER_GUID, "4"),
        name(THIRD_GUID, "20"),
        "noise".to_string(),
    ];
    let checking = opened(&names[0], &names);
    assert_eq!(checking.watched_path(), format!("/election/{}", names[2]));
    let announcing = checking.checked(Ok(true)).unwrap().unwrap();
    assert_eq!(announcing.state(), LeadershipState::Follower);
    let checking = opened(&names[2], &names);
    assert_eq!(checking.watched_path(), format!("/election/{}", names[1]));
}

#[test]
fn of_equal_numbers_the_first_listed_goes_first() {
    let names = [name(GUID, "5"), name(OTHER_GUID, "5")];
    let checking = opened(&names[0], &names);
    assert_eq!(checking.watched_path(), format!("/election/{}", names[0]));
    let checking = opened(&names[1], &names);
    assert_eq!(checking.watched_path(), format!("/election/{}", names[0]));
}

#[test]
fn unlisted_participant_tries_again() {
    let me = candidate(&name(GUID, "5"));
    let e = me.observe_once(listing(&[name(OTHER_GUID, "5")])).unwrap_err();
    assert_eq!(message(&e), "The ephemeral znode of the participant was not found");
    assert!(is_retryable(&e));
    let e = me.observe_once(Err(Failure::new("connection lost"))).unwrap_err();
    assert_eq!(message(&e), "connection lost");
    assert!(!is_retryable(&e));
}

#[test]
fn same_number_under_another_identifier_is_another_participant() {
    let me = candidate(&name(GUID, "5"));
    assert!(me.observe_once(listing(&[name(OTHER_GUID, "5")])).is_err());
    assert!(me.observe_once(listing(&[name(GUID, "05")])).is_err());
    assert!(me.observe_once(listing(&[name(GUID, "5")])).is_ok());
}

#[test]
fn leader_without_a_node_fails() {
    let me = name(GUID, "5");
    let e = opened(&me, &[me.clone()]).checked(Ok(false)).unwrap_err();
    assert_eq!(message(&e), "Leader's znode was missing");
    let e = opened(&me, &[me.clone()])
        .checked(Err(Failure::new("connection lost")))
        .unwrap_err();
    assert_eq!(message(&e), "connection lost");
}

#[test]
fn unheard_announcement_fails() {
    let me = name(GUID, "5");
    let announcing = opened(&me, &[me.clone()]).checked(Ok(true)).unwrap().unwrap();
    let state = announcing.state();
    let e = announcing.announced(Err(SendError(state))).unwrap_err();
    assert_eq!(message(&e), "Can't send leadership state update");
    assert_eq!(e.causes, [SendError(state).to_string()]);
    assert!(!is_retryable(&e));
}

#[test]
fn every_change_to_a_leader_fails() {
    let me = name(GUID, "5");
    for (event, said) in [
        (
            Ok(WatchedEventType::NodeDeleted),
            "Unexpected change to the leader's node: NodeDeleted",
        ),
        (
            Ok(WatchedEventType::Other("NodeDataChanged".to_string())),
            "Unexpected change to the leader's node: NodeDataChanged",
        ),
        (Err(Canceled), "Watch receiver canceled, server disconnected?"),
    ] {
        let announcing = opened(&me, &[me.clone()]).checked(Ok(true)).unwrap().unwrap();
        let causes = match &event {
            Ok(_) => vec![],
            Err(canceled) => vec![canceled.to_string()],
        };
        let e = announcing.announced(Ok(())).unwrap().fired(event).unwrap_err();
        assert_eq!(message(&e), said);
        assert_eq!(e.causes, causes);
        assert!(!is_retryable(&e));
        let me = candidate(&me);
        assert!(matches!(
            me.observe(me.attempts(), Err(e)),
            Verdict::Stop(LeadershipState::Error)
        ));
    }
}

#[test]
fn follower_goes_on_when_the_node_ahead_is_gone() {
    let names = [name(OTHER_GUID, "1"), name(GUID, "2")];
    let me = candidate(&names[1]);

    // gone before the watch was set
    let step = opened(&names[1], &names).checked(Ok(false)).unwrap();
    assert!(step.is_none());
    assert!(matches!(me.observe(me.attempts(), Ok(())), Verdict::Continue(_)));

    // gone later
    let announcing = opened(&names[1], &names).checked(Ok(true)).unwrap().unwrap();
    let watching = announcing.announced(Ok(())).unwrap();
    assert!(watching.fired(Ok(WatchedEventType::NodeDeleted)).is_ok());

    // changed in another way
    let announcing = opened(&names[1], &names).checked(Ok(true)).unwrap().unwrap();
    let watching = announcing.announced(Ok(())).unwrap();
    let e = watching
        .fired(Ok(WatchedEventType::Other("NodeDataChanged".to_string())))
        .unwrap_err();
    assert_eq!(
        message(&e),
        "Unexpected change to the follower's node: NodeDataChanged"
    );
}

#[test]
fn volunteer_asks_for_a_node_of_its_own() {
    let election = LeaderElection::new(7, "/election", ACL);
    let (volunteer, request) = election.volunteer_as(0x67e55044_10b1_426f_9247_bb680e5fe0c8);
    assert_eq!(request.path, format!("/election/{}-n_", GUID));
    assert!(request.data.is_empty());
    assert_eq!(request.acl, ACL);
    assert!(matches!(request.mode, CreateMode::EphemeralSequential));
    assert_eq!(*volunteer.zk(), 7);
    assert_eq!(volunteer.election_prefix(), "/election");
}

#[test]
fn volunteers_have_random_identifiers() {
    let (_, first) = LeaderElection::new(1, "/election", ACL).volunteer();
    let (_, second) = LeaderElection::new(2, "/election", ACL).volunteer();
    assert_ne!(first.path, second.path);
    let c = ElectionChild::try_from_full_path(&format!("{}0000000001", first.path), "/election")
        .unwrap();
    let guid = Uuid::from_u128(c.guid);
    assert_eq!(guid.get_version_num(), 4);
    assert_eq!(guid.get_variant(), uuid::Variant::RFC4122);
}

#[test]
fn created_volunteer_joins_with_its_node() {
    let election = LeaderElection::new(7, "/election", ACL);
    let (volunteer, request) = election.volunteer();
    let path = format!("{}0000000012", request.path);
    match volunteer.created(CreateReply::Created(path.clone())) {
        Joining::Joined(Joined { candidate, path: joined, state }) => {
            assert_eq!(joined, path);
            assert_eq!(state, LeadershipState::Uninitialized);
            assert_eq!(*candidate.zk(), 7);
            assert_eq!(candidate.election_prefix(), "/election");
            let own = path.strip_prefix("/election/").unwrap().to_string();
            let checking = candidate.observe_once(listing(&[own])).unwrap();
            assert_eq!(checking.watched_path(), path);
        }
        other => panic!("{:?}", other),
    }
}

#[test]
fn refused_volunteer_does_not_join() {
    let (volunteer, _) = LeaderElection::new(7, "/election", ACL).volunteer();
    match volunteer.created(CreateReply::Refused(Failure::from_cause(
        "no parent".to_string(),
        "code -101".to_string(),
    ))) {
        Joining::Failed(e) => {
            assert_eq!(message(&e), "can't create ephemeral node, unrecoverable error");
            assert_eq!(e.causes, ["no parent", "code -101"]);
        }
        other => panic!("{:?}", other),
    }
}

#[test]
fn volunteer_with_a_strange_node_does_not_join() {
    let (volunteer, _) = LeaderElection::new(7, "/election", ACL).volunteer();
    match volunteer.created(CreateReply::Created("/election/lock".to_string())) {
        Joining::Failed(e) => {
            assert_eq!(message(&e), "wrong format of the election child node");
            assert_eq!(
                e.causes,
                ["wrong format of a child node's path; must `<guid>-n_<number>`"]
            );
        }
        other => panic!("{:?}", other),
    }
}

#[test]
fn lost_volunteer_finds_its_node() {
    let names = [name(OTHER_GUID, "1"), name(GUID, "2"), name(GUID, "3")];
    let guid = Uuid::parse_str(GUID).unwrap().as_u128();
    let (volunteer, _) = LeaderElection::new(7, "/election", ACL).volunteer_as(guid);
    let volunteer = match volunteer.created(CreateReply::Lost) {
        Joining::Search(volunteer) => volunteer,
        other => panic!("{:?}", other),
    };
    let joined = volunteer.searched(listing(&names)).unwrap();
    assert_eq!(joined.path, format!("/election/{}", names[1]));
    let checking = joined.candidate.observe_once(listing(&names)).unwrap();
    assert_eq!(checking.watched_path(), format!("/election/{}", names[0]));
}

#[test]
fn lost_volunteer_without_a_node_does_not_join() {
    let (volunteer, _) = LeaderElection::new(7, "/election", ACL).volunteer_as(5);
    let e = volunteer.searched(listing(&[name(GUID, "2")])).unwrap_err();
    assert_eq!(message(&e), "can't find a znode with my guid");
    let (volunteer, _) = LeaderElection::new(7, "/election", ACL).volunteer_as(5);
    assert!(e.causes.is_empty());
    let lost = Failure::from_cause("connection lost".to_string(), "reset by peer".to_string());
    let e = volunteer.searched(Err(lost)).unwrap_err();
    assert_eq!(message(&e), "can't get leader election nodes, retry failed");
    assert_eq!(e.causes, ["connection lost", "reset by peer"]);
}

/// Delays that double from a tenth of a second on, each lengthened by no more than
/// itself.
fn assert_growing(delays: &[u128]) {
    let mut shortest = 100_000_000;
    for nanos in delays {
        assert!(*nanos >= shortest && *nanos <= shortest * 2 + 1_000_000);
        shortest = shortest * 2;
    }
}

#[test]
fn participants_are_asked_for_six_times() {
    let (mut volunteer, _) = LeaderElection::new(7, "/election", ACL).volunteer_as(5);
    let mut attempts = volunteer.attempts();
    let mut delays = vec![];
    let failure = loop {
        let lost = Failure::new(&format!("lost {}", delays.len()));
        match volunteer.listed(attempts, Err(lost)) {
            Searching::Retry(again, nanos, fewer) => {
                delays.push(nanos);
                volunteer = again;
                attempts = fewer;
            }
            Searching::Ended(outcome) => break outcome.unwrap_err(),
        }
    };
    assert_eq!(delays.len(), 5);
    assert_growing(&delays);
    assert_eq!(message(&failure), "can't get leader election nodes, retry failed");
    assert_eq!(failure.causes, ["lost 5"]);
}

#[test]
fn first_listing_ends_the_search() {
    let guid = Uuid::parse_str(GUID).unwrap().as_u128();
    for failures in 0..6 {
        let (mut volunteer, _) = LeaderElection::new(7, "/election", ACL).volunteer_as(guid);
        let mut attempts = volunteer.attempts();
        for _ in 0..failures {
            match volunteer.listed(attempts, Err(Failure::new("connection lost"))) {
                Searching::Retry(again, _, fewer) => {
                    volunteer = again;
                    attempts = fewer;
                }
                other => panic!("{:?}", other),
            }
        }
        match volunteer.listed(attempts, listing(&[name(OTHER_GUID, "1"), name(GUID, "2")])) {
            Searching::Ended(Ok(joined)) => {
                assert_eq!(joined.path, format!("/election/{}", name(GUID, "2")))
            }
            other => panic!("{:?}", other),
        }
    }
    // a listing without the node ends it too
    let (volunteer, _) = LeaderElection::new(7, "/election", ACL).volunteer_as(5);
    let attempts = volunteer.attempts();
    match volunteer.listed(attempts, listing(&[])) {
        Searching::Ended(Err(e)) => assert_eq!(message(&e), "can't find a znode with my guid"),
        other => panic!("{:?}", other),
    }
}

/// The delays, in nanoseconds, after which a round is tried again that the
/// participant is not listed in, until it stops.
fn retries(me: &Candidate<u32>, mut attempts: Attempts) -> Vec<u128> {
    let mut delays = vec![];
    loop {
        let e = me.observe_once(listing(&[])).unwrap_err();
        match me.observe(attempts, Err(e)) {
            Verdict::Retry(nanos, fewer) => {
                delays.push(nanos);
                attempts = fewer;
            }
            Verdict::Stop(LeadershipState::Error) => return delays,
            other => panic!("{:?}", other),
        }
    }
}

#[test]
fn sixth_unlisted_attempt_in_a_row_is_the_last() {
    let me = candidate(&name(GUID, "1"));
    let delays = retries(&me, me.attempts());
    assert_eq!(delays.len(), 5);
    assert_growing(&delays);
}

#[test]
fn round_that_goes_well_restores_all_attempts() {
    let me = candidate(&name(GUID, "1"));
    let mut attempts = me.attempts();
    for _ in 0..4 {
        let e = me.observe_once(listing(&[])).unwrap_err();
        attempts = match me.observe(attempts, Err(e)) {
            Verdict::Retry(_, fewer) => fewer,
            other => panic!("{:?}", other),
        };
    }
    match me.observe(attempts, Ok(())) {
        Verdict::Continue(fresh) => assert_eq!(retries(&me, fresh).len(), 5),
        other => panic!("{:?}", other),
    }
}

#[test]
fn other_failures_use_up_no_attempts() {
    let me = candidate(&name(GUID, "1"));
    let e = me.observe_once(Err(Failure::new("connection lost"))).unwrap_err();
    assert!(matches!(
        me.observe(me.attempts(), Err(e)),
        Verdict::Stop(LeadershipState::Error)
    ));
}

#[test]
fn failures_to_read_a_name_say_why() {
    for guid in ["", "guid", "67e5504410b1426f9247bb680e5fe0cg", "67e55044_10b1-426f-9247-bb680e5fe0c8"] {
        let e = ElectionChild::try_from_parts("/election", &name(guid, "1")).unwrap_err();
        assert_eq!(message(&e), "Can't parse node's guid");
        assert_eq!(e.causes, [Uuid::parse_str(guid).unwrap_err().to_string()]);
    }
    for number in ["", "+", "-", "-1", "1x", "4294967296", "42949672950", "99999999999x", "x99999999999"] {
        let cause = number.parse::<u32>().unwrap_err().to_string();
        let e = ElectionChild::try_from_parts("/election", &name(GUID, number)).unwrap_err();
        assert_eq!(e.causes, [cause.clone()], "of {:?}", number);
        let path = format!("/election/{}", name(GUID, number));
        let e = ElectionChild::try_from_full_path(&path, "/election").unwrap_err();
        assert_eq!(e.causes, [cause], "of {:?}", number);
    }
    let e = ElectionChild::try_from_parts("/election", "lock").unwrap_err();
    assert!(e.causes.is_empty());
}

#[test]
fn failure_of_an_unreadable_node_keeps_all_causes() {
    let (volunteer, _) = LeaderElection::new(7, "/election", ACL).volunteer();
    let path = format!("/election/{}", name(GUID, "x"));
    match volunteer.created(CreateReply::Created(path)) {
        Joining::Failed(e) => {
            assert_eq!(message(&e), "wrong format of the election child node");
            assert_eq!(
                e.causes,
                [
                    "cant parse node's sequential number as u32 from {full_path}: {e}",
                    "invalid digit found in string",
                ]
            );
        }
        other => panic!("{:?}", other),
    }
}

#[test]
fn second_participant_takes_over_from_the_first() {
    let (volunteer1, request1) = LeaderElection::new(1, "/election", ACL).volunteer();
    let name1 = format!("{}0000000000", &request1.path["/election/".len()..]);
    let (volunteer2, request2) = LeaderElection::new(2, "/election", ACL).volunteer();
    let name2 = format!("{}0000000001", &request2.path["/election/".len()..]);
    let join = |step| match step {
        Joining::<u32, &str>::Joined(joined) => joined.candidate,
        other => panic!("{:?}", other),
    };
    let first = join(volunteer1.created(CreateReply::Created(format!("/election/{}", name1))));
    let second = join(volunteer2.created(CreateReply::Created(format!("/election/{}", name2))));

    // the first participant becomes the leader
    let round = first.observe_once(listing(&[name1.clone()])).unwrap();
    let round = round.checked(Ok(true)).unwrap().unwrap();
    assert_eq!(round.state(), LeadershipState::Leader);

    // the second participant is not the leader
    let both = [name2.clone(), name1.clone()];
    let round = second.observe_once(listing(&both)).unwrap();
    assert_eq!(round.watched_path(), format!("/election/{}", name1));
    let round = round.checked(Ok(true)).unwrap().unwrap();
    assert_eq!(round.state(), LeadershipState::Follower);
    let outcome = round
        .announced(Ok(()))
        .unwrap()
        .fired(Ok(WatchedEventType::NodeDeleted));
    assert!(matches!(
        second.observe(second.attempts(), outcome),
        Verdict::Continue(_)
    ));

    // the second participant now becomes the leader
    let round = second.observe_once(listing(&[name2.clone()])).unwrap();
    assert_eq!(round.watched_path(), format!("/election/{}", name2));
    let round = round.checked(Ok(true)).unwrap().unwrap();
    assert_eq!(round.state(), LeadershipState::Leader);
}

#[test]
fn listing_order_does_not_matter() {
    let (a, b, c) = (name(GUID, "1"), name(OTHER_GUID, "2"), name(THIRD_GUID, "3"));
    for names in [
        [a.clone(), b.clone(), c.clone()],
        [c.clone(), a.clone(), b.clone()],
        [b.clone(), c.clone(), a.clone()],
        [c.clone(), b.clone(), a.clone()],
    ] {
        assert_eq!(opened(&a, &names).watched_path(), format!("/election/{}", a));
        assert_eq!(opened(&b, &names).watched_path(), format!("/election/{}", a));
        assert_eq!(opened(&c, &names).watched_path(), format!("/election/{}", b));
    }
}

#[test]
fn leaving_concerns_only_the_next() {
    let (a, b, c) = (name(GUID, "1"), name(OTHER_GUID, "2"), name(THIRD_GUID, "3"));
    // the one in the middle leaves, and the last takes its place
    let left = [c.clone(), a.clone()];
    assert_eq!(opened(&a, &left).watched_path(), format!("/election/{}", a));
    assert_eq!(opened(&c, &left).watched_path(), format!("/election/{}", a));
    // the first leaves, and the last keeps its place
    let left = [c.clone(), b.clone()];
    assert_eq!(opened(&b, &left).watched_path(), format!("/election/{}", b));
    assert_eq!(opened(&c, &left).watched_path(), format!("/election/{}", b));
}

#[test]
fn newcomer_behind_moves_nobody() {
    let (a, b, c) = (name(GUID, "1"), name(OTHER_GUID, "2"), name(THIRD_GUID, "3"));
    for names in [vec![a.clone(), b.clone()], vec![c.clone(), a.clone(), b.clone()]] {
        assert_eq!(opened(&a, &names).watched_path(), format!("/election/{}", a));
        assert_eq!(opened(&b, &names).watched_path(), format!("/election/{}", a));
    }
}

/// The states that a participant announces in a round and after it, and whether
/// it goes on. The watched node is there, unless it is said to be `gone`.
fn told(
    me: &Candidate<u32>,
    names: &[String],
    gone: bool,
    event: WatchedEventType,
) -> (Vec<LeadershipState>, bool) {
    let mut states = vec![];
    let checking = me.observe_once(listing(names)).unwrap();
    let outcome = match checking.checked(Ok(!gone)) {
        Ok(Some(announcing)) => {
            states.push(announcing.state());
            announcing.announced(Ok(())).unwrap().fired(Ok(event))
        }
        Ok(None) => Ok(()),
        Err(e) => Err(e),
    };
    match me.observe(me.attempts(), outcome) {
        Verdict::Stop(state) => {
            states.push(state);
            (states, false)
        }
        _ => (states, true),
    }
}

#[test]
fn states_come_in_order() {
    let (a, b, c) = (name(GUID, "1"), name(OTHER_GUID, "2"), name(THIRD_GUID, "3"));
    let me = candidate(&c);
    let deleted = || WatchedEventType::NodeDeleted;
    let all = [a.clone(), b.clone(), c.clone()];
    assert_eq!(told(&me, &all, false, deleted()), (vec![LeadershipState::Follower], true));
    assert_eq!(told(&me, &all, true, deleted()), (vec![], true));
    let two = [a.clone(), c.clone()];
    assert_eq!(told(&me, &two, false, deleted()), (vec![LeadershipState::Follower], true));
    let alone = [c.clone()];
    assert_eq!(
        told(&me, &alone, false, deleted()),
        (vec![LeadershipState::Leader, LeadershipState::Error], false)
    );
    assert_eq!(told(&me, &alone, true, deleted()), (vec![LeadershipState::Error], false));
}
