//! What holds of the operations of an election, whatever they are given: laws on
//! their arguments and results alone.

use std::cmp::Ordering;
use vstd::prelude::*;

use crate::failure::{lemma_says, lemma_says_after, says, says_after, says_for, Failure};
use crate::guid::{
    guid_error, guid_error_words, guid_in, guid_text, law_written_identifier_has_the_digits,
};
use crate::recipes::backoff::Attempts;
use crate::recipes::exchange::{CreateMode, CreateReply, CreateRequest, WatchedEventType};
use crate::recipes::leader::candidate::{
    is_retryable, Announcing, Candidate, Checking, LeadershipState, Role, Verdict, Watching,
};
use crate::recipes::leader::child::{
    child_from_parts, get_children, law_full_path_is_read_back,
    law_participants_are_the_readable_names, law_path_and_name_are_read_alike, listed_names,
    participants, ElectionChild, ElectionChildView,
};
use crate::recipes::leader::election::{
    is_first_with_guid, Joined, Joining, LeaderElection, Searching, Volunteer,
};
use crate::recipes::ranking::{
    goes_before, is_first_at, is_foremost, is_just_before, stands_at, views, Place, Rankable,
};
use crate::text::{parse_u32, split_at_separator, texts, NumberFault};

verus! {

/// The two nodes agree in all that they hold.
pub open spec fn same_node(a: ElectionChild, b: ElectionChild) -> bool {
    a.election_prefix@ == b.election_prefix@ && a.path@ == b.path@ && a.guid == b.guid && a.seq
        == b.seq
}

/// The election's node, a slash, and the name.
pub open spec fn path_of(child: ElectionChild) -> Seq<char> {
    child.election_prefix@ + seq!['/'] + child.path@
}

proof fn lemma_same_node(a: ElectionChild, b: ElectionChild)
    ensures
        a@ == b@ <==> same_node(a, b),
{
}

/// Participants rank as their numbers do, however they are asked: one goes before
/// another exactly if its number is lower.
pub proof fn law_lower_number_goes_first(
    a: ElectionChild,
    b: ElectionChild,
    order: Ordering,
    partial: Option<Ordering>,
    below: bool,
)
    requires
        call_ensures(ElectionChild::cmp, (&a, &b), order),
        call_ensures(ElectionChild::partial_cmp, (&a, &b), partial),
        call_ensures(ElectionChild::is_below, (&a, &b), below),
    ensures
        order is Less <==> a.seq < b.seq,
        order is Greater <==> a.seq > b.seq,
        order is Equal <==> a.seq == b.seq,
        partial == Some(order),
        below <==> a.seq < b.seq,
{
}

/// Nodes are equal exactly if they agree in the election's node, the name, the
/// identifier and the number.
pub proof fn law_equal_nodes_agree_in_all(a: ElectionChild, b: ElectionChild, same: bool)
    requires
        call_ensures(ElectionChild::eq, (&a, &b), same),
    ensures
        same <==> a.election_prefix@ == b.election_prefix@ && a.path@ == b.path@ && a.guid == b.guid
            && a.seq == b.seq,
{
    lemma_same_node(a, b);
}

/// The path of a node leads through the election's node to its name.
pub proof fn law_node_has_its_path(child: ElectionChild, path: String)
    requires
        call_ensures(ElectionChild::full_path, (&child,), path),
    ensures
        path@ == child.election_prefix@ + seq!['/'] + child.path@,
{
}

/// The parts of a name are read one by one: a node is read from a name, or from a
/// path with that name, exactly if the name splits into an identifier and a
/// number, and then it holds these.
pub proof fn law_name_is_read_by_its_parts(
    full_path: &str,
    prefix: &str,
    name: &str,
    parts: Option<(&str, &str)>,
    number: Result<u32, NumberFault>,
    from_path: Result<ElectionChild, Failure>,
    from_name: Result<ElectionChild, Failure>,
)
    requires
        full_path@ == prefix@ + seq!['/'] + name@,
        call_ensures(split_at_separator, (name,), parts),
        parts matches Some((_, right)) ==> call_ensures(parse_u32, (right,), number),
        call_ensures(ElectionChild::try_from_full_path, (full_path, prefix), from_path),
        call_ensures(ElectionChild::try_from_parts, (prefix, name), from_name),
    ensures
        match parts {
            None => {
                let wrong = "wrong format of a child node's path; must `<guid>-n_<number>`"@;
                &&& from_path matches Err(failure) && says(failure, wrong)
                &&& from_name matches Err(failure) && says(failure, wrong)
            },
            Some((left, right)) => match guid_in(left@) {
                None => {
                    let words = guid_error_words(guid_error(left@));
                    &&& from_path matches Err(failure) && says_for(
                        failure,
                        "Can't parse node's guid"@,
                        words,
                    )
                    &&& from_name matches Err(failure) && says_for(
                        failure,
                        "Can't parse node's guid"@,
                        words,
                    )
                },
                Some(guid) => match number {
                    Err(fault) => {
                        let words = match fault {
                            NumberFault::Empty => "cannot parse integer from empty string"@,
                            NumberFault::InvalidDigit => "invalid digit found in string"@,
                            NumberFault::TooLarge => "number too large to fit in target type"@,
                        };
                        &&& from_path matches Err(failure) && says_for(
                            failure,
                            "cant parse node's sequential number as u32 from {full_path}: {e}"@,
                            words,
                        )
                        &&& from_name matches Err(failure) && says_for(
                            failure,
                            "cant parse node's sequential number as u32 from prefix `"@ + prefix@
                                + "` and path `"@ + name@ + "`"@,
                            words,
                        )
                    },
                    Ok(seq) => {
                        &&& from_path matches Ok(child) && child.election_prefix@ == prefix@
                            && child.path@ == name@ && child.guid == guid && child.seq == seq
                        &&& from_name matches Ok(child) && child.election_prefix@ == prefix@
                            && child.path@ == name@ && child.guid == guid && child.seq == seq
                    },
                },
            },
        },
{
    law_path_and_name_are_read_alike(prefix@, name@);
    assert(child_from_parts(prefix@, name@) is Err || parts is Some);
    if let Err(failure) = from_path {
        let cause = failure.causes@[0]@;
        assert(texts(failure.causes@) == failure@.causes);
        assert(failure.causes@.len() == failure@.causes.len());
        if failure@.causes.len() > 0 {
            assert(texts(failure.causes@)[0] == cause);
        }
    }
    if let Err(failure) = from_name {
        let cause = failure.causes@[0]@;
        assert(texts(failure.causes@) == failure@.causes);
        assert(failure.causes@.len() == failure@.causes.len());
        if failure@.causes.len() > 0 {
            assert(texts(failure.causes@)[0] == cause);
        }
    }
}

/// The text begins with these characters.
pub open spec fn begins_with(text: Seq<char>, start: Seq<char>) -> bool {
    start.len() <= text.len() && forall|i: int| 0 <= i < start.len() ==> text[i] == start[i]
}

proof fn lemma_begins_with(text: Seq<char>, start: Seq<char>)
    ensures
        start.is_prefix_of(text) <==> begins_with(text, start),
{
    if start.len() <= text.len() {
        let part = text.subrange(0, start.len() as int);
        if start.is_prefix_of(text) {
            assert forall|i: int| 0 <= i < start.len() implies text[i] == start[i] by {
                assert(part[i] == text[i]);
            }
        }
        if begins_with(text, start) {
            assert(part =~= start);
        }
    }
}

/// A path that does not lead through the election's node is not read.
pub proof fn law_path_elsewhere_is_not_read(
    full_path: &str,
    prefix: &str,
    child: Result<ElectionChild, Failure>,
)
    requires
        call_ensures(ElectionChild::try_from_full_path, (full_path, prefix), child),
    ensures
        !begins_with(full_path@, prefix@) ==> (child matches Err(failure) && says(
            failure,
            "wrong format of a child node; must start with election prefix "@ + prefix@,
        )),
        begins_with(full_path@, prefix@) && (full_path@.len() == prefix@.len()
            || full_path@[prefix@.len() as int] != '/') ==> (child matches Err(failure) && says(
            failure,
            "wrong format of a child node; must be `/prefix/path`"@,
        )),
        child matches Ok(child) ==> full_path@ == prefix@ + seq!['/'] + child.path@,
{
    let parent = prefix@ + seq!['/'];
    lemma_begins_with(full_path@, prefix@);
    lemma_begins_with(full_path@, parent);
    if begins_with(full_path@, parent) {
        assert(full_path@[prefix@.len() as int] == parent[prefix@.len() as int]);
        assert(full_path@ =~= parent + full_path@.skip(prefix@.len() as int + 1));
        assert forall|i: int| 0 <= i < prefix@.len() implies full_path@[i] == prefix@[i] by {
            assert(parent[i] == prefix@[i]);
        }
    } else if begins_with(full_path@, prefix@) {
        if full_path@.len() > prefix@.len() && full_path@[prefix@.len() as int] == '/' {
            assert forall|i: int| 0 <= i < parent.len() implies full_path@[i] == parent[i] by {
                if i < prefix@.len() {
                    assert(full_path@[i] == prefix@[i]);
                }
            }
        }
    }
    if let Err(failure) = child {
        lemma_says(failure, failure@.message, Seq::empty());
        assert(texts(failure.causes@) == failure@.causes);
    }
}

/// A node is among the participants exactly if its name is one of those in the
/// answer, at any place, and is read as that node.
pub proof fn law_every_readable_name_is_listed(
    node: &str,
    names: Vec<String>,
    children: Result<Vec<ElectionChild>, Failure>,
    name: &str,
    read: Result<ElectionChild, Failure>,
)
    requires
        call_ensures(get_children, (node, Ok(Some(names))), children),
        call_ensures(ElectionChild::try_from_parts, (node, name), read),
    ensures
        children matches Ok(children) && ((exists|i: int|
            0 <= i < children@.len() && (#[trigger] children@[i]).path@ == name@) <==> (read is Ok
            && exists|k: int| 0 <= k < names@.len() && (#[trigger] names@[k])@ == name@)),
        children matches Ok(children) && forall|i: int|
            0 <= i < children@.len() && (#[trigger] children@[i]).path@ == name@ ==> (read matches Ok(
                child,
            ) && same_node(children@[i], child)),
{
    let all = texts(names@);
    let found = children->Ok_0@;
    assert(views(found) == participants(node@, all));
    assert forall|i: int| 0 <= i < found.len() && (#[trigger] found[i]).path@ == name@ implies (
    read matches Ok(child) && same_node(found[i], child)) && all.contains(name@) by {
        assert(views(found)[i] == found[i]@);
        assert(participants(node@, all).contains(found[i]@));
        law_participants_are_the_readable_names(node@, all, found[i]@);
    }
    assert(all.contains(name@) <==> exists|k: int|
        0 <= k < names@.len() && (#[trigger] names@[k])@ == name@) by {
        if all.contains(name@) {
            let k = choose|k: int| 0 <= k < all.len() && all[k] == name@;
            assert(names@[k]@ == name@);
        }
        if exists|k: int| 0 <= k < names@.len() && (#[trigger] names@[k])@ == name@ {
            let k = choose|k: int| 0 <= k < names@.len() && (#[trigger] names@[k])@ == name@;
            assert(all[k] == name@);
        }
    }
    if read is Ok && all.contains(name@) {
        let child = read->Ok_0;
        law_participants_are_the_readable_names(node@, all, child@);
        let i = choose|i: int|
            0 <= i < participants(node@, all).len() && participants(node@, all)[i] == child@;
        assert(views(found)[i] == found[i]@);
        assert(found[i].path@ == name@);
    }
}

/// One more name in the answer adds its node behind all others, if it is read as
/// one, and else changes nothing.
pub proof fn law_one_more_name_adds_its_node(
    node: &str,
    names: Vec<String>,
    more: Vec<String>,
    name: &str,
    children: Result<Vec<ElectionChild>, Failure>,
    others: Result<Vec<ElectionChild>, Failure>,
    read: Result<ElectionChild, Failure>,
)
    requires
        more@.len() == names@.len() + 1,
        forall|k: int| 0 <= k < names@.len() ==> (#[trigger] more@[k])@ == names@[k]@,
        more@.last()@ == name@,
        call_ensures(get_children, (node, Ok(Some(names))), children),
        call_ensures(get_children, (node, Ok(Some(more))), others),
        call_ensures(ElectionChild::try_from_parts, (node, name), read),
    ensures
        children matches Ok(children) && others matches Ok(others) && {
            &&& others@.len() == children@.len() + (if read is Ok {
                1int
            } else {
                0
            })
            &&& forall|i: int|
                0 <= i < children@.len() ==> same_node(#[trigger] others@[i], children@[i])
            &&& read matches Ok(child) ==> same_node(others@.last(), child)
        },
{
    let (all, longer) = (texts(names@), texts(more@));
    let (few, many) = (children->Ok_0@, others->Ok_0@);
    assert(longer.drop_last() =~= all) by {
        assert forall|k: int| 0 <= k < all.len() implies longer[k] == all[k] by {
            assert(longer[k] == more@[k]@);
            assert(all[k] == names@[k]@);
        }
    }
    assert(longer.last() == name@);
    assert(views(few) == participants(node@, all));
    assert(views(many) == participants(node@, longer));
    assert(views(few).len() == few.len());
    assert(views(many).len() == many.len());
    assert forall|i: int| 0 <= i < few.len() implies same_node(#[trigger] many[i], few[i]) by {
        assert(views(few)[i] == few[i]@);
        assert(views(many)[i] == many[i]@);
    }
    if read is Ok {
        assert(views(many)[many.len() - 1] == many[many.len() - 1]@);
    }
}

/// No answer to be had is a failure, and no node to list, or no name under it,
/// means that there are no participants.
pub proof fn law_no_names_are_no_participants(
    node: &str,
    reply: Result<Option<Vec<String>>, Failure>,
    children: Result<Vec<ElectionChild>, Failure>,
)
    requires
        call_ensures(get_children, (node, reply), children),
    ensures
        match reply {
            Err(failure) => children == Err::<Vec<ElectionChild>, Failure>(failure),
            Ok(None) => children matches Ok(children) && children@.len() == 0,
            Ok(Some(names)) => children matches Ok(children) && children@.len() <= names@.len(),
        },
{
    if let Ok(found) = children {
        assert(views(found@).len() == found@.len());
        lemma_participants_are_no_more(node@, listed_names(reply->Ok_0));
    }
}

proof fn lemma_participants_are_no_more(prefix: Seq<char>, names: Seq<Seq<char>>)
    ensures
        participants(prefix, names).len() <= names.len(),
    decreases names.len(),
{
    if names.len() > 0 {
        lemma_participants_are_no_more(prefix, names.drop_last());
    }
}

/// The `i`th of the participants goes before the `j`th: its number is lower, or is
/// the same and it is listed earlier.
pub open spec fn is_ahead(children: Seq<ElectionChild>, i: int, j: int) -> bool {
    children[i].seq < children[j].seq || (children[i].seq == children[j].seq && i < j)
}

/// The `k`th of the participants is the first that has the given node.
pub open spec fn is_at(children: Seq<ElectionChild>, me: ElectionChild, k: int) -> bool {
    &&& 0 <= k < children.len()
    &&& same_node(children[k], me)
    &&& forall|j: int| 0 <= j < k ==> !same_node(#[trigger] children[j], me)
}

proof fn lemma_places(children: Seq<ElectionChild>, me: ElectionChild)
    ensures
        views(children).len() == children.len(),
        forall|k: int| #[trigger] is_first_at(views(children), me@, k) <==> is_at(children, me, k),
        forall|i: int, j: int|
            0 <= i < children.len() && 0 <= j < children.len() ==> (#[trigger] goes_before(
                views(children),
                i,
                j,
            ) <==> is_ahead(children, i, j)),
{
    let all = views(children);
    assert forall|k: int| 0 <= k < children.len() implies #[trigger] all[k] == children[k]@ by {}
    assert forall|k: int| #[trigger] is_first_at(all, me@, k) <==> is_at(children, me, k) by {
        if is_first_at(all, me@, k) {
            assert(all[k] == children[k]@);
            assert forall|j: int| 0 <= j < k implies !same_node(#[trigger] children[j], me) by {
                assert(all[j] == children[j]@);
                lemma_same_node(children[j], me);
            }
            lemma_same_node(children[k], me);
        }
        if is_at(children, me, k) {
            lemma_same_node(children[k], me);
            assert forall|j: int| 0 <= j < k implies all[j] != me@ by {
                assert(!same_node(children[j], me));
                lemma_same_node(children[j], me);
            }
        }
    }
}

/// A participant opens a round exactly if its node is listed. It leads exactly if
/// no listed participant goes before it, and then it watches its own node. Else
/// it watches the node of the one right ahead: one that goes before it, with no
/// other between them.
pub proof fn law_participant_watches_the_one_ahead<Z>(
    candidate: Candidate<Z>,
    me: ElectionChild,
    children: Vec<ElectionChild>,
    step: Result<Checking, Failure>,
)
    requires
        candidate.node() == me@,
        call_ensures(Candidate::<Z>::observe_once, (&candidate, Ok(children)), step),
    ensures
        match step {
            Err(failure) => {
                &&& says(failure, "The ephemeral znode of the participant was not found"@)
                &&& forall|k: int|
                    0 <= k < children@.len() ==> !same_node(#[trigger] children@[k], me)
            },
            Ok(checking) => exists|k: int| #[trigger]
                is_at(children@, me, k) && match checking.role() {
                    Role::Leader => {
                        &&& checking.path() == me.election_prefix@ + seq!['/'] + me.path@
                        &&& forall|j: int|
                            0 <= j < children@.len() ==> !#[trigger] is_ahead(children@, j, k)
                    },
                    Role::Follower => exists|p: int|
                        0 <= p < children@.len() && #[trigger] is_ahead(children@, p, k)
                            && checking.path() == children@[p].election_prefix@ + seq!['/']
                            + children@[p].path@ && forall|j: int|
                            0 <= j < children@.len() && #[trigger] is_ahead(children@, j, k)
                                ==> !is_ahead(children@, p, j),
                },
        },
{
    let all = views(children@);
    lemma_places(children@, me);
    match step {
        Err(failure) => {
            lemma_says(failure, failure@.message, Seq::empty());
            assert forall|k: int| 0 <= k < children@.len() implies !same_node(
                #[trigger] children@[k],
                me,
            ) by {
                assert(all[k] == children@[k]@);
                lemma_same_node(children@[k], me);
            }
        },
        Ok(checking) => match checking.role() {
            Role::Leader => {
                let k = choose|k: int| #[trigger] is_first_at(all, me@, k) && is_foremost(all, k);
                assert(is_at(children@, me, k));
                assert forall|j: int| 0 <= j < children@.len() implies !#[trigger] is_ahead(
                    children@,
                    j,
                    k,
                ) by {
                    assert(!goes_before(all, j, k));
                }
            },
            Role::Follower => {
                let ahead = choose|ahead: ElectionChildView| #[trigger]
                    stands_at(all, me@, Place::After(ahead)) && checking.path()
                        == ahead.full_path();
                let (k, p) = choose|k: int, p: int| #[trigger]
                    is_first_at(all, me@, k) && #[trigger] is_just_before(all, p, k) && all[p]
                        == ahead;
                assert(is_at(children@, me, k));
                assert(goes_before(all, p, k));
                assert(is_ahead(children@, p, k));
                assert(all[p] == children@[p]@);
                assert forall|j: int|
                    0 <= j < children@.len() && #[trigger] is_ahead(
                        children@,
                        j,
                        k,
                    ) implies !is_ahead(children@, p, j) by {
                    assert(goes_before(all, j, k));
                    assert(!goes_before(all, p, j));
                }
            },
        },
    }
}

/// Where no other listed participant has the same number, a leader has the lowest
/// number of all, and a follower watches a listed participant with a lower number
/// than its own, with no listed number between the two.
pub proof fn law_numbers_decide_the_round<Z>(
    candidate: Candidate<Z>,
    me: ElectionChild,
    children: Vec<ElectionChild>,
    checking: Checking,
)
    requires
        candidate.node() == me@,
        call_ensures(Candidate::<Z>::observe_once, (&candidate, Ok(children)), Ok(checking)),
        forall|k: int|
            0 <= k < children@.len() && (#[trigger] children@[k]).seq == me.seq ==> same_node(
                children@[k],
                me,
            ),
        forall|j: int, k: int|
            0 <= j < k < children@.len() ==> !same_node(
                #[trigger] children@[j],
                #[trigger] children@[k],
            ),
    ensures
        checking.role() is Leader <==> forall|k: int|
            0 <= k < children@.len() ==> me.seq <= (#[trigger] children@[k]).seq,
        checking.role() is Leader ==> checking.path() == path_of(me),
        checking.role() is Follower ==> exists|p: int|
            0 <= p < children@.len() && (#[trigger] children@[p]).seq < me.seq && checking.path()
                == path_of(children@[p]) && forall|j: int|
                0 <= j < children@.len() ==> !(children@[p].seq < (#[trigger] children@[j]).seq
                    < me.seq),
{
    law_participant_watches_the_one_ahead(candidate, me, children, Ok(checking));
    let k = choose|k: int| #[trigger]
        is_at(children@, me, k) && match checking.role() {
            Role::Leader => {
                &&& checking.path() == me.election_prefix@ + seq!['/'] + me.path@
                &&& forall|j: int|
                    0 <= j < children@.len() ==> !#[trigger] is_ahead(children@, j, k)
            },
            Role::Follower => exists|p: int|
                0 <= p < children@.len() && #[trigger] is_ahead(children@, p, k) && checking.path()
                    == children@[p].election_prefix@ + seq!['/'] + children@[p].path@ && forall|
                    j: int,
                |
                    0 <= j < children@.len() && #[trigger] is_ahead(children@, j, k) ==> !is_ahead(
                        children@,
                        p,
                        j,
                    ),
        };
    match checking.role() {
        Role::Leader => {
            assert forall|j: int| 0 <= j < children@.len() implies me.seq <= (
            #[trigger] children@[j]).seq by {
                assert(!is_ahead(children@, j, k));
            }
        },
        Role::Follower => {
            let p = choose|p: int|
                0 <= p < children@.len() && #[trigger] is_ahead(children@, p, k) && checking.path()
                    == children@[p].election_prefix@ + seq!['/'] + children@[p].path@ && forall|
                    j: int,
                |
                    0 <= j < children@.len() && #[trigger] is_ahead(children@, j, k) ==> !is_ahead(
                        children@,
                        p,
                        j,
                    );
            if children@[p].seq == me.seq {
                assert(same_node(children@[p], me));
                assert(!same_node(children@[p], children@[k]));
            }
            assert(children@[p].seq < me.seq);
            assert forall|j: int| 0 <= j < children@.len() implies !(children@[p].seq < (
            #[trigger] children@[j]).seq < me.seq) by {
                if children@[p].seq < children@[j].seq < me.seq {
                    assert(is_ahead(children@, j, k));
                    assert(is_ahead(children@, p, j));
                }
            }
        },
    }
}

/// Of all that are listed no two lead.
pub proof fn law_no_two_lead<Z>(
    candidate: Candidate<Z>,
    other: Candidate<Z>,
    a: ElectionChild,
    b: ElectionChild,
    children: Vec<ElectionChild>,
    first: Checking,
    second: Checking,
)
    requires
        candidate.node() == a@,
        other.node() == b@,
        call_ensures(Candidate::<Z>::observe_once, (&candidate, Ok(children)), Ok(first)),
        call_ensures(Candidate::<Z>::observe_once, (&other, Ok(children)), Ok(second)),
        first.role() is Leader,
        second.role() is Leader,
    ensures
        same_node(a, b),
{
    law_participant_watches_the_one_ahead(candidate, a, children, Ok(first));
    law_participant_watches_the_one_ahead(other, b, children, Ok(second));
    let k = choose|k: int| #[trigger]
        is_at(children@, a, k) && forall|j: int|
            0 <= j < children@.len() ==> !#[trigger] is_ahead(children@, j, k);
    let l = choose|l: int| #[trigger]
        is_at(children@, b, l) && forall|j: int|
            0 <= j < children@.len() ==> !#[trigger] is_ahead(children@, j, l);
    assert(!is_ahead(children@, k, l) && !is_ahead(children@, l, k));
}

/// Without a listing there is no round.
pub proof fn law_failed_listing_fails_the_round<Z>(
    candidate: Candidate<Z>,
    failure: Failure,
    step: Result<Checking, Failure>,
)
    requires
        call_ensures(Candidate::<Z>::observe_once, (&candidate, Err(failure)), step),
    ensures
        step == Err::<Checking, Failure>(failure),
{
}

/// A participant announces its state exactly if the watched node is there: that it
/// leads if it leads, and that it follows if it follows. Without the node a
/// leader fails, and a follower is done.
pub proof fn law_seen_node_lets_a_participant_announce(
    checking: Checking,
    present: Result<bool, Failure>,
    step: Result<Option<Announcing>, Failure>,
    watched: &str,
)
    requires
        call_ensures(Checking::checked, (checking, present), step),
        call_ensures(Checking::watched_path, (&checking,), watched),
    ensures
        watched@ == checking.path(),
        match present {
            Err(failure) => step == Err::<Option<Announcing>, Failure>(failure),
            Ok(true) => step matches Ok(Some(announcing)) && forall|state: LeadershipState|
                #[trigger] call_ensures(Announcing::state, (&announcing,), state) ==> state == (
                if checking.role() is Leader {
                    LeadershipState::Leader
                } else {
                    LeadershipState::Follower
                }),
            Ok(false) => if checking.role() is Leader {
                step matches Err(failure) && says(failure, "Leader's znode was missing"@)
            } else {
                step matches Ok(None)
            },
        },
{
    if let Err(failure) = step {
        lemma_says(failure, failure@.message, Seq::empty());
    }
}

/// A participant goes on to wait exactly if someone received its state, and stays
/// what it is.
pub proof fn law_received_state_lets_a_participant_wait(
    checking: Checking,
    announcing: Announcing,
    sent: Result<(), tokio::sync::watch::error::SendError<LeadershipState>>,
    step: Result<Watching, Failure>,
)
    requires
        call_ensures(Checking::checked, (checking, Ok(true)), Ok(Some(announcing))),
        call_ensures(Announcing::announced, (announcing, sent), step),
    ensures
        sent is Ok <==> step is Ok,
        step matches Ok(watching) ==> watching.role() == checking.role(),
        step matches Err(failure) ==> says_for(
            failure,
            "Can't send leadership state update"@,
            "channel closed"@,
        ),
{
    if let Err(failure) = step {
        lemma_says(failure, failure@.message, "channel closed"@);
    }
}

/// Nothing but the removal of the node ahead lets a follower go on, and nothing at
/// all lets a leader go on: whatever else happens ends the round with a failure
/// that says it.
pub proof fn law_only_removal_ahead_ends_a_round_well(
    watching: Watching,
    fired: Result<WatchedEventType, futures::channel::oneshot::Canceled>,
    outcome: Result<(), Failure>,
)
    requires
        call_ensures(Watching::fired, (watching, fired), outcome),
    ensures
        outcome is Ok <==> watching.role() is Follower && fired matches Ok(
            WatchedEventType::NodeDeleted,
        ),
        outcome matches Err(failure) ==> match fired {
            Err(_) => says_for(
                failure,
                "Watch receiver canceled, server disconnected?"@,
                "oneshot canceled"@,
            ),
            Ok(event) => says(
                failure,
                (if watching.role() is Leader {
                    "Unexpected change to the leader's node: "@
                } else {
                    "Unexpected change to the follower's node: "@
                }) + (match event {
                    WatchedEventType::NodeDeleted => "NodeDeleted"@,
                    WatchedEventType::Other(name) => name@,
                }),
            ),
        },
{
    if let Err(failure) = outcome {
        lemma_says(failure, failure@.message, "oneshot canceled"@);
    }
}

/// A failure is worth another attempt exactly if it says that the participant's
/// node was not found.
pub proof fn law_only_a_missing_node_is_worth_another_attempt(failure: Failure, yes: bool)
    requires
        call_ensures(is_retryable, (&failure,), yes),
    ensures
        yes <==> failure.message@ == "The ephemeral znode of the participant was not found"@,
{
}

/// After a round that went well another follows, with five attempts to spare. After
/// one that failed the same is tried again exactly if the participant's node was
/// not found and attempts are left, of which one is used up. Else the participant
/// announces an error and stops.
pub proof fn law_round_is_followed_as_it_ended<Z, A>(
    zk: Z,
    node: &str,
    acl: &'static [A],
    election: LeaderElection<Z, A>,
    candidate: Candidate<Z>,
    full: Attempts,
    attempts: Attempts,
    outcome: Result<(), Failure>,
    verdict: Verdict,
)
    requires
        call_ensures(LeaderElection::<Z, A>::new, (zk, node, acl), election),
        candidate.backoff() == election.backoff(),
        call_ensures(Candidate::<Z>::attempts, (&candidate,), full),
        call_ensures(Candidate::<Z>::observe, (&candidate, attempts, outcome), verdict),
    ensures
        full.left() == 5,
        full.backoff() == election.backoff(),
        match outcome {
            Ok(_) => verdict matches Verdict::Continue(fresh) && fresh.left() == 5
                && fresh.backoff() == election.backoff(),
            Err(failure) => if failure.message@
                == "The ephemeral znode of the participant was not found"@ && attempts.left() > 0 {
                verdict matches Verdict::Retry(nanos, fewer) && fewer.left() == attempts.left() - 1
                    && fewer.backoff() == attempts.backoff() && (attempts.backoff()
                    == election.backoff() ==> 100_000_000 <= nanos <= 15_000_000_000)
            } else {
                verdict == Verdict::Stop(LeadershipState::Error)
            },
        },
{
}

/// An election is what it was made of.
pub proof fn law_election_is_what_it_was_made_of<Z, A>(
    zk: Z,
    node: &str,
    acl: &'static [A],
    election: LeaderElection<Z, A>,
    guid: u128,
    started: (Volunteer<Z, A>, CreateRequest<&'static [A]>),
    prefix: &str,
    connection: &Z,
)
    requires
        call_ensures(LeaderElection::<Z, A>::new, (zk, node, acl), election),
        call_ensures(LeaderElection::<Z, A>::volunteer_as, (election, guid), started),
        call_ensures(Volunteer::<Z, A>::election_prefix, (&started.0,), prefix),
        call_ensures(Volunteer::<Z, A>::zk, (&started.0,), connection),
    ensures
        prefix@ == node@,
        *connection == zk,
        started.0.guid() == guid,
        started.1.acl == acl,
{
}

/// Whoever volunteers, wherever and with whatever rights, asks for an empty node
/// that goes with the connection and gets a sequence number, under the election's
/// node, with a name that is the identifier in its written form and `-n_`.
pub proof fn law_volunteer_asks_for_an_ephemeral_numbered_node<Z, A>(
    zk: Z,
    node: &str,
    acl: &'static [A],
    election: LeaderElection<Z, A>,
    guid: u128,
    started: (Volunteer<Z, A>, CreateRequest<&'static [A]>),
)
    requires
        call_ensures(LeaderElection::<Z, A>::new, (zk, node, acl), election),
        call_ensures(LeaderElection::<Z, A>::volunteer_as, (election, guid), started),
    ensures
        started.1.mode == CreateMode::EphemeralSequential,
        started.1.data@.len() == 0,
        started.1.path@.len() == node@.len() + 40,
        begins_with(started.1.path@, node@),
        started.1.path@[node@.len() as int] == '/',
        guid_in(started.1.path@.subrange(node@.len() as int + 1, node@.len() as int + 37)) == Some(
            guid,
        ),
        forall|i: int|
            node@.len() + 1 <= i < node@.len() + 37 ==> {
                let c = #[trigger] started.1.path@[i];
                let k = i - node@.len() - 1;
                if k == 8 || k == 13 || k == 18 || k == 23 {
                    c == '-'
                } else {
                    '0' <= c <= '9' || 'a' <= c <= 'f'
                }
            },
        started.1.path@.skip(node@.len() as int + 37) == seq!['-', 'n', '_'],
{
    let path = started.1.path@;
    let n = node@.len() as int;
    law_written_identifier_has_the_digits(guid);
    crate::guid::law_guid_text_is_read_back(guid);
    assert(path.subrange(n + 1, n + 37) =~= guid_text(guid));
    assert(path.skip(n + 37) =~= seq!['-', 'n', '_']);
    assert forall|i: int| n + 1 <= i < n + 37 implies {
        let c = #[trigger] path[i];
        let k = i - n - 1;
        if k == 8 || k == 13 || k == 18 || k == 23 {
            c == '-'
        } else {
            '0' <= c <= '9' || 'a' <= c <= 'f'
        }
    } by {
        assert(path[i] == guid_text(guid)[i - n - 1]);
    }
}

/// A volunteer under a fresh identifier asks as one under that identifier given
/// does, and the identifier is marked as a random one.
pub proof fn law_fresh_identifier_is_asked_for_alike<Z, A>(
    election: LeaderElection<Z, A>,
    started: (Volunteer<Z, A>, CreateRequest<&'static [A]>),
    given: (Volunteer<Z, A>, CreateRequest<&'static [A]>),
)
    requires
        call_ensures(LeaderElection::<Z, A>::volunteer, (election,), started),
        call_ensures(
            LeaderElection::<Z, A>::volunteer_as,
            (election, started.0.guid()),
            given,
        ),
    ensures
        started.0.election() == election,
        given.0.election() == election,
        given.0.guid() == started.0.guid(),
        started.1.path@ == given.1.path@,
        started.1.data@ == given.1.data@,
        started.1.acl == given.1.acl,
        started.1.mode == given.1.mode,
        started.0.guid() & 0xf000_0000_0000_0000_0000u128 == 0x4000_0000_0000_0000_0000u128,
        started.0.guid() & 0xc000_0000_0000_0000u128 == 0x8000_0000_0000_0000u128,
{
    let guid = started.0.guid();
    assert((guid >> 76) & 0xf == 4 ==> guid & 0xf000_0000_0000_0000_0000u128
        == 0x4000_0000_0000_0000_0000u128) by (bit_vector);
    assert((guid >> 62) & 0x3 == 2 ==> guid & 0xc000_0000_0000_0000u128
        == 0x8000_0000_0000_0000u128) by (bit_vector);
}

/// A volunteer whose node was made joins exactly if the node's path is read as a
/// participant's, and then with that node, over the election's connection, and
/// without a state yet.
pub proof fn law_volunteer_joins_with_the_node_that_was_made<Z, A>(
    volunteer: Volunteer<Z, A>,
    path: String,
    step: Joining<Z, A>,
    text: &str,
    prefix: &str,
    read: Result<ElectionChild, Failure>,
)
    requires
        text@ == path@,
        call_ensures(Volunteer::<Z, A>::created, (volunteer, CreateReply::Created(path)), step),
        call_ensures(Volunteer::<Z, A>::election_prefix, (&volunteer,), prefix),
        call_ensures(ElectionChild::try_from_full_path, (text, prefix), read),
    ensures
        match read {
            Ok(me) => step matches Joining::Joined(joined) && joined.candidate.node() == me@
                && joined.candidate.connection() == volunteer.election().connection()
                && joined.candidate.backoff() == volunteer.election().backoff() && joined.path@
                == path@ && joined.state == LeadershipState::Uninitialized,
            Err(cause) => step matches Joining::Failed(failure) && says_after(
                failure,
                "wrong format of the election child node"@,
                cause,
            ),
        },
{
    if let Err(cause) = read {
        lemma_says_after(step->Failed_0, "wrong format of the election child node"@, cause);
    }
}

/// A volunteer whose node was refused fails for that reason, and one whose answer
/// was lost goes on to search.
pub proof fn law_refused_volunteer_fails_and_lost_one_searches<Z, A>(
    volunteer: Volunteer<Z, A>,
    reason: Failure,
    refused: Joining<Z, A>,
    lost: Joining<Z, A>,
)
    requires
        call_ensures(Volunteer::<Z, A>::created, (volunteer, CreateReply::Refused(reason)), refused),
        call_ensures(Volunteer::<Z, A>::created, (volunteer, CreateReply::Lost), lost),
    ensures
        refused matches Joining::Failed(failure) && says_after(
            failure,
            "can't create ephemeral node, unrecoverable error"@,
            reason,
        ),
        lost == Joining::Search(volunteer),
{
    lemma_says_after(
        refused->Failed_0,
        "can't create ephemeral node, unrecoverable error"@,
        reason,
    );
}

/// A search in what the service listed ends well exactly if some listed participant
/// carries the volunteer's own identifier, and then the volunteer joins with the
/// first such node: it is one of those listed, carries that identifier, and has
/// the path.
pub open spec fn joins_with_its_own<Z, A>(
    volunteer: Volunteer<Z, A>,
    children: Seq<ElectionChild>,
    outcome: Result<Joined<Z>, Failure>,
) -> bool {
    match outcome {
        Ok(joined) => exists|k: int|
            0 <= k < children.len() && (#[trigger] children[k]).guid == volunteer.guid()
                && joined.candidate.node() == children[k]@ && joined.path@ == path_of(children[k])
                && joined.candidate.connection() == volunteer.election().connection()
                && joined.candidate.backoff() == volunteer.election().backoff() && joined.state
                == LeadershipState::Uninitialized && forall|j: int|
                0 <= j < k ==> (#[trigger] children[j]).guid != volunteer.guid(),
        Err(failure) => {
            &&& says(failure, "can't find a znode with my guid"@)
            &&& forall|j: int|
                0 <= j < children.len() ==> (#[trigger] children[j]).guid != volunteer.guid()
        },
    }
}

proof fn lemma_joins_with_its_own<Z, A>(
    volunteer: Volunteer<Z, A>,
    node: &str,
    names: Option<Vec<String>>,
    children: Vec<ElectionChild>,
    outcome: Result<Joined<Z>, Failure>,
)
    requires
        node@ == volunteer.election().prefix(),
        call_ensures(get_children, (node, Ok(names)), Ok(children)),
        volunteer.finds(Ok(children), outcome),
    ensures
        joins_with_its_own(volunteer, children@, outcome),
{
    let all = views(children@);
    let guid = volunteer.guid();
    assert(all.len() == children@.len());
    assert forall|k: int| 0 <= k < children@.len() implies #[trigger] all[k] == children@[k]@ by {}
    if exists|k: int| is_first_with_guid(all, guid, k) {
        let k = choose|k: int| is_first_with_guid(all, guid, k);
        let child = all[k];
        assert(all.contains(child));
        law_participants_are_the_readable_names(node@, listed_names(names), child);
        law_full_path_is_read_back(child);
        assert(children@[k].guid == guid);
        assert forall|j: int| 0 <= j < k implies (#[trigger] children@[j]).guid != guid by {
            assert(all[j].guid != guid);
        }
    } else {
        lemma_says(outcome->Err_0, outcome->Err_0@.message, Seq::empty());
        assert forall|j: int| 0 <= j < children@.len() implies (#[trigger] children@[j]).guid
            != guid by {
            if all[j].guid == guid {
                lemma_some_first(all, guid, j + 1);
            }
        }
    }
}

proof fn lemma_some_first(children: Seq<ElectionChildView>, guid: u128, n: int)
    requires
        0 < n <= children.len(),
        children[n - 1].guid == guid,
    ensures
        exists|k: int| is_first_with_guid(children, guid, k),
    decreases n,
{
    if exists|j: int| 0 <= j < n - 1 && (#[trigger] children[j]).guid == guid {
        let j = choose|j: int| 0 <= j < n - 1 && (#[trigger] children[j]).guid == guid;
        lemma_some_first(children, guid, j + 1);
    } else {
        assert(is_first_with_guid(children, guid, n - 1));
    }
}

/// A volunteer that searches what the service listed, however many that are, joins
/// with its own node or not at all.
pub proof fn law_search_finds_the_volunteers_own_node<Z, A>(
    volunteer: Volunteer<Z, A>,
    node: &str,
    names: Option<Vec<String>>,
    children: Vec<ElectionChild>,
    outcome: Result<Joined<Z>, Failure>,
    attempts: Attempts,
    step: Searching<Z, A>,
)
    requires
        call_ensures(Volunteer::<Z, A>::election_prefix, (&volunteer,), node),
        call_ensures(get_children, (node, Ok(names)), Ok(children)),
        call_ensures(Volunteer::<Z, A>::searched, (volunteer, Ok(children)), outcome),
        call_ensures(Volunteer::<Z, A>::listed, (volunteer, attempts, Ok(children)), step),
    ensures
        joins_with_its_own(volunteer, children@, outcome),
        step matches Searching::Ended(ended) && joins_with_its_own(volunteer, children@, ended),
{
    lemma_joins_with_its_own(volunteer, node, names, children, outcome);
    lemma_joins_with_its_own(volunteer, node, names, children, step->Ended_0);
}

/// A volunteer that joins by a search has the path of the first participant that
/// carries its own identifier, whoever says who participates.
pub proof fn law_search_ends_at_its_own_identifier<Z, A>(
    volunteer: Volunteer<Z, A>,
    children: Vec<ElectionChild>,
    joined: Joined<Z>,
)
    requires
        call_ensures(Volunteer::<Z, A>::searched, (volunteer, Ok(children)), Ok(joined)),
    ensures
        exists|k: int|
            0 <= k < children@.len() && (#[trigger] children@[k]).guid == volunteer.guid()
                && joined.path@ == path_of(children@[k]) && forall|j: int|
                0 <= j < k ==> (#[trigger] children@[j]).guid != volunteer.guid(),
{
    let all = views(children@);
    let guid = volunteer.guid();
    assert forall|k: int| 0 <= k < children@.len() implies #[trigger] all[k] == children@[k]@ by {}
    let k = choose|k: int| is_first_with_guid(all, guid, k);
    assert(all[k] == children@[k]@);
    assert(children@[k].guid == guid);
    assert forall|j: int| 0 <= j < k implies (#[trigger] children@[j]).guid != guid by {
        assert(all[j].guid != guid);
    }
}

/// A volunteer of an election has five attempts to spare. A listing that failed is
/// asked for again while any are left, whatever the failure, and the last failure
/// ends the search.
pub proof fn law_failed_search_is_tried_again<Z, A>(
    zk: Z,
    node: &str,
    acl: &'static [A],
    election: LeaderElection<Z, A>,
    volunteer: Volunteer<Z, A>,
    full: Attempts,
    attempts: Attempts,
    cause: Failure,
    outcome: Result<Joined<Z>, Failure>,
    step: Searching<Z, A>,
)
    requires
        call_ensures(LeaderElection::<Z, A>::new, (zk, node, acl), election),
        volunteer.election() == election,
        call_ensures(Volunteer::<Z, A>::attempts, (&volunteer,), full),
        call_ensures(Volunteer::<Z, A>::searched, (volunteer, Err(cause)), outcome),
        call_ensures(Volunteer::<Z, A>::listed, (volunteer, attempts, Err(cause)), step),
    ensures
        full.left() == 5,
        full.backoff() == election.backoff(),
        outcome matches Err(failure) && says_after(
            failure,
            "can't get leader election nodes, retry failed"@,
            cause,
        ),
        if attempts.left() > 0 {
            step matches Searching::Retry(again, nanos, fewer) && again == volunteer && fewer.left()
                == attempts.left() - 1 && fewer.backoff() == attempts.backoff() && (
            attempts.backoff() == election.backoff() ==> 100_000_000 <= nanos <= 15_000_000_000)
        } else {
            step matches Searching::Ended(Err(failure)) && says_after(
                failure,
                "can't get leader election nodes, retry failed"@,
                cause,
            )
        },
{
    let said = "can't get leader election nodes, retry failed"@;
    lemma_says_after(outcome->Err_0, said, cause);
    if attempts.left() == 0 {
        lemma_says_after(step->Ended_0->Err_0, said, cause);
    }
}

/// A participant has the connection that it joined with, and its node's election.
pub proof fn law_participant_keeps_what_it_joined_with<Z>(
    candidate: Candidate<Z>,
    me: ElectionChild,
    zk: &Z,
    prefix: &str,
)
    requires
        candidate.node() == me@,
        call_ensures(Candidate::<Z>::zk, (&candidate,), zk),
        call_ensures(Candidate::<Z>::election_prefix, (&candidate,), prefix),
    ensures
        *zk == candidate.connection(),
        prefix@ == me.election_prefix@,
{
}

/// The next in line takes over: a follower that was behind the leader alone leads
/// as soon as the node that it watched is gone, whoever else has left.
pub proof fn law_next_in_line_takes_over<Z>(
    candidate: Candidate<Z>,
    me: ElectionChild,
    children: Vec<ElectionChild>,
    later: Vec<ElectionChild>,
    before: Checking,
    after: Checking,
)
    requires
        candidate.node() == me@,
        call_ensures(Candidate::<Z>::observe_once, (&candidate, Ok(children)), Ok(before)),
        call_ensures(Candidate::<Z>::observe_once, (&candidate, Ok(later)), Ok(after)),
        forall|k: int|
            0 <= k < children@.len() && (#[trigger] children@[k]).seq < me.seq ==> path_of(
                children@[k],
            ) == before.path(),
        forall|j: int|
            0 <= j < later@.len() ==> path_of(#[trigger] later@[j]) != before.path() && exists|
                k: int,
            |
                0 <= k < children@.len() && same_node(#[trigger] children@[k], later@[j]),
        forall|j: int|
            0 <= j < later@.len() && (#[trigger] later@[j]).seq == me.seq ==> same_node(
                later@[j],
                me,
            ),
    ensures
        after.role() is Leader,
        after.path() == path_of(me),
{
    law_participant_watches_the_one_ahead(candidate, me, later, Ok(after));
    if after.role() is Follower {
        let k = choose|k: int| #[trigger]
            is_at(later@, me, k) && exists|p: int|
                0 <= p < later@.len() && #[trigger] is_ahead(later@, p, k);
        let p = choose|p: int| 0 <= p < later@.len() && #[trigger] is_ahead(later@, p, k);
        let l = choose|l: int|
            0 <= l < children@.len() && same_node(#[trigger] children@[l], later@[p]);
        assert(path_of(later@[p]) != before.path());
        if later@[p].seq == me.seq {
            assert(same_node(later@[p], me));
        }
        assert(children@[l].seq < me.seq);
    }
}

} // verus!
