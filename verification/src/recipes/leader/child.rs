//! A participant's node: how its path is written and read, and how
//! participants are ranked.

use std::cmp::Ordering;
use vstd::prelude::*;
use vstd::std_specs::cmp::PartialOrdSpec;

use crate::failure::{failure_from, failure_of, Failure, FailureView};
use crate::guid::{describe_guid_error, guid_error, guid_error_words, guid_in, parse_guid};
use crate::recipes::ranking::{all_rank_apart, views, Rankable, Ranked};
use crate::text::{
    around_separator, join_path, number_in, parse_u32, path_under, skip_chars, split_at_separator,
    starts_with, texts, NumberFault,
};

verus! {

/// The node of one participant, under the election's node.
#[derive(Debug)]
pub struct ElectionChild {
    /// The election's node.
    pub election_prefix: String,
    /// The participant's node, without the election's.
    pub path: String,
    /// What tells the participant apart.
    pub guid: u128,
    /// What ranks the participant.
    pub seq: u32,
}

/// What a participant's node holds.
pub struct ElectionChildView {
    pub election_prefix: Seq<char>,
    pub path: Seq<char>,
    pub guid: u128,
    pub seq: u32,
}

impl View for ElectionChild {
    type V = ElectionChildView;

    open spec fn view(&self) -> ElectionChildView {
        ElectionChildView {
            election_prefix: self.election_prefix@,
            path: self.path@,
            guid: self.guid,
            seq: self.seq,
        }
    }
}

impl ElectionChildView {
    /// The path of the node, from the root.
    pub open spec fn full_path(self) -> Seq<char> {
        path_under(self.election_prefix, self.path)
    }

    /// The identifier and the sequence number are those that the path holds.
    pub open spec fn well_formed(self) -> bool {
        name_parts(self.path) == Ok::<(u128, u32), NameFault>((self.guid, self.seq))
    }
}

/// What is wrong with a participant's name.
pub enum NameFault {
    /// It does not consist of two parts around a separator.
    Shape,
    /// The first part is no identifier.
    Guid(uuid::Error),
    /// The second part is no sequence number.
    Number(NumberFault),
}

/// The identifier and the sequence number in a name `<guid>-n_<number>`.
pub open spec fn name_parts(path: Seq<char>) -> Result<(u128, u32), NameFault> {
    match around_separator(path) {
        None => Err(NameFault::Shape),
        Some((left, right)) => match guid_in(left) {
            None => Err(NameFault::Guid(guid_error(left))),
            Some(guid) => match number_in(right) {
                Err(fault) => Err(NameFault::Number(fault)),
                Ok(seq) => Ok((guid, seq)),
            },
        },
    }
}

/// What is said of a name with the given fault, where `of_number` is what is
/// said of a sequence number that is none.
pub open spec fn name_failure(fault: NameFault, of_number: Seq<char>) -> FailureView {
    match fault {
        NameFault::Shape => failure_of(
            "wrong format of a child node's path; must `<guid>-n_<number>`"@,
        ),
        NameFault::Guid(error) => failure_from(
            "Can't parse node's guid"@,
            guid_error_words(error),
        ),
        NameFault::Number(fault) => failure_from(of_number, fault.words()),
    }
}

/// What is said of a sequence number that is none, in a name that was read under
/// the given election's node.
pub open spec fn number_message(prefix: Seq<char>, path: Seq<char>) -> Seq<char> {
    "cant parse node's sequential number as u32 from prefix `"@ + prefix + "` and path `"@ + path
        + "`"@
}

/// The node with the given name under the given election's node, or what to say
/// of a name that is none of a participant's.
pub open spec fn child_from_parts(prefix: Seq<char>, path: Seq<char>) -> Result<
    ElectionChildView,
    FailureView,
> {
    match name_parts(path) {
        Ok((guid, seq)) => Ok(ElectionChildView { election_prefix: prefix, path, guid, seq }),
        Err(fault) => Err(name_failure(fault, number_message(prefix, path))),
    }
}

/// The node with the given path, which is to lie under the given election's
/// node, or what to say of a path that is none of a participant's.
pub open spec fn child_from_full_path(full_path: Seq<char>, prefix: Seq<char>) -> Result<
    ElectionChildView,
    FailureView,
> {
    if !prefix.is_prefix_of(full_path) {
        Err(failure_of("wrong format of a child node; must start with election prefix "@ + prefix))
    } else if !(prefix + seq!['/']).is_prefix_of(full_path) {
        Err(failure_of("wrong format of a child node; must be `/prefix/path`"@))
    } else {
        let path = full_path.skip(prefix.len() as int + 1);
        match name_parts(path) {
            Ok((guid, seq)) => Ok(ElectionChildView { election_prefix: prefix, path, guid, seq }),
            Err(fault) => Err(
                name_failure(
                    fault,
                    "cant parse node's sequential number as u32 from {full_path}: {e}"@,
                ),
            ),
        }
    }
}

/// The outcome of an attempt to read a participant's node.
pub open spec fn child_result(result: Result<ElectionChild, Failure>) -> Result<
    ElectionChildView,
    FailureView,
> {
    match result {
        Ok(child) => Ok(child@),
        Err(failure) => Err(failure@),
    }
}

/// Reads the identifier and the sequence number in a name.
fn read_name(path: &str) -> (parts: Result<(u128, u32), NameFault>)
    ensures
        parts == name_parts(path@),
{
    match split_at_separator(path) {
        None => Err(NameFault::Shape),
        Some((left, right)) => match parse_guid(left) {
            Err(error) => Err(NameFault::Guid(error)),
            Ok(guid) => match parse_u32(right) {
                Err(fault) => Err(NameFault::Number(fault)),
                Ok(seq) => Ok((guid, seq)),
            },
        },
    }
}

/// Says what is wrong with a name.
fn describe_name_fault(fault: NameFault, of_number: String) -> (failure: Failure)
    ensures
        failure@ == name_failure(fault, of_number@),
{
    match fault {
        NameFault::Shape => Failure::new(
            "wrong format of a child node's path; must `<guid>-n_<number>`",
        ),
        NameFault::Guid(error) => Failure::from_cause(
            "Can't parse node's guid".to_owned(),
            describe_guid_error(&error),
        ),
        NameFault::Number(fault) => Failure::from_cause(of_number, fault.to_words()),
    }
}

impl ElectionChild {
    /// Reads the path of a participant's node under the election's node.
    pub fn try_from_full_path(full_path: &str, election_prefix: &str) -> (child: Result<
        ElectionChild,
        Failure,
    >)
        ensures
            child_result(child) == child_from_full_path(full_path@, election_prefix@),
    {
        if !starts_with(full_path, election_prefix) {
            return Err(
                Failure::saying(
                    "wrong format of a child node; must start with election prefix ".to_owned().concat(
                        election_prefix,
                    ),
                ),
            );
        }
        let parent = join_path(election_prefix, "");
        proof {
            reveal_strlit("");
            assert(parent@ =~= election_prefix@ + seq!['/']);
        }
        if !starts_with(full_path, parent.as_str()) {
            return Err(Failure::new("wrong format of a child node; must be `/prefix/path`"));
        }
        let path = skip_chars(full_path, parent.as_str().unicode_len());
        match read_name(path) {
            Ok((guid, seq)) => Ok(
                ElectionChild {
                    election_prefix: election_prefix.to_owned(),
                    path: path.to_owned(),
                    guid,
                    seq,
                },
            ),
            Err(fault) => Err(
                describe_name_fault(
                    fault,
                    "cant parse node's sequential number as u32 from {full_path}: {e}".to_owned(),
                ),
            ),
        }
    }

    /// Reads the name of a participant's node under the election's node.
    pub fn try_from_parts(prefix: &str, path: &str) -> (child: Result<ElectionChild, Failure>)
        ensures
            child_result(child) == child_from_parts(prefix@, path@),
    {
        match read_name(path) {
            Ok((guid, seq)) => Ok(
                ElectionChild {
                    election_prefix: prefix.to_owned(),
                    path: path.to_owned(),
                    guid,
                    seq,
                },
            ),
            Err(fault) => Err(
                describe_name_fault(
                    fault,
                    "cant parse node's sequential number as u32 from prefix `".to_owned().concat(
                        prefix,
                    ).concat("` and path `").concat(path).concat("`"),
                ),
            ),
        }
    }

    /// The path of the node, from the root.
    pub fn full_path(&self) -> (path: String)
        ensures
            path@ == self@.full_path(),
    {
        join_path(self.election_prefix.as_str(), self.path.as_str())
    }

    /// Ranks two participants by their sequence numbers.
    pub fn cmp(&self, other: &ElectionChild) -> (order: Ordering)
        ensures
            order == rank(self@, other@),
    {
        if self.seq < other.seq {
            Ordering::Less
        } else if self.seq == other.seq {
            Ordering::Equal
        } else {
            Ordering::Greater
        }
    }
}

/// How two participants rank: by their sequence numbers alone.
pub open spec fn rank(a: ElectionChildView, b: ElectionChildView) -> Ordering {
    if a.seq < b.seq {
        Ordering::Less
    } else if a.seq == b.seq {
        Ordering::Equal
    } else {
        Ordering::Greater
    }
}

impl PartialEq for ElectionChild {
    fn eq(&self, other: &ElectionChild) -> (same: bool) {
        self.election_prefix == other.election_prefix && self.path == other.path && self.guid
            == other.guid && self.seq == other.seq
    }
}

impl vstd::std_specs::cmp::PartialEqSpecImpl for ElectionChild {
    open spec fn obeys_eq_spec() -> bool {
        true
    }

    open spec fn eq_spec(&self, other: &ElectionChild) -> bool {
        self@ == other@
    }
}

impl Eq for ElectionChild {

}

impl PartialOrd for ElectionChild {
    fn partial_cmp(&self, other: &ElectionChild) -> (order: Option<Ordering>) {
        Some(self.cmp(other))
    }
}

impl vstd::std_specs::cmp::PartialOrdSpecImpl for ElectionChild {
    open spec fn obeys_partial_cmp_spec() -> bool {
        true
    }

    open spec fn partial_cmp_spec(&self, other: &ElectionChild) -> Option<Ordering> {
        Some(rank(self@, other@))
    }
}

impl Ranked for ElectionChildView {
    open spec fn below(self, other: ElectionChildView) -> bool {
        self.seq < other.seq
    }

    proof fn below_is_asymmetric(self, other: ElectionChildView) {
    }

    proof fn below_splits(self, middle: ElectionChildView, other: ElectionChildView) {
    }
}

impl Rankable for ElectionChild {
    fn is_below(&self, other: &ElectionChild) -> (yes: bool) {
        *self < *other
    }
}

/// The participants among the given names, in their order. A name that is none
/// of a participant's is passed over.
pub open spec fn participants(prefix: Seq<char>, names: Seq<Seq<char>>) -> Seq<ElectionChildView>
    decreases names.len(),
{
    if names.len() == 0 {
        Seq::empty()
    } else {
        let others = participants(prefix, names.drop_last());
        match child_from_parts(prefix, names.last()) {
            Ok(child) => others.push(child),
            Err(_) => others,
        }
    }
}

/// The names that the service listed; none, if it found no node to list.
pub open spec fn listed_names(names: Option<Vec<String>>) -> Seq<Seq<char>> {
    match names {
        Some(names) => texts(names@),
        None => Seq::empty(),
    }
}

/// Reads the service's answer to a request for the nodes under the election's
/// node.
pub fn get_children(
    election_node: &str,
    reply: Result<Option<Vec<String>>, Failure>,
) -> (children: Result<Vec<ElectionChild>, Failure>)
    ensures
        match reply {
            Err(failure) => children == Err::<Vec<ElectionChild>, Failure>(failure),
            Ok(names) => children is Ok && views(children->Ok_0@) == participants(
                election_node@,
                listed_names(names),
            ),
        },
{
    let names = match reply {
        Err(failure) => {
            return Err(failure);
        },
        Ok(Some(names)) => names,
        Ok(None) => Vec::new(),
    };
    let mut children: Vec<ElectionChild> = Vec::new();
    let ghost all = texts(names@);
    assert(all =~= listed_names(reply->Ok_0));
    assert(views(children@) =~= Seq::empty());
    let mut i: usize = 0;
    while i < names.len()
        invariant
            i <= names.len(),
            all == texts(names@),
            views(children@) == participants(election_node@, all.take(i as int)),
        decreases names.len() - i,
    {
        assert(all.take(i + 1).drop_last() =~= all.take(i as int));
        assert(all.take(i + 1).last() == names@[i as int]@);
        let ghost before = children@;
        match ElectionChild::try_from_parts(election_node, names[i].as_str()) {
            Ok(child) => {
                children.push(child);
                assert(views(children@) =~= views(before).push(child@));
            },
            Err(_) => {},
        }
        i = i + 1;
    }
    assert(all.take(names.len() as int) =~= all);
    Ok(children)
}

/// Any two participants can be ranked, and the rank is that of their sequence
/// numbers: turning the two around turns the rank around.
pub proof fn law_rank_is_that_of_the_numbers(a: ElectionChild, b: ElectionChild, c: ElectionChild)
    ensures
        a.partial_cmp_spec(&b) == Some(rank(a@, b@)),
        rank(a@, b@) is Equal <==> a.seq == b.seq,
        rank(a@, b@) is Less <==> rank(b@, a@) is Greater,
        rank(a@, b@) is Less && rank(b@, c@) is Less ==> rank(a@, c@) is Less,
{
}

/// Participants with different sequence numbers rank apart, and the service
/// appends no number twice.
pub proof fn law_different_numbers_rank_apart(children: Seq<ElectionChildView>)
    requires
        forall|i: int, j: int|
            0 <= i < children.len() && 0 <= j < children.len() && i != j ==> (
            #[trigger] children[i]).seq != (#[trigger] children[j]).seq,
    ensures
        all_rank_apart(children),
{
}

/// A participant's node that was read from a path has that path, and holds what
/// the path says.
pub proof fn law_read_node_has_its_path(full_path: Seq<char>, prefix: Seq<char>)
    ensures
        child_from_full_path(full_path, prefix) matches Ok(child) ==> child.full_path() == full_path
            && child.election_prefix == prefix && child.well_formed(),
{
    if (prefix + seq!['/']).is_prefix_of(full_path) {
        assert(path_under(prefix, full_path.skip(prefix.len() as int + 1)) =~= full_path) by {
            let parent = prefix + seq!['/'];
            assert(full_path.subrange(0, parent.len() as int) =~= parent);
            assert forall|i: int| 0 <= i < parent.len() implies full_path[i] == parent[i] by {
                assert(full_path.subrange(0, parent.len() as int)[i] == full_path[i]);
            }
        }
    }
}

/// A participant's node that was read from a name has that name, and holds what
/// the name says.
pub proof fn law_read_node_has_its_name(prefix: Seq<char>, path: Seq<char>)
    ensures
        child_from_parts(prefix, path) matches Ok(child) ==> child.path == path
            && child.election_prefix == prefix && child.well_formed(),
{
}

/// A path under the election's node is read as the name in it is: with the same
/// outcome, but for what is said of a sequence number that is none.
pub proof fn law_path_and_name_are_read_alike(prefix: Seq<char>, path: Seq<char>)
    ensures
        child_from_full_path(path_under(prefix, path), prefix) == match name_parts(path) {
            Err(NameFault::Number(fault)) => Err::<ElectionChildView, FailureView>(
                failure_from(
                    "cant parse node's sequential number as u32 from {full_path}: {e}"@,
                    fault.words(),
                ),
            ),
            _ => child_from_parts(prefix, path),
        },
{
    let full_path = path_under(prefix, path);
    let parent = prefix + seq!['/'];
    assert(full_path.subrange(0, prefix.len() as int) =~= prefix);
    assert(full_path.subrange(0, parent.len() as int) =~= parent);
    assert(full_path.skip(prefix.len() as int + 1) =~= path);
}

/// The path of a participant's node is read back as that node.
pub proof fn law_full_path_is_read_back(child: ElectionChildView)
    requires
        child.well_formed(),
    ensures
        child_from_full_path(child.full_path(), child.election_prefix) == Ok::<
            ElectionChildView,
            FailureView,
        >(child),
{
    law_path_and_name_are_read_alike(child.election_prefix, child.path);
}

/// The participants among the names are the nodes that the names are read as:
/// no participant is passed over, and none is made up.
pub proof fn law_participants_are_the_readable_names(
    prefix: Seq<char>,
    names: Seq<Seq<char>>,
    child: ElectionChildView,
)
    ensures
        participants(prefix, names).contains(child) <==> names.contains(child.path)
            && child_from_parts(prefix, child.path) == Ok::<ElectionChildView, FailureView>(child),
    decreases names.len(),
{
    if names.len() > 0 {
        let others = participants(prefix, names.drop_last());
        law_participants_are_the_readable_names(prefix, names.drop_last(), child);
        assert(names =~= names.drop_last().push(names.last()));
        assert(names.contains(child.path) == (names.drop_last().contains(child.path)
            || names.last() == child.path)) by {
            if names.drop_last().contains(child.path) {
                let i = choose|i: int|
                    0 <= i < names.drop_last().len() && names.drop_last()[i] == child.path;
                assert(names[i] == child.path);
            }
            if names.contains(child.path) && names.last() != child.path {
                let i = choose|i: int| 0 <= i < names.len() && names[i] == child.path;
                assert(names.drop_last()[i] == child.path);
            }
            if names.last() == child.path {
                assert(names[names.len() - 1] == child.path);
            }
        }
        match child_from_parts(prefix, names.last()) {
            Ok(last) => {
                let all = others.push(last);
                if others.contains(child) {
                    let i = choose|i: int| 0 <= i < others.len() && others[i] == child;
                    assert(all[i] == child);
                }
                if last == child {
                    assert(all[others.len() as int] == child);
                }
                if all.contains(child) && last != child {
                    let i = choose|i: int| 0 <= i < all.len() && all[i] == child;
                    assert(others[i] == child);
                }
            },
            Err(_) => {},
        }
    }
}

/// A participant whose name is listed is among the participants.
pub proof fn law_listed_participant_is_found(child: ElectionChildView, names: Seq<Seq<char>>)
    requires
        child.well_formed(),
        names.contains(child.path),
    ensures
        participants(child.election_prefix, names).contains(child),
{
    law_participants_are_the_readable_names(child.election_prefix, names, child);
}

} // verus!
