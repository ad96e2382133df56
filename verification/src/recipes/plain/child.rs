//! A participant's node, known by its name.

use std::cmp::Ordering;
use vstd::prelude::*;
use vstd::std_specs::cmp::PartialOrdSpec;

use crate::failure::Failure;
use crate::recipes::plain::candidate::ObserveError;
use crate::recipes::ranking::{all_rank_apart, views, Rankable, Ranked};
use crate::text::{
    all_digits, decimal_value, is_digit, is_text_below, lemma_text_below_asymmetric,
    lemma_text_below_between, lemma_text_below_total, text_below, texts,
};

verus! {

/// The node of one participant, by its name under the election's node.
#[derive(Debug)]
pub struct ElectionChild(pub String);

impl View for ElectionChild {
    type V = Seq<char>;

    open spec fn view(&self) -> Seq<char> {
        self.0@
    }
}

impl TryFrom<String> for ElectionChild {
    type Error = ();

    fn try_from(value: String) -> (child: Result<ElectionChild, ()>) {
        Ok(ElectionChild(value))
    }
}

impl vstd::std_specs::convert::TryFromSpecImpl<String> for ElectionChild {
    open spec fn obeys_try_from_spec() -> bool {
        true
    }

    open spec fn try_from_spec(value: String) -> Result<ElectionChild, ()> {
        Ok(ElectionChild(value))
    }
}

impl PartialEq for ElectionChild {
    fn eq(&self, other: &ElectionChild) -> (same: bool) {
        self.0 == other.0
    }
}

impl vstd::std_specs::cmp::PartialEqSpecImpl for ElectionChild {
    open spec fn obeys_eq_spec() -> bool {
        true
    }

    open spec fn eq_spec(&self, other: &ElectionChild) -> bool {
        self@ == other@
    }
}

impl Eq for ElectionChild {

}

/// How two names rank: in lexicographic order.
pub open spec fn rank(a: Seq<char>, b: Seq<char>) -> Ordering {
    if text_below(a, b) {
        Ordering::Less
    } else if a == b {
        Ordering::Equal
    } else {
        Ordering::Greater
    }
}

impl ElectionChild {
    /// Ranks two participants by their names.
    pub fn cmp(&self, other: &ElectionChild) -> (order: Ordering)
        ensures
            order == rank(self@, other@),
    {
        if is_text_below(self.0.as_str(), other.0.as_str()) {
            Ordering::Less
        } else if self.0 == other.0 {
            Ordering::Equal
        } else {
            Ordering::Greater
        }
    }
}

impl PartialOrd for ElectionChild {
    fn partial_cmp(&self, other: &ElectionChild) -> (order: Option<Ordering>) {
        Some(self.cmp(other))
    }
}

impl vstd::std_specs::cmp::PartialOrdSpecImpl for ElectionChild {
    open spec fn obeys_partial_cmp_spec() -> bool {
        true
    }

    open spec fn partial_cmp_spec(&self, other: &ElectionChild) -> Option<Ordering> {
        Some(rank(self@, other@))
    }
}

impl Ranked for Seq<char> {
    open spec fn below(self, other: Seq<char>) -> bool {
        text_below(self, other)
    }

    proof fn below_is_asymmetric(self, other: Seq<char>) {
        lemma_text_below_asymmetric(self, other);
    }

    proof fn below_splits(self, middle: Seq<char>, other: Seq<char>) {
        lemma_text_below_between(self, middle, other);
    }
}

impl Rankable for ElectionChild {
    fn is_below(&self, other: &ElectionChild) -> (yes: bool) {
        *self < *other
    }
}

/// Reads the service's answer to a request for the nodes under the election's
/// node. All of them are participants' nodes.
pub fn get_children(reply: Result<Option<Vec<String>>, Failure>) -> (children: Result<
    Vec<ElectionChild>,
    ObserveError,
>)
    ensures
        match reply {
            Err(failure) => children matches Err(ObserveError::ZkError(text)) && text@
                == failure@.message,
            Ok(None) => children matches Err(ObserveError::NoParticipants),
            Ok(Some(names)) => children is Ok && views(children->Ok_0@) == texts(names@),
        },
{
    let names = match reply {
        Err(failure) => {
            return Err(ObserveError::from(failure));
        },
        Ok(None) => {
            return Err(ObserveError::NoParticipants);
        },
        Ok(Some(names)) => names,
    };
    let ghost all = texts(names@);
    let mut children: Vec<ElectionChild> = Vec::new();
    for name in it: names
        invariant
            it.seq() == names@,
            all == texts(names@),
            views(children@) =~= all.take(it.index()),
    {
        let ghost before = children@;
        assert(all[it.index()] == name@);
        if let Ok(child) = ElectionChild::try_from(name) {
            children.push(child);
            assert(views(children@) =~= views(before).push(child@));
            assert(child@ == name@);
        }
    }
    assert(all.take(all.len() as int) =~= all);
    Ok(children)
}

/// Any two participants can be ranked, and the rank is a total order on names:
/// only equal names rank alike, and turning the two around turns the rank around.
pub proof fn law_rank_is_a_total_order(a: ElectionChild, b: ElectionChild, c: ElectionChild)
    ensures
        a.partial_cmp_spec(&b) == Some(rank(a@, b@)),
        rank(a@, b@) is Equal <==> a@ == b@,
        rank(a@, b@) is Less <==> rank(b@, a@) is Greater,
        rank(a@, b@) is Less && rank(b@, c@) is Less ==> rank(a@, c@) is Less,
{
    if text_below(a@, a@) {
        lemma_text_below_asymmetric(a@, a@);
    }
    if text_below(a@, b@) {
        lemma_text_below_asymmetric(a@, b@);
        lemma_text_below_between(a@, c@, b@);
    }
    if a@ != b@ {
        lemma_text_below_total(a@, b@);
    }
    if text_below(b@, c@) && text_below(c@, b@) {
        lemma_text_below_asymmetric(b@, c@);
    }
}

/// Different names rank apart, and no two nodes under one node have the same
/// name.
pub proof fn law_different_names_rank_apart(names: Seq<Seq<char>>)
    requires
        names.no_duplicates(),
    ensures
        all_rank_apart(names),
{
    assert forall|i: int, j: int|
        0 <= i < names.len() && 0 <= j < names.len() && i != j implies (#[trigger] names[i]).below(
        #[trigger] names[j],
    ) || names[j].below(names[i]) by {
        lemma_text_below_total(names[i], names[j]);
    }
}

/// Texts of the same length rank by what precedes their last characters, and
/// only then by these.
proof fn lemma_text_below_by_last(a: Seq<char>, b: Seq<char>)
    requires
        a.len() == b.len(),
        a.len() > 0,
    ensures
        text_below(a, b) <==> text_below(a.drop_last(), b.drop_last()) || (a.drop_last()
            == b.drop_last() && a.last() < b.last()),
    decreases a.len(),
{
    let (x, y) = (a.drop_first(), b.drop_first());
    let (v, w) = (a.drop_last(), b.drop_last());
    if a.len() == 1 {
        assert(v =~= w);
        assert(!text_below(x, y));
    } else {
        lemma_text_below_by_last(x, y);
        assert(v.drop_first() =~= x.drop_last());
        assert(w.drop_first() =~= y.drop_last());
        assert(v =~= seq![a[0]] + x.drop_last());
        assert(w =~= seq![b[0]] + y.drop_last());
        if v == w {
            assert(v[0] == w[0]);
            assert(v.drop_first() == w.drop_first());
        }
    }
}

proof fn lemma_digits_rank_as_numbers(a: Seq<char>, b: Seq<char>)
    requires
        all_digits(a),
        all_digits(b),
        a.len() == b.len(),
    ensures
        text_below(a, b) <==> decimal_value(a) < decimal_value(b),
    decreases a.len(),
{
    if a.len() > 0 {
        let (v, w) = (a.drop_last(), b.drop_last());
        lemma_text_below_by_last(a, b);
        lemma_digits_rank_as_numbers(v, w);
        lemma_digits_rank_as_numbers(w, v);
        assert(is_digit(a[a.len() - 1]) && is_digit(b[b.len() - 1]));
        if v != w {
            lemma_text_below_total(v, w);
        }
    }
}

/// Names that differ only in sequence numbers of the same length rank as the
/// numbers do.
pub proof fn law_padded_numbers_rank_as_numbers(stem: Seq<char>, a: Seq<char>, b: Seq<char>)
    requires
        all_digits(a),
        all_digits(b),
        a.len() == b.len(),
    ensures
        text_below(stem + a, stem + b) <==> decimal_value(a) < decimal_value(b),
    decreases stem.len(),
{
    if stem.len() > 0 {
        assert((stem + a).drop_first() =~= stem.drop_first() + a);
        assert((stem + b).drop_first() =~= stem.drop_first() + b);
        law_padded_numbers_rank_as_numbers(stem.drop_first(), a, b);
    } else {
        assert(stem + a =~= a);
        assert(stem + b =~= b);
        lemma_digits_rank_as_numbers(a, b);
    }
}

} // verus!
