//! Where one participant stands among all that are listed.
//!
//! Participants are ranked. Of two that rank alike, the one that is listed
//! first goes first.

use vstd::prelude::*;

verus! {

/// What can be ranked.
pub trait Ranked: Sized {
    /// `self` goes before `other`.
    spec fn below(self, other: Self) -> bool;

    proof fn below_is_asymmetric(self, other: Self)
        requires
            self.below(other),
        ensures
            !other.below(self),
    ;

    /// What lies between goes after the one or before the other.
    proof fn below_splits(self, middle: Self, other: Self)
        requires
            self.below(other),
        ensures
            self.below(middle) || middle.below(other),
    ;
}

/// A value that stands for something ranked, and can tell how it ranks.
pub trait Rankable: View where <Self as View>::V: Ranked {
    fn is_below(&self, other: &Self) -> (yes: bool)
        ensures
            yes == self@.below(other@),
    ;
}

/// The `i`th item goes before the `j`th.
pub open spec fn goes_before<T: Ranked>(items: Seq<T>, i: int, j: int) -> bool {
    items[i].below(items[j]) || (!items[j].below(items[i]) && i < j)
}

/// No item goes before the `k`th.
pub open spec fn is_foremost<T: Ranked>(items: Seq<T>, k: int) -> bool {
    &&& 0 <= k < items.len()
    &&& forall|j: int| 0 <= j < items.len() ==> !#[trigger] goes_before(items, j, k)
}

/// The `p`th item goes before the `k`th, with none between them.
pub open spec fn is_just_before<T: Ranked>(items: Seq<T>, p: int, k: int) -> bool {
    &&& 0 <= p < items.len()
    &&& 0 <= k < items.len()
    &&& goes_before(items, p, k)
    &&& forall|j: int|
        0 <= j < items.len() && #[trigger] goes_before(items, j, k) ==> !goes_before(items, p, j)
}

/// Where a participant stands.
pub enum Place<T> {
    /// It is not listed.
    Unlisted,
    /// It goes first.
    First,
    /// It goes right after another.
    After(T),
}

/// `items[k]` is the first of the items that equals `me`.
pub open spec fn is_first_at<T>(items: Seq<T>, me: T, k: int) -> bool {
    &&& 0 <= k < items.len()
    &&& items[k] == me
    &&& forall|j: int| 0 <= j < k ==> items[j] != me
}

/// `me` stands at `place` among `items`.
pub open spec fn stands_at<T: Ranked>(items: Seq<T>, me: T, place: Place<T>) -> bool {
    match place {
        Place::Unlisted => forall|k: int| 0 <= k < items.len() ==> items[k] != me,
        Place::First => exists|k: int| #[trigger] is_first_at(items, me, k) && is_foremost(items, k),
        Place::After(other) => exists|k: int, p: int| #[trigger]
            is_first_at(items, me, k) && #[trigger] is_just_before(items, p, k) && items[p]
                == other,
    }
}

/// The views of a sequence of values.
pub open spec fn views<T: View>(items: Seq<T>) -> Seq<T::V> {
    items.map_values(|item: T| item@)
}

/// Finds the item that goes right before the `k`th.
pub fn find_just_before<T>(items: &Vec<T>, k: usize) -> (found: Option<usize>) where
    T: Rankable,
    <T as View>::V: Ranked,

    requires
        k < items.len(),
    ensures
        match found {
            Some(p) => is_just_before(views(items@), p as int, k as int),
            None => is_foremost(views(items@), k as int),
        },
{
    let ghost all = views(items@);
    let mut best: Option<usize> = None;
    let mut i: usize = 0;
    while i < items.len()
        invariant
            k < items.len(),
            i <= items.len(),
            all == views(items@),
            match best {
                Some(p) => p < i && goes_before(all, p as int, k as int) && forall|j: int|
                    0 <= j < i && #[trigger] goes_before(all, j, k as int) ==> !goes_before(
                        all,
                        p as int,
                        j,
                    ),
                None => forall|j: int| 0 <= j < i ==> !#[trigger] goes_before(all, j, k as int),
            },
        decreases items.len() - i,
    {
        let before = items[i].is_below(&items[k]) || (!items[k].is_below(&items[i]) && i < k);
        assert(before == goes_before(all, i as int, k as int));
        if before {
            let better = match best {
                None => true,
                Some(p) => !items[i].is_below(&items[p]),
            };
            if better {
                proof {
                    if best is Some {
                        let p = best->0 as int;
                        assert(goes_before(all, p, i as int));
                        assert forall|j: int|
                            0 <= j < i && #[trigger] goes_before(
                                all,
                                j,
                                k as int,
                            ) implies !goes_before(all, i as int, j) by {
                            if goes_before(all, i as int, j) {
                                lemma_goes_before_is_transitive(all, p, i as int, j);
                            }
                        }
                    }
                    lemma_goes_before_is_asymmetric(all, i as int, i as int);
                }
                best = Some(i);
            } else {
                assert(!goes_before(all, best->0 as int, i as int)) by {
                    let p = best->0 as int;
                    all[i as int].below_is_asymmetric(all[p]);
                }
            }
        }
        i = i + 1;
    }
    best
}

pub proof fn lemma_goes_before_is_asymmetric<T: Ranked>(items: Seq<T>, i: int, j: int)
    ensures
        goes_before(items, i, j) ==> !goes_before(items, j, i),
{
    if items[i].below(items[j]) {
        items[i].below_is_asymmetric(items[j]);
    }
}

pub proof fn lemma_goes_before_is_transitive<T: Ranked>(items: Seq<T>, i: int, j: int, k: int)
    requires
        goes_before(items, i, j),
        goes_before(items, j, k),
    ensures
        goes_before(items, i, k),
{
    let (a, b, c) = (items[i], items[j], items[k]);
    if a.below(b) {
        a.below_splits(c, b);
        if c.below(b) {
            c.below_is_asymmetric(b);
        }
    } else if b.below(c) {
        b.below_splits(a, c);
    } else if c.below(a) {
        c.below_splits(b, a);
    }
}

pub proof fn lemma_goes_before_is_total<T: Ranked>(items: Seq<T>, i: int, j: int)
    requires
        i != j,
    ensures
        goes_before(items, i, j) || goes_before(items, j, i),
{
}

/// A participant stands at one place.
pub proof fn law_place_is_unique<T: Ranked>(
    items: Seq<T>,
    me: T,
    place: Place<T>,
    other_place: Place<T>,
)
    requires
        stands_at(items, me, place),
        stands_at(items, me, other_place),
    ensures
        place == other_place,
{
    if place is After && other_place is After {
        let (k, p) = choose|k: int, p: int| #[trigger]
            is_first_at(items, me, k) && #[trigger] is_just_before(items, p, k) && items[p]
                == place->After_0;
        let (l, q) = choose|l: int, q: int| #[trigger]
            is_first_at(items, me, l) && #[trigger] is_just_before(items, q, l) && items[q]
                == other_place->After_0;
        assert(k == l);
        if p != q {
            lemma_goes_before_is_total(items, p, q);
        }
    }
}

/// Of the items that go before the `k`th and are among the first `n`, one goes
/// last.
proof fn lemma_last_before<T: Ranked>(items: Seq<T>, k: int, n: int) -> (p: int)
    requires
        0 <= k < items.len(),
        0 <= n <= items.len(),
    ensures
        p == -1 ==> forall|j: int| 0 <= j < n ==> !#[trigger] goes_before(items, j, k),
        p != -1 ==> 0 <= p < n && goes_before(items, p, k) && forall|j: int|
            0 <= j < n && #[trigger] goes_before(items, j, k) ==> !goes_before(items, p, j),
    decreases n,
{
    if n == 0 {
        -1
    } else {
        let p = lemma_last_before(items, k, n - 1);
        let i = n - 1;
        if !goes_before(items, i, k) {
            p
        } else if p == -1 {
            lemma_goes_before_is_asymmetric(items, i, i);
            i
        } else if goes_before(items, p, i) {
            assert forall|j: int| 0 <= j < n && #[trigger] goes_before(items, j, k) implies !goes_before(
                items,
                i,
                j,
            ) by {
                if goes_before(items, i, j) {
                    if j == i {
                        lemma_goes_before_is_asymmetric(items, i, i);
                    } else {
                        lemma_goes_before_is_transitive(items, p, i, j);
                    }
                }
            }
            i
        } else {
            p
        }
    }
}

/// Every participant that is listed goes first or right after another.
pub proof fn law_listed_has_a_place<T: Ranked>(items: Seq<T>, me: T) -> (place: Place<T>)
    requires
        items.contains(me),
    ensures
        stands_at(items, me, place),
        !(place is Unlisted),
{
    let k = lemma_first_index(items, me, items.len() as int);
    let p = lemma_last_before(items, k, items.len() as int);
    if p == -1 {
        assert(is_foremost(items, k));
        Place::First
    } else {
        assert(is_just_before(items, p, k));
        Place::After(items[p])
    }
}

proof fn lemma_first_index<T>(items: Seq<T>, me: T, n: int) -> (k: int)
    requires
        0 <= n <= items.len(),
        exists|j: int| 0 <= j < n && items[j] == me,
    ensures
        is_first_at(items, me, k),
        k < n,
    decreases n,
{
    if exists|j: int| 0 <= j < n - 1 && items[j] == me {
        lemma_first_index(items, me, n - 1)
    } else {
        n - 1
    }
}

proof fn lemma_foremost<T: Ranked>(items: Seq<T>, n: int) -> (k: int)
    requires
        0 < n <= items.len(),
    ensures
        0 <= k < n,
        forall|j: int| 0 <= j < n ==> !#[trigger] goes_before(items, j, k),
    decreases n,
{
    if n == 1 {
        lemma_goes_before_is_asymmetric(items, 0, 0);
        0
    } else {
        let k = lemma_foremost(items, n - 1);
        let i = n - 1;
        if goes_before(items, i, k) {
            assert forall|j: int| 0 <= j < n implies !#[trigger] goes_before(items, j, i) by {
                if goes_before(items, j, i) {
                    if j == i {
                        lemma_goes_before_is_asymmetric(items, i, i);
                    } else {
                        lemma_goes_before_is_transitive(items, j, i, k);
                    }
                }
            }
            i
        } else {
            k
        }
    }
}

/// Where anyone is listed, someone goes first.
pub proof fn law_someone_goes_first<T: Ranked>(items: Seq<T>) -> (me: T)
    requires
        items.len() > 0,
    ensures
        items.contains(me),
        stands_at(items, me, Place::First),
{
    let k = lemma_foremost(items, items.len() as int);
    let me = items[k];
    assert forall|j: int| 0 <= j < k implies items[j] != me by {
        assert(!goes_before(items, j, k));
        if me.below(me) {
            me.below_is_asymmetric(me);
        }
    }
    assert(is_first_at(items, me, k) && is_foremost(items, k));
    me
}

/// No two participants go first.
pub proof fn law_one_goes_first<T: Ranked>(items: Seq<T>, me: T, other: T)
    requires
        stands_at(items, me, Place::First),
        stands_at(items, other, Place::First),
    ensures
        me == other,
{
    let k = choose|k: int| #[trigger] is_first_at(items, me, k) && is_foremost(items, k);
    let l = choose|l: int| #[trigger] is_first_at(items, other, l) && is_foremost(items, l);
    if k != l {
        lemma_goes_before_is_total(items, k, l);
    }
}

/// No two participants go right after the same one, unless one is listed twice.
pub proof fn law_one_goes_right_after<T: Ranked>(items: Seq<T>, me: T, other: T, ahead: T)
    requires
        items.no_duplicates(),
        stands_at(items, me, Place::After(ahead)),
        stands_at(items, other, Place::After(ahead)),
    ensures
        me == other,
{
    let (k, p) = choose|k: int, p: int| #[trigger]
        is_first_at(items, me, k) && #[trigger] is_just_before(items, p, k) && items[p] == ahead;
    let (l, q) = choose|l: int, q: int| #[trigger]
        is_first_at(items, other, l) && #[trigger] is_just_before(items, q, l) && items[q] == ahead;
    assert(p == q);
    if k != l {
        lemma_goes_before_is_total(items, k, l);
    }
}

/// No two of the items rank alike.
pub open spec fn all_rank_apart<T: Ranked>(items: Seq<T>) -> bool {
    forall|i: int, j: int|
        0 <= i < items.len() && 0 <= j < items.len() && i != j ==> (#[trigger] items[i]).below(
            #[trigger] items[j],
        ) || items[j].below(items[i])
}

/// Where no two rank alike, the first is the one that none ranks below, and
/// each other goes right after the highest of those below it.
pub proof fn law_rank_decides_place<T: Ranked>(items: Seq<T>, me: T, place: Place<T>)
    requires
        all_rank_apart(items),
    ensures
        stands_at(items, me, place) <==> match place {
            Place::Unlisted => !items.contains(me),
            Place::First => items.contains(me) && forall|x: T| #[trigger]
                items.contains(x) ==> !x.below(me),
            Place::After(ahead) => items.contains(me) && items.contains(ahead) && ahead.below(me)
                && forall|x: T| #[trigger]
                items.contains(x) ==> !(ahead.below(x) && x.below(me)),
        },
{
    assert forall|i: int, j: int|
        0 <= i < items.len() && 0 <= j < items.len() implies goes_before(items, i, j)
        == items[i].below(items[j]) by {
        if items[i].below(items[i]) {
            items[i].below_is_asymmetric(items[i]);
        }
    }
    if items.contains(me) {
        let k = lemma_first_index(items, me, items.len() as int);
        match place {
            Place::Unlisted => {},
            Place::First => {
                if stands_at(items, me, place) {
                    let l = choose|l: int| #[trigger]
                        is_first_at(items, me, l) && is_foremost(items, l);
                    assert forall|x: T| #[trigger] items.contains(x) implies !x.below(me) by {
                        let j = choose|j: int| 0 <= j < items.len() && items[j] == x;
                        assert(!goes_before(items, j, l));
                    }
                }
                if forall|x: T| #[trigger] items.contains(x) ==> !x.below(me) {
                    assert forall|j: int| 0 <= j < items.len() implies !#[trigger] goes_before(
                        items,
                        j,
                        k,
                    ) by {
                        assert(items.contains(items[j]));
                    }
                    assert(is_first_at(items, me, k) && is_foremost(items, k));
                }
            },
            Place::After(ahead) => {
                if stands_at(items, me, place) {
                    let (l, p) = choose|l: int, p: int| #[trigger]
                        is_first_at(items, me, l) && #[trigger] is_just_before(items, p, l)
                            && items[p] == ahead;
                    assert forall|x: T| #[trigger] items.contains(x) implies !(ahead.below(x)
                        && x.below(me)) by {
                        let j = choose|j: int| 0 <= j < items.len() && items[j] == x;
                        assert(goes_before(items, j, l) ==> !goes_before(items, p, j));
                    }
                }
                if items.contains(ahead) && ahead.below(me) && (forall|x: T| #[trigger]
                    items.contains(x) ==> !(ahead.below(x) && x.below(me))) {
                    let p = choose|p: int| 0 <= p < items.len() && items[p] == ahead;
                    assert forall|j: int|
                        0 <= j < items.len() && #[trigger] goes_before(
                            items,
                            j,
                            k,
                        ) implies !goes_before(items, p, j) by {
                        assert(items.contains(items[j]));
                    }
                    assert(is_first_at(items, me, k) && is_just_before(items, p, k));
                }
            },
        }
    }
}

/// Where no two rank alike, the order in which they are listed does not matter.
pub proof fn law_listing_order_is_irrelevant<T: Ranked>(
    items: Seq<T>,
    reordered: Seq<T>,
    me: T,
    place: Place<T>,
)
    requires
        all_rank_apart(items),
        all_rank_apart(reordered),
        forall|x: T| #[trigger] reordered.contains(x) <==> items.contains(x),
        stands_at(items, me, place),
    ensures
        stands_at(reordered, me, place),
{
    law_rank_decides_place(items, me, place);
    law_rank_decides_place(reordered, me, place);
}

/// Where no two rank alike, sorting shows the places: the first of the sorted
/// goes first, and each other goes right after the one that is sorted before it.
pub proof fn law_sorting_shows_the_places<T: Ranked>(items: Seq<T>, sorted: Seq<T>, i: int)
    requires
        all_rank_apart(items),
        forall|x: T| #[trigger] items.contains(x) <==> sorted.contains(x),
        forall|a: int, b: int|
            0 <= a < b < sorted.len() ==> (#[trigger] sorted[a]).below(#[trigger] sorted[b]),
        0 <= i < sorted.len(),
    ensures
        stands_at(
            items,
            sorted[i],
            if i == 0 {
                Place::First
            } else {
                Place::After(sorted[i - 1])
            },
        ),
{
    let place = if i == 0 {
        Place::First
    } else {
        Place::After(sorted[i - 1])
    };
    assert(sorted.contains(sorted[i]));
    law_rank_decides_place(items, sorted[i], place);
    assert forall|x: T| #[trigger] items.contains(x) && x.below(sorted[i]) implies i > 0
        && !sorted[i - 1].below(x) by {
        let j = choose|j: int| 0 <= j < sorted.len() && sorted[j] == x;
        x.below_is_asymmetric(sorted[i]);
        assert(j < i);
        if j < i - 1 {
            sorted[j].below_is_asymmetric(sorted[i - 1]);
        } else if sorted[i - 1].below(x) {
            x.below_is_asymmetric(x);
        }
    }
    if i > 0 {
        assert(sorted.contains(sorted[i - 1]));
    }
}

/// When the one right ahead leaves, the one behind takes over its place: behind
/// the first it becomes the first.
pub proof fn law_next_takes_the_place<T: Ranked>(
    items: Seq<T>,
    later: Seq<T>,
    me: T,
    ahead: T,
    place: Place<T>,
)
    requires
        all_rank_apart(items),
        all_rank_apart(later),
        forall|x: T| #[trigger] later.contains(x) <==> items.contains(x) && x != ahead,
        stands_at(items, me, Place::After(ahead)),
        stands_at(items, ahead, place),
    ensures
        stands_at(later, me, place),
{
    law_rank_decides_place(items, me, Place::After(ahead));
    law_rank_decides_place(items, ahead, place);
    law_rank_decides_place(later, me, place);
    ahead.below_is_asymmetric(me);
    assert forall|x: T| #[trigger] items.contains(x) && x.below(me) && x != ahead implies x.below(
        ahead,
    ) by {
        let i = choose|i: int| 0 <= i < items.len() && items[i] == x;
        let j = choose|j: int| 0 <= j < items.len() && items[j] == ahead;
        assert(items[i].below(items[j]) || items[j].below(items[i]));
    }
    if place is After {
        let before = place->After_0;
        before.below_splits(me, ahead);
        if me.below(ahead) {
            me.below_is_asymmetric(ahead);
        }
        before.below_is_asymmetric(ahead);
    }
}

/// One who leaves concerns only the one right behind: each other one that stays
/// keeps its place.
pub proof fn law_others_keep_their_place<T: Ranked>(
    items: Seq<T>,
    later: Seq<T>,
    me: T,
    gone: T,
    place: Place<T>,
)
    requires
        all_rank_apart(items),
        all_rank_apart(later),
        forall|x: T| #[trigger] later.contains(x) <==> items.contains(x) && x != gone,
        me != gone,
        place != Place::After(gone),
        stands_at(items, me, place),
    ensures
        stands_at(later, me, place),
{
    law_rank_decides_place(items, me, place);
    law_rank_decides_place(later, me, place);
}

/// One who joins behind does not move those ahead.
pub proof fn law_newcomer_behind_moves_none<T: Ranked>(
    items: Seq<T>,
    later: Seq<T>,
    me: T,
    newcomer: T,
    place: Place<T>,
)
    requires
        all_rank_apart(items),
        all_rank_apart(later),
        forall|x: T| #[trigger] later.contains(x) <==> items.contains(x) || x == newcomer,
        me.below(newcomer),
        stands_at(items, me, place),
        items.contains(me),
    ensures
        stands_at(later, me, place),
{
    law_rank_decides_place(items, me, place);
    law_rank_decides_place(later, me, place);
    me.below_is_asymmetric(newcomer);
}

/// Of the items that go before another, because they rank below it or rank alike
/// and are listed earlier, the last one is found; none is found exactly if there
/// are none.
pub proof fn law_last_of_those_before_is_found<T>(items: Vec<T>, k: usize, found: Option<usize>) where
    T: Rankable,
    <T as View>::V: Ranked,

    requires
        k < items@.len(),
        call_ensures(find_just_before::<T>, (&items, k), found),
    ensures
        match found {
            None => forall|j: int|
                0 <= j < items@.len() ==> !(#[trigger] items@[j])@.below(items@[k as int]@) && (j < k
                    ==> items@[k as int]@.below(items@[j]@)),
            Some(p) => {
                &&& p < items@.len()
                &&& items@[p as int]@.below(items@[k as int]@) || (p < k
                    && !items@[k as int]@.below(items@[p as int]@))
                &&& forall|j: int|
                    0 <= j < items@.len() && (#[trigger] items@[j])@.below(items@[k as int]@)
                        ==> !items@[p as int]@.below(items@[j]@) && (p < j
                        ==> items@[j]@.below(items@[p as int]@))
                &&& forall|j: int|
                    0 <= j < k && !items@[k as int]@.below((#[trigger] items@[j])@)
                        ==> !items@[p as int]@.below(items@[j]@) && (p < j
                        ==> items@[j]@.below(items@[p as int]@))
            },
        },
{
    let all = views(items@);
    let n = k as int;
    assert(all.len() == items@.len());
    assert forall|j: int| 0 <= j < items@.len() implies #[trigger] all[j] == items@[j]@ by {}
    match found {
        None => {
            assert forall|j: int| 0 <= j < items@.len() implies !(#[trigger] items@[j])@.below(
                items@[n]@,
            ) && (j < k ==> items@[n]@.below(items@[j]@)) by {
                assert(all[j] == items@[j]@);
                assert(!goes_before(all, j, n));
            }
        },
        Some(p) => {
            let q = p as int;
            assert(goes_before(all, q, n));
            assert(all[q] == items@[q]@ && all[n] == items@[n]@);
            assert forall|j: int|
                0 <= j < items@.len() && (#[trigger] items@[j])@.below(
                    items@[n]@,
                ) implies !items@[q]@.below(items@[j]@) && (q < j ==> items@[j]@.below(
                items@[q]@,
            )) by {
                assert(all[j] == items@[j]@);
                assert(goes_before(all, j, n));
                assert(!goes_before(all, q, j));
            }
            assert forall|j: int|
                0 <= j < k && !items@[n]@.below((#[trigger] items@[j])@) implies !items@[q]@.below(
                items@[j]@,
            ) && (q < j ==> items@[j]@.below(items@[q]@)) by {
                assert(all[j] == items@[j]@);
                assert(goes_before(all, j, n));
                assert(!goes_before(all, q, j));
            }
        },
    }
}

/// Every value has its own view, at its own place.
pub proof fn law_views_are_those_of_the_values<T: View>(items: Seq<T>)
    ensures
        views(items).len() == items.len(),
        forall|i: int| 0 <= i < items.len() ==> #[trigger] views(items)[i] == items[i]@,
{
}

} // verus!
