//! The delays between attempts to reach the service.

use backon::{BackoffBuilder, ExponentialBackoff, ExponentialBuilder};
use core::time::Duration;
use vstd::prelude::*;

verus! {

/// A builder of growing delays, of the `backon` crate.
#[verifier::external_type_specification]
#[verifier::external_body]
pub struct ExExponentialBuilder(backon::ExponentialBuilder);

/// The delays of one series of attempts, of the `backon` crate.
#[verifier::external_type_specification]
#[verifier::external_body]
pub struct ExExponentialBackoff(backon::ExponentialBackoff);

/// The builder with default settings but for the first delay.
pub uninterp spec fn starting_at(min_delay_millis: u64) -> ExponentialBuilder;

/// The builder whose delays are lengthened at random.
pub uninterp spec fn jittered(builder: ExponentialBuilder) -> ExponentialBuilder;

/// The builder whose delays grow no longer than this.
pub uninterp spec fn growing_to(
    builder: ExponentialBuilder,
    max_delay_millis: u64,
) -> ExponentialBuilder;

/// The builder of so many delays.
pub uninterp spec fn limited_to(builder: ExponentialBuilder, max_times: usize) -> ExponentialBuilder;

/// The builder that a series of delays was started by.
pub uninterp spec fn started_by(backoff: ExponentialBackoff) -> ExponentialBuilder;

/// The number of delays that are given before none is.
pub uninterp spec fn delays_left(backoff: ExponentialBackoff) -> nat;

/// The next delay, in nanoseconds, and what is left after it.
pub uninterp spec fn next_of(backoff: ExponentialBackoff) -> (Option<u128>, ExponentialBackoff);

/// The builder of delays that start at `min_delay_millis`, grow up to
/// `max_delay_millis`, are lengthened at random, and are `max_times` in all.
pub open spec fn jittered_backoff(
    min_delay_millis: u64,
    max_delay_millis: u64,
    max_times: usize,
) -> ExponentialBuilder {
    limited_to(growing_to(jittered(starting_at(min_delay_millis)), max_delay_millis), max_times)
}

/// The builder is one of jittered delays, on which no other limit was set.
pub open spec fn is_jittered_backoff(builder: ExponentialBuilder) -> bool {
    exists|min_delay_millis: u64, max_delay_millis: u64, max_times: usize|
        builder == #[trigger] jittered_backoff(min_delay_millis, max_delay_millis, max_times)
}

/// A series of `n` delays is what the builder promises, if it is a builder of
/// jittered delays.
pub open spec fn promises(builder: ExponentialBuilder, n: nat) -> bool {
    forall|min_delay_millis: u64, max_delay_millis: u64, max_times: usize|
        builder == #[trigger] jittered_backoff(min_delay_millis, max_delay_millis, max_times) ==> n
            == max_times
}

/// A delay of so many nanoseconds is one that the builder allows, if it is a
/// builder of jittered delays: it is no shorter than the shorter of the first and
/// the longest delay that were set, and no more than three times the longer.
pub open spec fn allows(builder: ExponentialBuilder, nanos: u128) -> bool {
    forall|min_delay_millis: u64, max_delay_millis: u64, max_times: usize|
        builder == #[trigger] jittered_backoff(min_delay_millis, max_delay_millis, max_times) ==> {
            &&& nanos >= 1_000_000 * min_delay_millis || nanos >= 1_000_000 * max_delay_millis
            &&& nanos <= 3_000_000 * min_delay_millis || nanos <= 3_000_000 * max_delay_millis
        }
}

/// Makes a builder by `backon::ExponentialBuilder::default` and its
/// `with_min_delay`.
///
/// Trusted: the builder is a function of the delay. A builder shows nothing of
/// its settings, so no more is said of it.
#[verifier::external_body]
fn default_with_min_delay(min_delay_millis: u64) -> (builder: ExponentialBuilder)
    ensures
        builder == starting_at(min_delay_millis),
{
    ExponentialBuilder::default().with_min_delay(Duration::from_millis(min_delay_millis))
}

/// Switches jitter on, by `backon::ExponentialBuilder::with_jitter`.
///
/// Trusted: the new builder is a function of the old one. Chance enters only
/// into the delays that it will build.
#[verifier::external_body]
fn with_jitter(builder: ExponentialBuilder) -> (changed: ExponentialBuilder)
    ensures
        changed == jittered(builder),
{
    builder.with_jitter()
}

/// Sets the longest delay, by `backon::ExponentialBuilder::with_max_delay`.
///
/// Trusted: the new builder is a function of the old one and the delay.
#[verifier::external_body]
fn with_max_delay(builder: ExponentialBuilder, max_delay_millis: u64) -> (changed:
    ExponentialBuilder)
    ensures
        changed == growing_to(builder, max_delay_millis),
{
    builder.with_max_delay(Duration::from_millis(max_delay_millis))
}

/// Sets the number of delays, by `backon::ExponentialBuilder::with_max_times`.
///
/// Trusted: the new builder is a function of the old one and the number.
#[verifier::external_body]
fn with_max_times(builder: ExponentialBuilder, max_times: usize) -> (changed: ExponentialBuilder)
    ensures
        changed == limited_to(builder, max_times),
{
    builder.with_max_times(max_times)
}

/// Starts a series of delays, by `backon::ExponentialBuilder::build`.
///
/// Trusted: a builder of jittered delays, on which no other limit was set, gives
/// as many of them as it was told to. Nothing is claimed of how long the delays
/// are, which chance decides.
#[verifier::external_body]
fn start_backoff(builder: ExponentialBuilder) -> (backoff: ExponentialBackoff)
    requires
        is_jittered_backoff(builder),
    ensures
        started_by(backoff) == builder,
        promises(builder, delays_left(backoff)),
{
    builder.build()
}

/// Takes the next delay, in nanoseconds, by `backon::ExponentialBackoff::next`.
///
/// Trusted: while delays are left, one is given and one fewer is left; when none
/// is left, none is given, and none will be. A delay, and what is left after it,
/// is a function of what was left before: the source of chance is part of that.
/// A delay is no shorter than the shorter of the first and the longest delay that
/// were set. Chance adds about as much again at most: three times the longer of
/// the two leaves room for how floating-point numbers are rounded.
#[verifier::external_body]
fn next_delay(backoff: &mut ExponentialBackoff) -> (nanos: Option<u128>)
    requires
        is_jittered_backoff(started_by(*old(backoff))),
    ensures
        (nanos, *final(backoff)) == next_of(*old(backoff)),
        started_by(*final(backoff)) == started_by(*old(backoff)),
        nanos is Some <==> delays_left(*old(backoff)) > 0,
        delays_left(*final(backoff)) == if nanos is Some {
            delays_left(*old(backoff)) - 1
        } else {
            0
        },
        nanos matches Some(nanos) ==> allows(started_by(*old(backoff)), nanos),
{
    match backoff.next() {
        Some(delay) => Some(delay.as_nanos()),
        None => None,
    }
}

/// The delays of an election: five, from a tenth of a second to five seconds.
pub fn election_backoff() -> (builder: ExponentialBuilder)
    ensures
        builder == jittered_backoff(100, 5000, 5),
{
    with_max_times(with_max_delay(with_jitter(default_with_min_delay(100)), 5000), 5)
}

/// The attempts that are still to be had after one that failed, each after a delay.
#[derive(Debug)]
pub struct Attempts {
    backoff: ExponentialBackoff,
}

impl Attempts {
    /// How many attempts are left.
    pub closed spec fn left(&self) -> nat {
        delays_left(self.backoff)
    }

    /// The builder of the delays before the attempts.
    pub closed spec fn backoff(&self) -> ExponentialBuilder {
        started_by(self.backoff)
    }

    /// The delay before the next attempt, in nanoseconds.
    pub closed spec fn delay(&self) -> Option<u128> {
        next_of(self.backoff).0
    }

    /// What is left after the next attempt.
    pub closed spec fn others(&self) -> Attempts {
        Attempts { backoff: next_of(self.backoff).1 }
    }

    /// After the next delay, of so many nanoseconds, these attempts are left.
    pub open spec fn used_up(&self, nanos: u128, fewer: Attempts) -> bool {
        &&& self.delay() == Some(nanos)
        &&& self.others() == fewer
        &&& allows(self.backoff(), nanos)
        &&& fewer.backoff() == self.backoff()
    }

    #[verifier::type_invariant]
    spec fn has_jittered_backoff(&self) -> bool {
        is_jittered_backoff(started_by(self.backoff))
    }

    /// All the attempts that a builder of delays gives.
    pub(crate) fn start(builder: ExponentialBuilder) -> (attempts: Attempts)
        requires
            is_jittered_backoff(builder),
        ensures
            promises(builder, attempts.left()),
            attempts.backoff() == builder,
    {
        Attempts { backoff: start_backoff(builder) }
    }

    /// Uses up one attempt, and gives the delay before it and what is left.
    pub(crate) fn use_up(self) -> (used: Option<(u128, Attempts)>)
        ensures
            match used {
                Some((nanos, fewer)) => self.left() > 0 && fewer.left() == self.left() - 1
                    && self.used_up(nanos, fewer),
                None => self.left() == 0,
            },
    {
        proof {
            use_type_invariant(&self);
        }
        let mut backoff = self.backoff;
        match next_delay(&mut backoff) {
            Some(nanos) => Some((nanos, Attempts { backoff })),
            None => None,
        }
    }
}

/// How many attempts are left after one, of `left` before it, that succeeded or
/// not. No other one follows a success, nor a failure when none is left.
pub open spec fn left_after_try(left: nat, succeeded: bool) -> Option<nat> {
    if succeeded || left == 0 {
        None
    } else {
        Some((left - 1) as nat)
    }
}

/// How many attempts are left after the given ones, of `allowance` that may follow
/// the first, or none if no other one follows.
pub open spec fn left_after_tries(allowance: nat, tries: Seq<bool>) -> Option<nat>
    decreases tries.len(),
{
    if tries.len() == 0 {
        Some(allowance)
    } else {
        match left_after_tries(allowance, tries.drop_last()) {
            None => None,
            Some(left) => left_after_try(left, tries.last()),
        }
    }
}

/// Attempts are made until one succeeds, and no more than one and the allowance
/// are: another one follows exactly if none of those made succeeded and no more
/// than the allowance were made. So the last one is the first that succeeds, or
/// the one after which the allowance is spent.
pub proof fn law_tries_end_with_success_or_the_allowance(allowance: nat, tries: Seq<bool>)
    ensures
        left_after_tries(allowance, tries) is Some <==> tries.len() <= allowance && !tries.contains(
            true,
        ),
        left_after_tries(allowance, tries) matches Some(left) ==> left == allowance - tries.len(),
        tries.len() > 0 && left_after_tries(allowance, tries.drop_last()) is Some
            && left_after_tries(allowance, tries) is None ==> !tries.drop_last().contains(true) && (
        tries.last() || tries.len() == allowance + 1),
    decreases tries.len(),
{
    if tries.len() > 0 {
        let before = tries.drop_last();
        law_tries_end_with_success_or_the_allowance(allowance, before);
        if before.contains(true) {
            let k = choose|k: int| 0 <= k < before.len() && before[k];
            assert(tries[k]);
        }
        if tries.contains(true) && !tries.last() {
            let k = choose|k: int| 0 <= k < tries.len() && tries[k];
            assert(before[k]);
        }
        assert(tries[tries.len() - 1] == tries.last());
    }
}

/// The delays of an election start at a tenth of a second, are lengthened at random,
/// grow to five seconds, and are five.
pub proof fn law_election_has_five_growing_delays(builder: ExponentialBuilder)
    requires
        call_ensures(election_backoff, (), builder),
    ensures
        builder == limited_to(growing_to(jittered(starting_at(100)), 5000), 5),
{
}

} // verus!
