//! Deadlines. Time is counted in nanoseconds since some fixed moment.

use crate::types::TimeoutKind;
use vstd::prelude::*;

verus! {

/// The earlier of two deadlines, where there are any.
pub open spec fn sooner(left: Option<u64>, right: Option<u64>) -> Option<u64> {
    match (left, right) {
        (Some(left), Some(right)) => Some(
            if left <= right {
                left
            } else {
                right
            },
        ),
        (None, right) => right,
        (left, None) => left,
    }
}

/// The earlier of two deadlines, where there are any.
pub fn earlier(left: Option<u64>, right: Option<u64>) -> (result: Option<u64>)
    ensures
        result == sooner(left, right),
{
    match (left, right) {
        (Some(left), Some(right)) => Some(
            if left <= right {
                left
            } else {
                right
            },
        ),
        (None, right) => right,
        (left, None) => left,
    }
}

/// The deadline that a timeout sets, where there is one and it can be expressed.
pub open spec fn due(now: u64, timeout: Option<u64>) -> Option<u64> {
    match timeout {
        None => None,
        Some(timeout) => if now + timeout > u64::MAX {
            None
        } else {
            Some((now + timeout) as u64)
        },
    }
}

/// The deadline that a timeout sets, where there is one and it can be expressed.
pub fn deadline_after(now: u64, timeout: Option<u64>) -> (result: Option<u64>)
    ensures
        result == due(now, timeout),
{
    match timeout {
        None => None,
        Some(timeout) => now.checked_add(timeout),
    }
}

/// Whether a deadline has passed.
pub open spec fn is_past(deadline: Option<u64>, now: u64) -> bool {
    deadline matches Some(at) && at <= now
}

/// Whether a deadline has passed.
pub fn has_passed(deadline: Option<u64>, now: u64) -> (result: bool)
    ensures
        result == is_past(deadline, now),
{
    match deadline {
        Some(at) => at <= now,
        None => false,
    }
}

/// Which of the deadlines that can pass has passed: the total one counts before the connect one, and
/// that before the one on inactivity.
pub open spec fn passed_kind(
    total: Option<u64>,
    connect: Option<u64>,
    inactivity: Option<u64>,
    now: u64,
) -> TimeoutKind {
    if is_past(total, now) {
        TimeoutKind::Total
    } else if is_past(connect, now) {
        TimeoutKind::Connect
    } else if is_past(inactivity, now) {
        TimeoutKind::Inactivity
    } else {
        TimeoutKind::Unknown
    }
}

/// Which of the deadlines that can pass has passed.
pub fn classify_timeout(
    total: Option<u64>,
    connect: Option<u64>,
    inactivity: Option<u64>,
    now: u64,
) -> (result: TimeoutKind)
    ensures
        result == passed_kind(total, connect, inactivity, now),
{
    if has_passed(total, now) {
        TimeoutKind::Total
    } else if has_passed(connect, now) {
        TimeoutKind::Connect
    } else if has_passed(inactivity, now) {
        TimeoutKind::Inactivity
    } else {
        TimeoutKind::Unknown
    }
}

/// The next deadline of three has passed exactly when one of them has, and then the kind says which.
pub proof fn lemma_expiry_has_a_kind(
    total: Option<u64>,
    connect: Option<u64>,
    inactivity: Option<u64>,
    now: u64,
)
    ensures
        is_past(sooner(sooner(total, connect), inactivity), now) <==> !(passed_kind(
            total,
            connect,
            inactivity,
            now,
        ) is Unknown),
{
}

} // verus!
