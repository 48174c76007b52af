//! The filter itself: the decision procedure over a request's `User-Agent`
//! header value, and the laws that hold of it.
//!
//! The decision is a pure function of the header value. A value is rejected
//! exactly when it has the recognized `Firefox-iOS-Sync` shape and its major
//! version is below [`MIN_SUPPORTED_MAJOR`]; a missing, unreadable or
//! unrecognized value passes, so the filter fails open.

use vstd::prelude::*;

use crate::pattern::digits_val;
use crate::pattern::lemma_digit_run_unique;
use crate::pattern::lemma_parts_shape;
use crate::pattern::lemma_shape_parts;
use crate::pattern::spec_matches;
use crate::pattern::spec_should_reject;
use crate::pattern::MIN_SUPPORTED_MAJOR;
use crate::pattern::UaParts;
use crate::scan::capped_digits_value;
use crate::scan::find_shape;

verus! {

/// The outcome of evaluating one request's `User-Agent` header.
#[derive(Clone, Copy, Debug, PartialEq, Eq, Structural)]
pub enum Decision {
    /// Let the request through to the downstream handler.
    Pass,
    /// Answer the request at once with the fixed rejection response.
    Reject,
}

/// The decision for an optional header value: reject exactly a present value
/// of the recognized shape whose major version is below the threshold.
pub open spec fn spec_evaluate(ua: Option<Seq<char>>) -> Decision {
    match ua {
        Option::Some(s) => if spec_should_reject(s) {
            Decision::Reject
        } else {
            Decision::Pass
        },
        Option::None => Decision::Pass,
    }
}

/// The view of an optional header value.
pub open spec fn opt_chars(ua: Option<&str>) -> Option<Seq<char>> {
    match ua {
        Option::Some(s) => Option::Some(s@),
        Option::None => Option::None,
    }
}

/// The HTTP status of the fixed rejection response.
pub const REJECTION_STATUS: u16 = 500;

/// The body of the fixed rejection response.
pub fn rejection_body() -> (b: &'static str)
    ensures
        b@ == "XXX"@,
{
    "XXX"
}

/// Whether the header value names a `Firefox-iOS-Sync` client whose major
/// version is below [`MIN_SUPPORTED_MAJOR`].
pub fn should_reject(ua: &str) -> (r: bool)
    ensures
        r == spec_should_reject(ua@),
{
    match find_shape(ua) {
        Option::None => {
            proof {
                assert forall|p: UaParts|
                    !(p.wf() && ua@ == p.assembled() && digits_val(p.major)
                        < MIN_SUPPORTED_MAJOR as int) by {
                    if p.wf() && ua@ == p.assembled() {
                        lemma_parts_shape(ua@, p);
                    }
                }
            }
            false
        },
        Option::Some(t) => {
            let (t1, t2, t3, t4, t5) = t;
            let v = capped_digits_value(ua, 17, t1);
            let r = v < MIN_SUPPORTED_MAJOR;
            proof {
                let maj = ua@.subrange(17, t1 as int);
                if r {
                    let p = lemma_shape_parts(
                        ua@,
                        t1 as int,
                        t2 as int,
                        t3 as int,
                        t4 as int,
                        t5 as int,
                    );
                    assert(p.wf() && ua@ == p.assembled() && digits_val(p.major)
                        < MIN_SUPPORTED_MAJOR as int);
                } else {
                    assert forall|p: UaParts|
                        !(p.wf() && ua@ == p.assembled() && digits_val(p.major)
                            < MIN_SUPPORTED_MAJOR as int) by {
                        if p.wf() && ua@ == p.assembled() {
                            lemma_parts_shape(ua@, p);
                            lemma_digit_run_unique(ua@, 17, t1 as int, p.t1());
                            assert(p.major == maj);
                        }
                    }
                }
            }
            r
        },
    }
}

/// Evaluates the raw header value of one request. The decision depends on
/// that value alone, so evaluating the same value again gives the same
/// decision.
pub fn evaluate(ua: Option<&str>) -> (d: Decision)
    ensures
        d == spec_evaluate(opt_chars(ua)),
{
    match ua {
        Option::Some(s) => {
            if should_reject(s) {
                Decision::Reject
            } else {
                Decision::Pass
            }
        },
        Option::None => Decision::Pass,
    }
}

/// The middleware's configuration handle. The filter keeps no state: every
/// decision is computed afresh from the header value alone.
#[derive(Clone, Copy, Debug, Default)]
pub struct RejectOldIos;

impl RejectOldIos {
    /// Makes a filter handle.
    pub fn new() -> RejectOldIos {
        RejectOldIos
    }
}

/// A header value that does not match the recognized shape passes.
pub proof fn lemma_unrecognized_passes(s: Seq<char>)
    requires
        !spec_matches(s),
    ensures
        spec_evaluate(Option::Some(s)) == Decision::Pass,
{
    if spec_should_reject(s) {
        let p = choose|p: UaParts|
            p.wf() && s == p.assembled() && digits_val(p.major) < MIN_SUPPORTED_MAJOR as int;
        assert(p.wf() && s == p.assembled());
        assert(spec_matches(s));
    }
}

/// A well-formed header value whose major version is below the threshold is
/// rejected.
pub proof fn lemma_outdated_rejected(p: UaParts)
    requires
        p.wf(),
        digits_val(p.major) < MIN_SUPPORTED_MAJOR as int,
    ensures
        spec_evaluate(Option::Some(p.assembled())) == Decision::Reject,
{
    assert(spec_should_reject(p.assembled()));
}

/// A well-formed header value whose major version meets the threshold passes.
pub proof fn lemma_supported_passes(p: UaParts)
    requires
        p.wf(),
        digits_val(p.major) >= MIN_SUPPORTED_MAJOR as int,
    ensures
        spec_evaluate(Option::Some(p.assembled())) == Decision::Pass,
{
    let s = p.assembled();
    lemma_parts_shape(s, p);
    assert forall|q: UaParts|
        !(q.wf() && s == q.assembled() && digits_val(q.major) < MIN_SUPPORTED_MAJOR as int) by {
        if q.wf() && s == q.assembled() {
            lemma_parts_shape(s, q);
            lemma_digit_run_unique(s, 17, p.t1(), q.t1());
            assert(q.major == s.subrange(17, q.t1()));
            assert(p.major == s.subrange(17, p.t1()));
        }
    }
}

/// A request without a `User-Agent` header passes.
pub proof fn lemma_missing_header_passes()
    ensures
        spec_evaluate(Option::<Seq<char>>::None) == Decision::Pass,
{
}

} // verus!
