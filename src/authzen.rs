//! Decisions of an external policy decision point, and what the library
//! makes of them.
use vstd::prelude::*;

verus! {

/// The action a subject wants to take.
#[derive(Debug, Clone)]
pub struct Action {
    pub name: String,
}

/// A policy decision point's answer.
#[derive(Debug, Clone, Copy, PartialEq, Eq, Structural)]
pub enum Decision {
    Permit,
    Deny,
    Indeterminate,
    NotApplicable,
}

/// Only an explicit permit grants access; every other answer, and every
/// failure to get one, denies.
pub fn grants(decision: Option<Decision>) -> (r: bool)
    ensures
        r == (decision == Some(Decision::Permit)),
{
    match decision {
        Some(Decision::Permit) => true,
        _ => false,
    }
}

/// The search filter to use for `subject_id`: the one the decision point
/// returned with a permit, else the safe default `involved:<subject>`.
pub fn search_filter(decision: Option<Decision>, returned_filter: Option<String>, subject_id: &str) -> (r: String)
    ensures
        decision == Some(Decision::Permit) && returned_filter is Some ==> r@ == returned_filter.unwrap()@,
        !(decision == Some(Decision::Permit) && returned_filter is Some) ==> r@ == "involved:"@ + subject_id@,
{
    match (decision, returned_filter) {
        (Some(Decision::Permit), Some(f)) => f,
        _ => {
            let mut r = String::from_str("involved:");
            r.append(subject_id);
            r
        },
    }
}

/// `url` with every trailing `/` taken off.
pub open spec fn trim_slashes(url: Seq<char>) -> Seq<char>
    decreases url.len(),
{
    if url.len() > 0 && url.last() == '/' {
        trim_slashes(url.drop_last())
    } else {
        url
    }
}

/// The evaluation endpoint of the decision point at `pdp_url`.
pub fn evaluation_url(pdp_url: &str) -> (r: String)
    ensures
        r@ == trim_slashes(pdp_url@) + "/access/v1/evaluation"@,
{
    let mut end = pdp_url.unicode_len();
    assert(pdp_url@.subrange(0, end as int) =~= pdp_url@);
    while end > 0 && pdp_url.get_char(end - 1) == '/'
        invariant
            end <= pdp_url@.len(),
            trim_slashes(pdp_url@.subrange(0, end as int)) == trim_slashes(pdp_url@),
        decreases end,
    {
        assert(pdp_url@.subrange(0, end as int).drop_last() =~= pdp_url@.subrange(0, end - 1));
        end = end - 1;
    }
    let base = pdp_url.substring_char(0, end);
    let mut r = base.to_string();
    r.append("/access/v1/evaluation");
    r
}

} // verus!
