//! The second cloud object store's verified part: configuration with eager
//! region validation, and the decisions its operations take on backend
//! responses — the already-owned rule of container creation, the assembly
//! of listings, and the page-by-page accumulation of item names.
//!
//! The adapter around this type issues the HTTP requests. A write buffers
//! the caller's bytes before sending (O(item size) memory overhead), since
//! the store wants the content length up front.

use vstd::prelude::*;
use vstd::string::StrSliceExecFns;

use crate::error::StowError;

verus! {

/// What `rusoto_signature`'s region parser yields on a given string: the
/// canonical name of the recognized region, or nothing.
pub uninterp spec fn parsed_region(s: Seq<char>) -> Option<Seq<char>>;

/// Relies on `rusoto_signature`'s `Region::from_str` and `Region::name`:
/// parsing depends on the string alone, recognizing a region from a fixed
/// table; `name` yields its canonical form.
#[verifier::external_body]
fn parse_region(input: &str) -> (r: Result<String, StowError>)
    ensures
        match r {
            Ok(name) => parsed_region(input@) == Some(name@),
            Err(e) => parsed_region(input@) is None && e == StowError::InvalidRegion,
        },
{
    match input.parse::<rusoto_signature::Region>() {
        Ok(region) => Ok(region.name().to_string()),
        Err(_) => Err(StowError::InvalidRegion),
    }
}

/// Configuration of the second cloud store: a validated region and a static
/// credential pair.
#[derive(Clone, Debug)]
pub struct S3 {
    pub region: String,
    pub access_key: String,
    pub secret_key: String,
}

impl S3 {
    /// Validate the region eagerly — an unknown region string fails here,
    /// at construction, never on a later operation — and record the
    /// credentials.
    pub fn new(region: &str, access_key: &str, secret_key: &str) -> (r: Result<S3, StowError>)
        ensures
            match r {
                Ok(s3) => parsed_region(region@) is Some && s3.region@ == parsed_region(
                    region@,
                )->Some_0 && s3.access_key@ == access_key@ && s3.secret_key@ == secret_key@,
                Err(e) => parsed_region(region@) is None && e == StowError::InvalidRegion,
            },
    {
        let name = match parse_region(region) {
            Ok(n) => n,
            Err(e) => {
                return Err(e);
            },
        };
        Ok(S3 {
            region: name,
            access_key: access_key.to_owned(),
            secret_key: secret_key.to_owned(),
        })
    }
}

/// The views of a list of names.
pub open spec fn names_of(s: Seq<String>) -> Seq<Seq<char>> {
    Seq::new(s.len(), |i: int| s[i]@)
}

/// The names present in a listing, in order; missing entries are dropped.
pub open spec fn present_names(s: Seq<Option<String>>) -> Seq<Seq<char>>
    decreases s.len(),
{
    if s.len() == 0 {
        Seq::empty()
    } else {
        let rest = present_names(s.drop_last());
        match s.last() {
            Some(n) => rest.push(n@),
            None => rest,
        }
    }
}

/// The names present and non-empty in a listing, in order.
pub open spec fn nonempty_names(s: Seq<Option<String>>) -> Seq<Seq<char>>
    decreases s.len(),
{
    if s.len() == 0 {
        Seq::empty()
    } else {
        let rest = nonempty_names(s.drop_last());
        match s.last() {
            Some(n) => if n@.len() > 0 {
                rest.push(n@)
            } else {
                rest
            },
            None => rest,
        }
    }
}

/// Assemble the container listing from the buckets of a list-buckets
/// response: no payload at all is the list-container failure; otherwise the
/// present, non-empty bucket names are kept in order.
pub fn collect_bucket_names(buckets: Option<Vec<Option<String>>>) -> (r: Result<
    Vec<String>,
    StowError,
>)
    ensures
        match r {
            Ok(v) => buckets is Some && names_of(v@) == nonempty_names(buckets->Some_0@),
            Err(e) => buckets is None && e == StowError::ListContainerError,
        },
{
    let v = match buckets {
        Some(v) => v,
        None => {
            return Err(StowError::ListContainerError);
        },
    };
    let mut out: Vec<String> = Vec::new();
    let mut p: usize = 0;
    while p < v.len()
        invariant
            p <= v@.len(),
            names_of(out@) == nonempty_names(v@.take(p as int)),
        decreases v@.len() - p,
    {
        proof {
            assert(v@.take(p + 1 as int).drop_last() =~= v@.take(p as int));
            assert(v@.take(p + 1 as int).last() == v@[p as int]);
        }
        match &v[p] {
            Some(name) => {
                if !name.as_str().is_empty() {
                    out.push(name.clone());
                }
            },
            None => {},
        }
        proof {
            assert(names_of(out@) =~= nonempty_names(v@.take(p + 1 as int)));
        }
        p += 1;
    }
    proof {
        assert(v@.take(v@.len() as int) =~= v@);
    }
    Ok(out)
}

/// Absorb one page of a paginated item listing: the keys present in the
/// page, in order, are appended to what earlier pages yielded. The adapter
/// keeps requesting pages while the backend hands back a continuation
/// token, so no partial page ever reaches the caller.
pub fn absorb_page(items: &mut Vec<String>, keys: Option<Vec<Option<String>>>)
    ensures
        keys is Some ==> names_of(final(items)@) == names_of(old(items)@) + present_names(
            keys->Some_0@,
        ),
        keys is None ==> final(items)@ == old(items)@,
{
    let v = match keys {
        Some(v) => v,
        None => {
            return ;
        },
    };
    let mut p: usize = 0;
    while p < v.len()
        invariant
            p <= v@.len(),
            names_of(items@) == names_of(old(items)@) + present_names(v@.take(p as int)),
        decreases v@.len() - p,
    {
        let ghost prev = items@;
        proof {
            assert(v@.take(p + 1 as int).drop_last() =~= v@.take(p as int));
            assert(v@.take(p + 1 as int).last() == v@[p as int]);
        }
        match &v[p] {
            Some(name) => {
                items.push(name.clone());
                proof {
                    assert(names_of(items@) =~= names_of(prev).push(name@));
                    assert(names_of(items@) =~= names_of(old(items)@) + present_names(
                        v@.take(p + 1 as int),
                    ));
                }
            },
            None => {
                proof {
                    assert(names_of(items@) =~= names_of(old(items)@) + present_names(
                        v@.take(p + 1 as int),
                    ));
                }
            },
        }
        p += 1;
    }
    proof {
        assert(v@.take(v@.len() as int) =~= v@);
    }
}

/// The outcome the adapter reports of a create-bucket request, reduced to
/// what the decision needs.
pub enum CreateContainerOutcome {
    /// The request was accepted; carries the response's location, if any.
    Accepted { location: Option<String> },
    /// The bucket already exists and is owned by this caller.
    AlreadyOwned,
    /// Any other service failure.
    Rejected,
}

/// The create-container rule: a bucket already owned by the caller is a
/// success, not an error — provisioning code may run twice. An accepted
/// request without a usable location is the container-creation failure, and
/// any other rejection is a service failure.
pub fn create_container_result(outcome: &CreateContainerOutcome) -> (r: Result<(), StowError>)
    ensures
        match outcome {
            CreateContainerOutcome::AlreadyOwned => r is Ok,
            CreateContainerOutcome::Accepted { location } => if location is Some {
                r is Ok
            } else {
                r == Err::<(), StowError>(StowError::ContainerCreationError)
            },
            CreateContainerOutcome::Rejected => r == Err::<(), StowError>(StowError::ServiceError),
        },
{
    match outcome {
        CreateContainerOutcome::AlreadyOwned => Ok(()),
        CreateContainerOutcome::Accepted { location } => match location {
            Some(_) => Ok(()),
            None => Err(StowError::ContainerCreationError),
        },
        CreateContainerOutcome::Rejected => Err(StowError::ServiceError),
    }
}

/// The read decision on a response body: a missing payload is the
/// empty-item failure.
pub fn require_item_body(body_present: bool) -> (r: Result<(), StowError>)
    ensures
        r is Ok <==> body_present,
        !body_present ==> r == Err::<(), StowError>(StowError::EmptyItemError),
{
    if body_present {
        Ok(())
    } else {
        Err(StowError::EmptyItemError)
    }
}

} // verus!
