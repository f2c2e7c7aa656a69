//! What to answer to one request.
use vstd::prelude::*;

use crate::paths::{is_prefix, relative_to, resolve, resolve_spec};

verus! {

/// What the filesystem holds at a resolved path.
#[derive(Clone, Copy, Debug, PartialEq, Eq, Structural)]
pub enum TargetKind {
    RegularFile,
    Directory,
    Absent,
}

/// The answer to a request.
#[derive(Clone, Copy, Debug, PartialEq, Eq, Structural)]
pub enum Action {
    /// Hand the file over to static-file serving.
    SendFile,
    /// Answer with the listing of the directory.
    SendListing,
    /// Answer 404.
    NotFound,
}

/// The answer to `request` where the path it resolves to holds `kind`.
pub open spec fn route_spec(root: Seq<Seq<char>>, request: Seq<char>, kind: TargetKind) -> Action {
    if !is_prefix(root, resolve_spec(root, request)) {
        Action::NotFound
    } else {
        match kind {
            TargetKind::RegularFile => Action::SendFile,
            TargetKind::Directory => Action::SendListing,
            TargetKind::Absent => Action::NotFound,
        }
    }
}

/// Decides the answer to `request` once the kind of its target is known.
pub fn route(root: &Vec<String>, request: &str, kind: TargetKind) -> (r: Action)
    ensures
        r == route_spec(root.deep_view(), request@, kind),
{
    match resolve(root, request) {
        None => Action::NotFound,
        Some(_) => match kind {
            TargetKind::RegularFile => Action::SendFile,
            TargetKind::Directory => Action::SendListing,
            TargetKind::Absent => Action::NotFound,
        },
    }
}

/// The directory a listing request names, relative to the served root:
/// `None` where the request leaves the root.
pub fn listing_dir(root: &Vec<String>, request: &str) -> (r: Option<Vec<String>>)
    ensures
        r is Some <==> is_prefix(root.deep_view(), resolve_spec(root.deep_view(), request@)),
        r matches Some(rel) ==> root.deep_view() + rel.deep_view() == resolve_spec(
            root.deep_view(),
            request@,
        ),
{
    match resolve(root, request) {
        None => None,
        Some(p) => {
            let rel = relative_to(root, &p);
            proof {
                if rel is Some {
                    assert(root.deep_view() + rel->0.deep_view() =~= p.deep_view());
                }
            }
            rel
        },
    }
}

/// A request that leaves the served root is answered 404, whatever lies
/// at the path it names.
pub proof fn law_escape_is_not_found(root: Seq<Seq<char>>, request: Seq<char>, kind: TargetKind)
    requires
        !is_prefix(root, resolve_spec(root, request)),
    ensures
        route_spec(root, request, kind) == Action::NotFound,
{
}

} // verus!
