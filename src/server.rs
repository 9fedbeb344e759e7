//! What one connection is answered with, given what the filesystem showed.
//!
//! A connection is handled in three steps: `parse_request` reads the request
//! line, the caller inspects `Request::target` on disk and reports it as a
//! `Found`, and `respond` builds the response. Nothing is kept between
//! connections.
use vstd::prelude::*;
use crate::bytes::text;
use crate::listing::{
    lemma_sorted_order_unique, listing_page, names_ascending, names_distinct, render_listing,
    sort_children, Child,
};
use crate::mime::{guess_mime, mime_of};
use crate::request::{extension, path_extension, Request};
use crate::response::{HttpResponse, Status};

verus! {

/// What a single look at the target path found.
pub enum Found {
    /// A directory, with its immediate entries in any order (none when they
    /// could not be read).
    Directory(Vec<Child>),
    /// A regular file, with its contents when reading it succeeded.
    File(Option<Vec<u8>>),
    /// Nothing, or something that is neither a directory nor a regular file.
    Missing,
}

/// The response owed for a request, given what its target turned out to be.
pub open spec fn responds(req: Request, found: Found, r: HttpResponse) -> bool {
    match found {
        Found::Directory(cs) => {
            &&& r.status == Status::Success
            &&& r.has_type("text/html"@)
            &&& r.content_length == Some(r.body@.len() as usize)
            &&& exists|sorted: Seq<Child>|
                #![trigger listing_page(req.target@, req.raw_path@, sorted)]
                sorted.to_multiset() == cs@.to_multiset() && names_ascending(sorted) && r.body@
                    == listing_page(req.target@, req.raw_path@, sorted)
        },
        Found::File(Some(data)) => {
            &&& r.status == Status::Success
            &&& r.has_type(mime_of(extension(req.target@)))
            &&& r.content_length == Some(data@.len() as usize)
            &&& r.body@ == data@
        },
        Found::File(None) => {
            &&& r.status == Status::InternalError
            &&& r.content_type is None
            &&& r.content_length is None
            &&& r.body@.len() == 0
        },
        Found::Missing => {
            &&& r.status == Status::NotFound
            &&& r.content_type is None
            &&& r.content_length == Some(9usize)
            &&& r.body@ == text("404 oops")
        },
    }
}

/// Builds the response to a request whose target was found to be `found`.
pub fn respond(req: &Request, found: Found) -> (r: HttpResponse)
    ensures
        responds(*req, found, r),
{
    match found {
        Found::Directory(children) => {
            let mut sorted = children;
            sort_children(&mut sorted);
            let body = render_listing(req.target.as_slice(), req.raw_path.as_slice(), &sorted);
            assert(listing_page(req.target@, req.raw_path@, sorted@) == body@);
            HttpResponse::ok("text/html", body)
        },
        Found::File(Some(data)) => {
            let ext = path_extension(req.target.as_slice());
            let mime = guess_mime(ext.as_slice());
            HttpResponse::ok(mime, data)
        },
        Found::File(None) => HttpResponse::internal_error(),
        Found::Missing => HttpResponse::not_found(),
    }
}

/// A connection's response is fixed by its own request and by what its own
/// target showed: whatever was served before, the same request meeting the
/// same filesystem gets the same bytes.
pub proof fn lemma_response_determined(
    req: Request,
    found: Found,
    r1: HttpResponse,
    r2: HttpResponse,
)
    requires
        responds(req, found, r1),
        responds(req, found, r2),
        found matches Found::Directory(cs) ==> names_distinct(cs@),
    ensures
        r1.wire() == r2.wire(),
{
    match found {
        Found::Directory(cs) => {
            let s1 = choose|sorted: Seq<Child>|
                #![trigger listing_page(req.target@, req.raw_path@, sorted)]
                sorted.to_multiset() == cs@.to_multiset() && names_ascending(sorted) && r1.body@
                    == listing_page(req.target@, req.raw_path@, sorted);
            let s2 = choose|sorted: Seq<Child>|
                #![trigger listing_page(req.target@, req.raw_path@, sorted)]
                sorted.to_multiset() == cs@.to_multiset() && names_ascending(sorted) && r2.body@
                    == listing_page(req.target@, req.raw_path@, sorted);
            lemma_sorted_order_unique(cs@, s1, s2);
        },
        _ => {},
    }
    assert(r1.body@ == r2.body@);
    assert(r1.wire() =~= r2.wire());
}

} // verus!
