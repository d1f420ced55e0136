//! The response headers of the admin UI's embedded files: the content type
//! guessed from the file name, and long-lived caching for hashed assets.
//! The files themselves are embedded by the application.
use vstd::prelude::*;
use crate::text::{has_prefix, strip_prefix};

verus! {

/// The MIME type (`type/subtype`) that `mime_guess` infers from the path's
/// extension, `application/octet-stream` where it knows none.
pub uninterp spec fn spec_mime_for_path(path: Seq<char>) -> Seq<char>;

/// Calls `mime_guess::from_path`, takes `first_or_octet_stream` and renders
/// its `essence_str`; the answer is the named result.
#[verifier::external_body]
fn mime_essence_for_path(path: &str) -> (r: String)
    ensures
        r@ == spec_mime_for_path(path@),
{
    mime_guess::from_path(path).first_or_octet_stream().essence_str().to_string()
}

/// The headers an embedded file is served with: its content type, and
/// whether it may be cached for good, which files under `assets/` may (their
/// names carry a content hash).
pub fn asset_headers(path: &str) -> (r: (String, bool))
    ensures
        r.0@ == spec_mime_for_path(path@),
        r.1 == has_prefix(path@, "assets/"@),
{
    let mime = mime_essence_for_path(path);
    let immutable = match strip_prefix(path, "assets/") {
        Some(rest) => {
            assert(path@.take("assets/"@.len() as int) =~= "assets/"@);
            true
        },
        None => false,
    };
    (mime, immutable)
}

} // verus!
