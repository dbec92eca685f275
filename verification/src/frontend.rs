//! Which of the embedded files of the web client answers a request.

use vstd::prelude::*;

verus! {

/// The content type that `mime_guess` gives a path by its extension, and
/// `application/octet-stream` where it knows none.
pub uninterp spec fn guessed_content_type(path: Seq<char>) -> Seq<char>;

/// A path without the slashes in front of it.
pub open spec fn without_leading_slashes(path: Seq<char>) -> Seq<char>
    decreases path.len(),
{
    if path.len() > 0 && path[0] == '/' {
        without_leading_slashes(path.skip(1))
    } else {
        path
    }
}

/// What a request for a file of the web client is answered with.
#[derive(Debug, PartialEq, Eq)]
pub enum FrontendReply {
    /// The file itself, with its content type.
    File { content_type: String, body: Vec<u8> },
    /// The entry page of the web client, for a path that is no file of
    /// it: the client routes such a path itself.
    EntryPage { body: Vec<u8> },
    /// The web client is not there at all.
    NotBuilt,
}

/// Asks `mime_guess::from_path` for the content type of a path, and takes
/// the first guess or `application/octet-stream`.
#[verifier::external_body]
fn guess_content_type(path: &str) -> (content_type: String)
    ensures
        content_type@ == guessed_content_type(path@),
{
    mime_guess::from_path(path).first_or_octet_stream().as_ref().to_string()
}

/// The name of the embedded file that a request path asks for: the path
/// without the slashes in front of it.
pub fn asset_path(uri_path: &str) -> (path: String)
    ensures
        path@ == without_leading_slashes(uri_path@),
{
    let n = uri_path.unicode_len();
    let mut k: usize = 0;
    assert(uri_path@.skip(0) =~= uri_path@);
    while k < n && uri_path.get_char(k) == '/'
        invariant
            k <= n,
            n == uri_path@.len(),
            without_leading_slashes(uri_path@) == without_leading_slashes(uri_path@.skip(k as int)),
        decreases n - k,
    {
        assert(uri_path@.skip(k as int).skip(1) =~= uri_path@.skip(k + 1));
        assert(uri_path@.skip(k as int)[0] == '/');
        k += 1;
    }
    let rest = uri_path.substring_char(k, n);
    assert(rest@ =~= uri_path@.skip(k as int));
    rest.to_string()
}

/// Answers a request for the file `path` of the web client, given that
/// file, if there is one, and the entry page, if there is one.
pub fn serve_frontend(path: &str, file: Option<Vec<u8>>, entry_page: Option<Vec<u8>>) -> (r: FrontendReply)
    ensures
        match file {
            Some(body) => r == (FrontendReply::File { content_type: r->content_type, body })
                && r->content_type@ == guessed_content_type(path@),
            None => match entry_page {
                Some(body) => r == (FrontendReply::EntryPage { body }),
                None => r == FrontendReply::NotBuilt,
            },
        },
{
    match file {
        Some(body) => FrontendReply::File { content_type: guess_content_type(path), body },
        None => match entry_page {
            Some(body) => FrontendReply::EntryPage { body },
            None => FrontendReply::NotBuilt,
        },
    }
}

} // verus!
