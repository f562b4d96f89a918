//! File-type sniffing: whether a path names a video file, by the mime type
//! guessed from its extension.

use vstd::prelude::*;

verus! {

/// The mime type string assigned to a path, `application/octet-stream` when
/// nothing matches: a function of the path alone.
pub uninterp spec fn mime_of(path: Seq<char>) -> Seq<char>;

/// Relies on `mime_guess::from_path` and `MimeGuess::first_or_octet_stream`:
/// the guess is computed from the path's extension alone, against a fixed
/// table, falling back to `application/octet-stream`.
#[verifier::external_body]
fn guess_mime(path: &str) -> (r: String)
    ensures
        r@ == mime_of(path@),
{
    mime_guess::from_path(path).first_or_octet_stream().to_string()
}

/// `m` starts with `video/`.
pub open spec fn is_video_mime_spec(m: Seq<char>) -> bool {
    m.len() >= 6 && m.subrange(0, 6) == seq!['v', 'i', 'd', 'e', 'o', '/']
}

/// Whether `m` names a video mime type.
pub fn is_video_mime(m: &str) -> (r: bool)
    ensures
        r == is_video_mime_spec(m@),
{
    let n = m.unicode_len();
    if n < 6 {
        return false;
    }
    let r = m.get_char(0) == 'v' && m.get_char(1) == 'i' && m.get_char(2) == 'd' && m.get_char(3)
        == 'e' && m.get_char(4) == 'o' && m.get_char(5) == '/';
    proof {
        let s = m@.subrange(0, 6);
        assert(s.len() == 6);
        assert(s[0] == m@[0] && s[1] == m@[1] && s[2] == m@[2] && s[3] == m@[3] && s[4] == m@[4]
            && s[5] == m@[5]);
        if r {
            assert(s =~= seq!['v', 'i', 'd', 'e', 'o', '/']);
        }
    }
    r
}

/// Whether the file at `path` is a video, by its guessed mime type.
pub fn is_video_file(path: &str) -> (r: bool)
    ensures
        r == is_video_mime_spec(mime_of(path@)),
{
    let m = guess_mime(path);
    is_video_mime(m.as_str())
}

} // verus!
