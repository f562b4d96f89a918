//! Sidecar Expander: for a stem, the fixed set of dependent metadata file
//! names (thumbnail, fan art, poster, info file), and the helpers that place
//! them in the primary file's parent directory.

use vstd::prelude::*;
use crate::names::last_occ;

verus! {

pub open spec fn thumb_suffix() -> Seq<char> {
    seq!['-', 't', 'h', 'u', 'm', 'b', '.', 'j', 'p', 'g']
}

pub open spec fn fanart_suffix() -> Seq<char> {
    seq!['-', 'f', 'a', 'n', 'a', 'r', 't', '.', 'j', 'p', 'g']
}

pub open spec fn poster_suffix() -> Seq<char> {
    seq!['-', 'p', 'o', 's', 't', 'e', 'r', '.', 'j', 'p', 'g']
}

pub open spec fn nfo_suffix() -> Seq<char> {
    seq!['.', 'n', 'f', 'o']
}

/// The fixed sidecar name set for a stem, always fully enumerated.
pub open spec fn sidecar_names(stem: Seq<char>) -> Seq<Seq<char>> {
    seq![
        stem + thumb_suffix(),
        stem + fanart_suffix(),
        stem + poster_suffix(),
        stem + nfo_suffix(),
    ]
}

/// The parent directory of a path: everything before the last `/`, or empty
/// when the path holds no `/`.
pub open spec fn parent_of(p: Seq<char>) -> Seq<char> {
    if last_occ(p, '/') < 0 {
        Seq::empty()
    } else {
        p.subrange(0, last_occ(p, '/'))
    }
}

/// A name resolved relative to a directory: `{dir}/{name}`, or `name` alone
/// when the directory is empty.
pub open spec fn join(dir: Seq<char>, name: Seq<char>) -> Seq<char> {
    if dir.len() == 0 {
        name
    } else {
        dir + seq!['/'] + name
    }
}

/// The fixed sidecar name set for `filename` taken as a stem: the thumbnail,
/// fan art and poster images and the info file, in that order.
pub fn get_file_name(filename: &str) -> (r: Vec<String>)
    ensures
        r@.len() == 4,
        forall|i: int| 0 <= i < 4 ==> r@[i]@ == sidecar_names(filename@)[i],
{
    let mut r: Vec<String> = Vec::new();
    let mut thumb = filename.to_owned();
    thumb.append("-thumb.jpg");
    r.push(thumb);
    let mut fanart = filename.to_owned();
    fanart.append("-fanart.jpg");
    r.push(fanart);
    let mut poster = filename.to_owned();
    poster.append("-poster.jpg");
    r.push(poster);
    let mut nfo = filename.to_owned();
    nfo.append(".nfo");
    r.push(nfo);
    proof {
        reveal_strlit("-thumb.jpg");
        reveal_strlit("-fanart.jpg");
        reveal_strlit("-poster.jpg");
        reveal_strlit(".nfo");
        assert("-thumb.jpg"@ =~= thumb_suffix());
        assert("-fanart.jpg"@ =~= fanart_suffix());
        assert("-poster.jpg"@ =~= poster_suffix());
        assert(".nfo"@ =~= nfo_suffix());
    }
    r
}

/// The parent directory of `path`: everything before the last `/`, or empty
/// when the path holds no `/`.
pub fn parent_dir(path: &str) -> (r: String)
    ensures
        r@ == parent_of(path@),
{
    match crate::names::rfind(path, '/') {
        Some(i) => {
            let p = path.substring_char(0, i);
            p.to_owned()
        },
        None => String::new(),
    }
}

/// Resolves `name` relative to `dir`.
pub fn join_path(dir: &str, name: &str) -> (r: String)
    ensures
        r@ == join(dir@, name@),
{
    if dir.is_empty() {
        name.to_owned()
    } else {
        let mut r = dir.to_owned();
        r.append("/");
        r.append(name);
        proof {
            reveal_strlit("/");
            assert("/"@ =~= seq!['/']);
        }
        r
    }
}

} // verus!
