//! Version Key Deriver: splits a file name into stem and extension at the
//! last `.`, and synthesizes the two alternate-version keys (`-C` and `-UC`
//! suffixed forms) for a name.

use vstd::prelude::*;

verus! {

/// Index of the last occurrence of `c` in `s`, or -1 when `s` holds none.
pub open spec fn last_occ(s: Seq<char>, c: char) -> int
    decreases s.len(),
{
    if s.len() == 0 {
        -1
    } else if s[s.len() - 1] == c {
        s.len() - 1
    } else {
        last_occ(s.drop_last(), c)
    }
}

/// The stem of a name: everything before the last `.`, or the whole name
/// when it holds no `.`.
pub open spec fn stem_of(s: Seq<char>) -> Seq<char> {
    if last_occ(s, '.') < 0 {
        s
    } else {
        s.subrange(0, last_occ(s, '.'))
    }
}

/// The extension of a name: everything after the last `.`, or empty when the
/// name holds no `.`.
pub open spec fn ext_of(s: Seq<char>) -> Seq<char> {
    if last_occ(s, '.') < 0 {
        Seq::empty()
    } else {
        s.subrange(last_occ(s, '.') + 1, s.len() as int)
    }
}

/// The alternate-version key for `name` under `suffix`:
/// `{stem}{suffix}.{extension}`, or `{stem}{suffix}` when the extension is
/// empty (no trailing dot).
pub open spec fn key_with_suffix(name: Seq<char>, suffix: Seq<char>) -> Seq<char> {
    if ext_of(name).len() == 0 {
        stem_of(name) + suffix
    } else {
        stem_of(name) + suffix + seq!['.'] + ext_of(name)
    }
}

/// The `-C` alternate-version key of `name`.
pub open spec fn key_c(name: Seq<char>) -> Seq<char> {
    key_with_suffix(name, seq!['-', 'C'])
}

/// The `-UC` alternate-version key of `name`.
pub open spec fn key_uc(name: Seq<char>) -> Seq<char> {
    key_with_suffix(name, seq!['-', 'U', 'C'])
}

pub proof fn lemma_last_occ_bound(s: Seq<char>, c: char)
    ensures
        -1 <= last_occ(s, c) < s.len(),
    decreases s.len(),
{
    if s.len() > 0 {
        lemma_last_occ_bound(s.drop_last(), c);
    }
}

pub proof fn lemma_last_occ_char(s: Seq<char>, c: char)
    requires
        last_occ(s, c) >= 0,
    ensures
        s[last_occ(s, c)] == c,
    decreases s.len(),
{
    if s.len() > 0 && s[s.len() - 1] != c {
        lemma_last_occ_bound(s.drop_last(), c);
        lemma_last_occ_char(s.drop_last(), c);
    }
}

/// The derived alternate-version keys have exactly the promised shape:
/// `{stem}-C.{extension}` and `{stem}-UC.{extension}` when the extension is
/// nonempty, `{stem}-C` and `{stem}-UC` without a trailing dot when it is
/// empty — and the stem and extension in turn reassemble the name.
pub proof fn lemma_derived_keys_form(name: Seq<char>)
    ensures
        ext_of(name).len() > 0 ==> key_c(name) == stem_of(name) + seq!['-', 'C', '.'] + ext_of(
            name,
        ),
        ext_of(name).len() > 0 ==> key_uc(name) == stem_of(name) + seq!['-', 'U', 'C', '.']
            + ext_of(name),
        ext_of(name).len() == 0 ==> key_c(name) == stem_of(name) + seq!['-', 'C'],
        ext_of(name).len() == 0 ==> key_uc(name) == stem_of(name) + seq!['-', 'U', 'C'],
        last_occ(name, '.') < 0 ==> name == stem_of(name),
        last_occ(name, '.') >= 0 ==> name == stem_of(name) + seq!['.'] + ext_of(name),
{
    if ext_of(name).len() > 0 {
        assert(stem_of(name) + seq!['-', 'C'] + seq!['.'] + ext_of(name) =~= stem_of(name) + seq![
            '-',
            'C',
            '.',
        ] + ext_of(name));
        assert(stem_of(name) + seq!['-', 'U', 'C'] + seq!['.'] + ext_of(name) =~= stem_of(name)
            + seq!['-', 'U', 'C', '.'] + ext_of(name));
    }
    let i = last_occ(name, '.');
    if i >= 0 {
        lemma_last_occ_bound(name, '.');
        lemma_last_occ_char(name, '.');
        assert(name =~= name.subrange(0, i) + seq!['.'] + name.subrange(i + 1, name.len() as int));
    }
}

proof fn lemma_last_occ_none(s: Seq<char>, c: char)
    requires
        forall|k: int| 0 <= k < s.len() ==> s[k] != c,
    ensures
        last_occ(s, c) == -1,
    decreases s.len(),
{
    if s.len() > 0 {
        lemma_last_occ_none(s.drop_last(), c);
    }
}

proof fn lemma_last_occ_at(s: Seq<char>, c: char, j: int)
    requires
        0 <= j < s.len(),
        s[j] == c,
        forall|k: int| j < k < s.len() ==> s[k] != c,
    ensures
        last_occ(s, c) == j,
    decreases s.len(),
{
    if j < s.len() - 1 {
        lemma_last_occ_at(s.drop_last(), c, j);
    }
}

/// Index of the last occurrence of `c` in `s`, or `None` when `s` holds none.
pub fn rfind(s: &str, c: char) -> (r: Option<usize>)
    ensures
        match r {
            Some(i) => i < s@.len() && last_occ(s@, c) == i,
            None => last_occ(s@, c) == -1,
        },
{
    let n = s.unicode_len();
    let mut i: usize = n;
    while i > 0
        invariant
            i <= n,
            n == s@.len(),
            forall|k: int| i <= k < n ==> s@[k] != c,
        decreases i,
    {
        if s.get_char(i - 1) == c {
            proof {
                lemma_last_occ_at(s@, c, i - 1);
            }
            return Some(i - 1);
        }
        i = i - 1;
    }
    proof {
        lemma_last_occ_none(s@, c);
    }
    None
}

/// Splits `name` at its last `.` into `(stem, extension)`; the extension is
/// empty when the name holds no `.`.
pub fn split_name(name: &str) -> (r: (String, String))
    ensures
        r.0@ == stem_of(name@),
        r.1@ == ext_of(name@),
{
    match rfind(name, '.') {
        Some(i) => {
            let n = name.unicode_len();
            let stem = name.substring_char(0, i);
            let ext = name.substring_char(i + 1, n);
            (stem.to_owned(), ext.to_owned())
        },
        None => (name.to_owned(), String::new()),
    }
}

fn make_key(stem: &String, ext: &String, suffix: &str) -> (r: String)
    ensures
        ext@.len() == 0 ==> r@ == stem@ + suffix@,
        ext@.len() > 0 ==> r@ == stem@ + suffix@ + seq!['.'] + ext@,
{
    let mut r = stem.clone();
    r.append(suffix);
    if !ext.as_str().is_empty() {
        r.append(".");
        r.append(ext.as_str());
        proof {
            reveal_strlit(".");
            assert("."@ =~= seq!['.']);
        }
    }
    r
}

/// Derives the two alternate-version keys of `name`: the `-C` form and the
/// `-UC` form, in that order.
pub fn derive_keys(name: &str) -> (r: (String, String))
    ensures
        r.0@ == key_c(name@),
        r.1@ == key_uc(name@),
{
    let (stem, ext) = split_name(name);
    let with_c = make_key(&stem, &ext, "-C");
    let with_uc = make_key(&stem, &ext, "-UC");
    proof {
        reveal_strlit("-C");
        reveal_strlit("-UC");
        assert("-C"@ =~= seq!['-', 'C']);
        assert("-UC"@ =~= seq!['-', 'U', 'C']);
    }
    (with_c, with_uc)
}

} // verus!
