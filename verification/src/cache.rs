//! Catalog cache codec: the catalog persisted as newline-delimited
//! serialized key-value records, the whole stream compressed. Framing —
//! joining and splitting lines, folding each line's partial mapping into
//! the catalog, later lines winning — is the library's own logic; the
//! record serialization and the compression are the outside crates' work.

use vstd::prelude::*;
use crate::catalog::{Catalog, pairs_to_map, distinct_names};
use crate::names::{last_occ, lemma_last_occ_bound};

verus! {

/// The record text that serializing the one-entry mapping `{name: path}`
/// yields: a function of the name and path alone.
pub uninterp spec fn yaml_record_of(name: Seq<char>, path: Seq<char>) -> Seq<char>;

/// The string-to-string mapping a record line denotes, or `None` when the
/// line does not parse as one: a function of the line alone.
pub uninterp spec fn yaml_map_of(line: Seq<char>) -> Option<Map<Seq<char>, Seq<char>>>;

/// The compressed frame of a text, at the codec's fixed compression level:
/// a function of the text alone.
pub uninterp spec fn zstd_frame_of(text: Seq<char>) -> Seq<u8>;

/// The text a compressed frame holds, or `None` when the frame is corrupt
/// or does not decompress to text: a function of the frame alone.
pub uninterp spec fn zstd_text_of(frame: Seq<u8>) -> Option<Seq<char>>;

/// Relies on `serde_yaml::to_string` on a one-entry string map: it writes
/// into an in-memory buffer and does not fail for string keys and values, and
/// the record text depends on the entry alone.
#[verifier::external_body]
fn yaml_record(name: &String, path: &String) -> (r: String)
    ensures
        r@ == yaml_record_of(name@, path@),
{
    let mut m = std::collections::BTreeMap::new();
    m.insert(name.clone(), path.clone());
    serde_yaml::to_string(&m).expect("serializing a string map into a buffer cannot fail")
}

/// Relies on `serde_yaml::from_str` into a string-to-string map: whether a
/// line parses, and the mapping it denotes, depend on the line alone, and
/// the parsed keys are distinct. The order of the returned pairs is left
/// open.
#[verifier::external_body]
fn yaml_parse_record(line: &str) -> (r: Option<Vec<(String, String)>>)
    ensures
        match r {
            Some(v) => yaml_map_of(line@) matches Some(m) && pairs_to_map(
                v@.map_values(|p: (String, String)| (p.0@, p.1@)),
            ) == m && distinct_names(v@.map_values(|p: (String, String)| (p.0@, p.1@))),
            None => yaml_map_of(line@) is None,
        },
{
    match serde_yaml::from_str::<std::collections::HashMap<String, String>>(line) {
        Ok(m) => Some(m.into_iter().collect()),
        Err(_) => None,
    }
}

/// Relies on `zstd::stream::encode_all` at the fixed valid level 7:
/// compressing into an in-memory buffer, it does not fail, and the frame
/// depends on the text alone.
#[verifier::external_body]
fn compress_text(text: &str) -> (r: Vec<u8>)
    ensures
        r@ == zstd_frame_of(text@),
{
    zstd::stream::encode_all(text.as_bytes(), 7).expect(
        "compressing into a buffer at a valid level cannot fail",
    )
}

/// Relies on `zstd::stream::decode_all`: whether a frame decompresses, and
/// to which bytes, depends on the frame alone; the bytes are taken as UTF-8
/// text, `None` when they are not.
#[verifier::external_body]
fn decompress_text(frame: &Vec<u8>) -> (r: Option<String>)
    ensures
        match r {
            Some(s) => zstd_text_of(frame@) == Some(s@),
            None => zstd_text_of(frame@) is None,
        },
{
    match zstd::stream::decode_all(frame.as_slice()) {
        Ok(bytes) => match String::from_utf8(bytes) {
            Ok(s) => Some(s),
            Err(_) => None,
        },
        Err(_) => None,
    }
}

/// Pure split of `s` at every newline; a trailing newline leaves a final
/// empty segment.
pub open spec fn raw_split(s: Seq<char>) -> Seq<Seq<char>>
    decreases s.len(),
    via raw_split_decreases
{
    if last_occ(s, '\n') < 0 {
        seq![s]
    } else {
        raw_split(s.subrange(0, last_occ(s, '\n'))).push(
            s.subrange(last_occ(s, '\n') + 1, s.len() as int),
        )
    }
}

#[via_fn]
proof fn raw_split_decreases(s: Seq<char>) {
    lemma_last_occ_bound(s, '\n');
}

/// The lines of `s` as a line reader yields them: split at `\n`, with no
/// final empty segment after a trailing newline.
pub open spec fn lines_of(s: Seq<char>) -> Seq<Seq<char>> {
    if s.len() == 0 {
        Seq::empty()
    } else if raw_split(s).last().len() == 0 {
        raw_split(s).drop_last()
    } else {
        raw_split(s)
    }
}

proof fn lemma_last_occ_push(s: Seq<char>, c: char, x: char)
    ensures
        last_occ(s.push(c), x) == if c == x {
            s.len() as int
        } else {
            last_occ(s, x)
        },
{
    let t = s.push(c);
    assert(t[t.len() - 1] == c);
    if c != x {
        assert(t.drop_last() =~= s);
    }
}

/// Splits `text` into its lines.
pub fn split_lines(text: &str) -> (r: Vec<String>)
    ensures
        r@.map_values(|s: String| s@) == lines_of(text@),
{
    let n = text.unicode_len();
    let mut lines: Vec<String> = Vec::new();
    let mut start: usize = 0;
    let mut k: usize = 0;
    proof {
        assert(text@.take(0) =~= Seq::<char>::empty());
        assert(raw_split(Seq::<char>::empty())
            == seq![Seq::<char>::empty()]);
        assert(text@.subrange(0, 0) =~= Seq::<char>::empty());
        assert(lines@.map_values(|s: String| s@).push(text@.subrange(0, 0))
            =~= seq![Seq::<char>::empty()]);
    }
    while k < n
        invariant
            start <= k <= n,
            n == text@.len(),
            last_occ(text@.take(k as int), '\n') == start as int - 1,
            raw_split(text@.take(k as int)) == lines@.map_values(|s: String| s@).push(
                text@.subrange(start as int, k as int),
            ),
        decreases n - k,
    {
        let ghost p = text@.take(k as int);
        let ghost p2 = text@.take(k as int + 1);
        proof {
            assert(p2 =~= p.push(text@[k as int]));
            lemma_last_occ_push(p, text@[k as int], '\n');
        }
        let c = text.get_char(k);
        if c == '\n' {
            let ghost lv = lines@.map_values(|s: String| s@);
            let seg = text.substring_char(start, k);
            lines.push(seg.to_owned());
            proof {
                assert(last_occ(p2, '\n') == k as int);
                assert(p2.subrange(0, k as int) =~= p);
                assert(p2.subrange(k as int + 1, k as int + 1) =~= Seq::<char>::empty());
                assert(raw_split(p2) == raw_split(p).push(Seq::<char>::empty()));
                assert(seg@ == text@.subrange(start as int, k as int));
                assert(lines@.map_values(|s: String| s@) =~= lv.push(seg@));
                assert(text@.subrange(k as int + 1, k as int + 1) =~= Seq::<char>::empty());
                assert(raw_split(p) == lv.push(text@.subrange(start as int, k as int)));
                assert(raw_split(p2) =~= lines@.map_values(|s: String| s@).push(
                    text@.subrange(k as int + 1, k as int + 1),
                ));
            }
            start = k + 1;
        } else {
            proof {
                let lv = lines@.map_values(|s: String| s@);
                assert(last_occ(p2, '\n') == start as int - 1);
                if start == 0 {
                    assert(raw_split(p) == seq![p]);
                    assert(p.subrange(0, k as int) =~= p);
                    assert(lv =~= seq![p].drop_last());
                    assert(lv =~= Seq::<Seq<char>>::empty());
                    assert(raw_split(p2) == seq![p2]);
                    assert(p2 =~= text@.subrange(0, k as int + 1));
                    assert(raw_split(p2) =~= lv.push(text@.subrange(0, k as int + 1)));
                } else {
                    let i = start as int - 1;
                    assert(raw_split(p) == raw_split(p.subrange(0, i)).push(
                        p.subrange(i + 1, k as int),
                    ));
                    assert(p.subrange(i + 1, k as int) =~= text@.subrange(start as int, k as int));
                    assert((raw_split(p.subrange(0, i)).push(p.subrange(i + 1, k as int)))
                        .drop_last() =~= raw_split(p.subrange(0, i)));
                    assert((lv.push(text@.subrange(start as int, k as int))).drop_last() =~= lv);
                    assert(raw_split(p.subrange(0, i)) =~= lv);
                    assert(p2.subrange(0, i) =~= p.subrange(0, i));
                    assert(raw_split(p2) == raw_split(p2.subrange(0, i)).push(
                        p2.subrange(i + 1, k as int + 1),
                    ));
                    assert(p2.subrange(i + 1, k as int + 1) =~= text@.subrange(
                        start as int,
                        k as int + 1,
                    ));
                    assert(raw_split(p2) =~= lv.push(
                        text@.subrange(start as int, k as int + 1),
                    ));
                }
            }
        }
        k = k + 1;
    }
    proof {
        assert(text@.take(n as int) =~= text@);
    }
    if n == 0 {
        return lines;
    }
    if start < n {
        let seg = text.substring_char(start, n);
        let ghost lv = lines@.map_values(|s: String| s@);
        lines.push(seg.to_owned());
        proof {
            assert(lines@.map_values(|s: String| s@) =~= lv.push(
                text@.subrange(start as int, n as int),
            ));
            assert(raw_split(text@).last().len() > 0);
        }
        lines
    } else {
        proof {
            assert(text@.subrange(n as int, n as int) =~= Seq::<char>::empty());
            assert(raw_split(text@).last().len() == 0);
            assert(lines@.map_values(|s: String| s@) =~= raw_split(text@).drop_last());
        }
        lines
    }
}

/// The serialized cache text of a catalog's entries: one record each, in
/// entry order.
pub open spec fn records_text_of(entries: Seq<(Seq<char>, Seq<char>)>) -> Seq<char>
    decreases entries.len(),
{
    if entries.len() == 0 {
        Seq::empty()
    } else {
        records_text_of(entries.drop_last()) + yaml_record_of(
            entries.last().0,
            entries.last().1,
        )
    }
}

/// The mapping a sequence of cache lines denotes: each line's partial
/// mapping folded in, later lines winning; `None` when any line fails to
/// parse.
pub open spec fn map_of_lines(ls: Seq<Seq<char>>) -> Option<Map<Seq<char>, Seq<char>>>
    decreases ls.len(),
{
    if ls.len() == 0 {
        Some(Map::empty())
    } else {
        match map_of_lines(ls.drop_last()) {
            Some(m) => match yaml_map_of(ls.last()) {
                Some(lm) => Some(m.union_prefer_right(lm)),
                None => None,
            },
            None => None,
        }
    }
}

proof fn lemma_map_of_lines_prefix_none(ls: Seq<Seq<char>>, j: int)
    requires
        0 <= j <= ls.len(),
        map_of_lines(ls.take(j)) is None,
    ensures
        map_of_lines(ls) is None,
    decreases ls.len() - j,
{
    if j == ls.len() {
        assert(ls.take(j) =~= ls);
    } else {
        assert(ls.take(j + 1).drop_last() =~= ls.take(j));
        lemma_map_of_lines_prefix_none(ls, j + 1);
    }
}

/// Serializes a catalog to its cache text: one record per entry, in entry
/// order.
pub fn encode_catalog_text(catalog: &Catalog) -> (r: String)
    ensures
        r@ == records_text_of(catalog.seq()),
{
    let mut out = String::new();
    let n = catalog.len();
    let mut i: usize = 0;
    proof {
        assert(catalog.seq().take(0) =~= Seq::<(Seq<char>, Seq<char>)>::empty());
    }
    while i < n
        invariant
            i <= n,
            n == catalog.seq().len(),
            out@ == records_text_of(catalog.seq().take(i as int)),
        decreases n - i,
    {
        let e = catalog.entry_at(i);
        let rec = yaml_record(&e.0, &e.1);
        out.append(rec.as_str());
        proof {
            assert(catalog.seq().take(i as int + 1).drop_last() =~= catalog.seq().take(i as int));
            assert(catalog.seq().take(i as int + 1).last() == catalog.seq()[i as int]);
        }
        i = i + 1;
    }
    proof {
        assert(catalog.seq().take(n as int) =~= catalog.seq());
    }
    out
}

/// Parses cache text into a catalog, folding each line's partial mapping
/// in, later lines winning; `None` when any line fails to parse.
pub fn decode_catalog_text(text: &str) -> (r: Option<Catalog>)
    ensures
        match r {
            Some(c) => c.wf() && map_of_lines(lines_of(text@)) == Some(c@),
            None => map_of_lines(lines_of(text@)) is None,
        },
{
    let lines = split_lines(text);
    let ghost lsv = lines_of(text@);
    let mut cat = Catalog::new();
    let n = lines.len();
    let mut i: usize = 0;
    proof {
        assert(lsv.take(0) =~= Seq::<Seq<char>>::empty());
    }
    while i < n
        invariant
            i <= n,
            n == lines@.len(),
            lines@.map_values(|s: String| s@) == lsv,
            lsv == lines_of(text@),
            cat.wf(),
            map_of_lines(lsv.take(i as int)) == Some(cat@),
        decreases n - i,
    {
        match yaml_parse_record(lines[i].as_str()) {
            Some(pairs) => {
                let ghost m0 = cat@;
                let ghost pv = pairs@.map_values(|p: (String, String)| (p.0@, p.1@));
                let m = pairs.len();
                let mut j: usize = 0;
                proof {
                    assert(pv.take(0) =~= Seq::<(Seq<char>, Seq<char>)>::empty());
                    assert(m0.union_prefer_right(pairs_to_map(pv.take(0))) =~= m0);
                }
                while j < m
                    invariant
                        j <= m,
                        m == pairs@.len(),
                        pv == pairs@.map_values(|p: (String, String)| (p.0@, p.1@)),
                        cat.wf(),
                        cat@ == m0.union_prefer_right(pairs_to_map(pv.take(j as int))),
                    decreases m - j,
                {
                    let name = pairs[j].0.clone();
                    let path = pairs[j].1.clone();
                    cat.insert(name, path);
                    proof {
                        assert(pv.take(j as int + 1).drop_last() =~= pv.take(j as int));
                        assert(pv.take(j as int + 1).last() == pv[j as int]);
                        assert(m0.union_prefer_right(
                            pairs_to_map(pv.take(j as int)),
                        ).insert(pv[j as int].0, pv[j as int].1) =~= m0.union_prefer_right(
                            pairs_to_map(pv.take(j as int + 1)),
                        ));
                    }
                    j = j + 1;
                }
                proof {
                    assert(pv.take(m as int) =~= pv);
                    assert(lsv.take(i as int + 1).drop_last() =~= lsv.take(i as int));
                    assert(lsv.take(i as int + 1).last() == lsv[i as int]);
                }
            },
            None => {
                proof {
                    assert(lsv.take(i as int + 1).drop_last() =~= lsv.take(i as int));
                    assert(lsv.take(i as int + 1).last() == lsv[i as int]);
                    assert(map_of_lines(lsv.take(i as int + 1)) is None);
                    lemma_map_of_lines_prefix_none(lsv, i as int + 1);
                }
                return None;
            },
        }
        i = i + 1;
    }
    proof {
        assert(lsv.take(n as int) =~= lsv);
    }
    Some(cat)
}

/// Serializes and compresses a catalog into a cache frame.
pub fn encode_catalog_frame(catalog: &Catalog) -> (r: Vec<u8>)
    ensures
        r@ == zstd_frame_of(records_text_of(catalog.seq())),
{
    let text = encode_catalog_text(catalog);
    compress_text(text.as_str())
}

/// Decompresses and parses a cache frame into a catalog; `None` when the
/// frame is corrupt, is not text, or holds a line that fails to parse.
pub fn decode_catalog_frame(frame: &Vec<u8>) -> (r: Option<Catalog>)
    ensures
        match r {
            Some(c) => c.wf() && (zstd_text_of(frame@) matches Some(t) && map_of_lines(
                lines_of(t),
            ) == Some(c@)),
            None => zstd_text_of(frame@) is None || (zstd_text_of(frame@) matches Some(t)
                && map_of_lines(lines_of(t)) is None),
        },
{
    match decompress_text(frame) {
        Some(text) => decode_catalog_text(text.as_str()),
        None => None,
    }
}

} // verus!
