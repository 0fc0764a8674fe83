//! `for x in arr ... end` → `arr.each do |x| ... end`.

use vstd::prelude::*;
use vstd::utf8::{decode_utf8, valid_utf8};

use crate::ast::ForNode;
use crate::fix::{Fix, ReplacementView};
use crate::offense::{offense_views, push_offense, Offense, OffenseKind, OffenseView};
use crate::text::{str_from_utf8, trim, trim_ws};

verus! {

/// The trimmed text of `source[start..end]`; `None` when the range is empty
/// or reversed, runs past the end, or is not UTF-8.
pub open spec fn spec_extract_trimmed(source: Seq<u8>, start: int, end: int) -> Option<Seq<char>> {
    if start >= end || end > source.len() {
        None
    } else if valid_utf8(source.subrange(start, end)) {
        Some(trim_ws(decode_utf8(source.subrange(start, end))))
    } else {
        None
    }
}

/// The first position at or after `from` holding a newline or `;`, or the
/// end of the source.
pub open spec fn first_delimiter(source: Seq<u8>, from: int) -> int
    decreases source.len() - from,
{
    if from >= source.len() {
        source.len() as int
    } else if source[from] == 10u8 || source[from] == 59u8 {
        from
    } else {
        first_delimiter(source, from + 1)
    }
}

/// The header of a `for` loop: the trimmed iteratee and where the header
/// ends (after `do`, after a `;` delimiter, or before a newline).
pub open spec fn header_iteratee(f: ForNode, source: Seq<u8>) -> Option<(Seq<char>, int)> {
    match f.do_keyword_loc {
        Some(d) => match spec_extract_trimmed(source, f.in_keyword_loc.end as int, d.start as int) {
            Some(t) => Some((t, d.end as int)),
            None => None,
        },
        None => {
            let p = first_delimiter(source, f.in_keyword_loc.end as int);
            match spec_extract_trimmed(source, f.in_keyword_loc.end as int, p) {
                Some(t) => Some(
                    (t, if p < source.len() && source[p] == 59u8 {
                        p + 1
                    } else {
                        p
                    }),
                ),
                None => None,
            }
        },
    }
}

/// The fix rewriting the loop header `for x in arr` into `arr.each do |x|`;
/// `None` when either part cannot be read or is empty.
pub open spec fn spec_build_fix(f: ForNode, source: Seq<u8>) -> Option<Seq<ReplacementView>> {
    match spec_extract_trimmed(source, f.for_keyword_loc.end as int, f.in_keyword_loc.start as int) {
        Some(iterator) => match header_iteratee(f, source) {
            Some((iteratee, header_end)) => if iterator.len() == 0 || iteratee.len() == 0 {
                None
            } else {
                Some(
                    seq![
                        (
                            f.for_keyword_loc.start,
                            header_end as usize,
                            iteratee + ".each do |"@ + iterator + "|"@,
                        ),
                    ],
                )
            },
            None => None,
        },
        None => None,
    }
}

/// The offense of a `for` loop (always reported, at the `for` keyword).
#[verifier::opaque]
pub open spec fn spec_scan_for(f: ForNode, source: Seq<u8>) -> Seq<OffenseView> {
    seq![(OffenseKind::ForLoopVsEach, f.for_keyword_loc.start, spec_build_fix(f, source))]
}

/// Extract a trimmed UTF-8 string from a byte range. Returns `None` if the
/// range is empty or out of bounds, or the bytes are not valid UTF-8.
pub fn extract_trimmed(source: &[u8], start: usize, end: usize) -> (r: Option<String>)
    ensures
        match r {
            Some(s) => spec_extract_trimmed(source@, start as int, end as int) == Some(s@),
            None => spec_extract_trimmed(source@, start as int, end as int) is None,
        },
{
    if start >= end || end > source.len() {
        return None;
    }
    let bytes = vstd::slice::slice_subrange(source, start, end);
    match str_from_utf8(bytes) {
        Some(s) => Some(String::from_str(trim(s))),
        None => None,
    }
}

fn find_delimiter(source: &[u8], from: usize) -> (r: usize)
    requires
        from <= source@.len(),
    ensures
        r == first_delimiter(source@, from as int),
        from <= r <= source@.len(),
{
    let mut p = from;
    while p < source.len()
        invariant
            from <= p <= source@.len(),
            first_delimiter(source@, from as int) == first_delimiter(source@, p as int),
        decreases source@.len() - p,
    {
        if source[p] == 10u8 || source[p] == 59u8 {
            return p;
        }
        p = p + 1;
    }
    p
}

/// Build a fix that transforms `for x in arr` into `arr.each do |x|`.
pub fn build_fix(node: &ForNode, source: &[u8]) -> (r: Option<Fix>)
    requires
        node.do_keyword_loc is None ==> node.in_keyword_loc.end <= source@.len(),
    ensures
        match r {
            Some(f) => spec_build_fix(*node, source@) == Some(f@),
            None => spec_build_fix(*node, source@) is None,
        },
{
    let for_loc = node.for_keyword_loc;
    let in_loc = node.in_keyword_loc;
    let iterator = match extract_trimmed(source, for_loc.end, in_loc.start) {
        Some(s) => s,
        None => {
            return None;
        },
    };
    let (iteratee, header_end) = match node.do_keyword_loc {
        Some(do_loc) => {
            let text = match extract_trimmed(source, in_loc.end, do_loc.start) {
                Some(s) => s,
                None => {
                    return None;
                },
            };
            (text, do_loc.end)
        },
        None => {
            let search_start = in_loc.end;
            let delimiter_pos = find_delimiter(source, search_start);
            let text = match extract_trimmed(source, search_start, delimiter_pos) {
                Some(s) => s,
                None => {
                    return None;
                },
            };
            let header_end = if delimiter_pos < source.len() && source[delimiter_pos] == 59u8 {
                delimiter_pos + 1
            } else {
                delimiter_pos
            };
            (text, header_end)
        },
    };
    if iterator.unicode_len() == 0 || iteratee.unicode_len() == 0 {
        return None;
    }
    let mut new_header = iteratee;
    new_header.append(".each do |");
    new_header.append(iterator.as_str());
    new_header.append("|");
    Some(Fix::single(for_loc.start, header_end, new_header.as_str()))
}

/// Any `for` loop is an offense: prefer `.each`.
pub fn scan(node: &ForNode, source: &[u8]) -> (r: Vec<Offense>)
    requires
        node.do_keyword_loc is None ==> node.in_keyword_loc.end <= source@.len(),
    ensures
        offense_views(r@) == spec_scan_for(*node, source@),
{
    let fix = build_fix(node, source);
    let o = Offense::with_optional_fix(OffenseKind::ForLoopVsEach, node.for_keyword_loc.start, fix);
    let mut offenses: Vec<Offense> = Vec::new();
    push_offense(&mut offenses, o);
    proof {
        reveal(spec_scan_for);
    }
    assert(offense_views(offenses@) =~= spec_scan_for(*node, source@));
    offenses
}

proof fn lemma_first_delimiter(source: Seq<u8>, from: int)
    requires
        0 <= from <= source.len(),
    ensures
        from <= first_delimiter(source, from) <= source.len(),
        forall|j: int|
            from <= j < first_delimiter(source, from) ==> #[trigger] source[j] != 10u8 && source[j]
                != 59u8,
        first_delimiter(source, from) == source.len() || source[first_delimiter(source, from)]
            == 10u8 || source[first_delimiter(source, from)] == 59u8,
    decreases source.len() - from,
{
    if from < source.len() && !(source[from] == 10u8 || source[from] == 59u8) {
        lemma_first_delimiter(source, from + 1);
    }
}

/// The `for`-loop fix rewrites exactly the loop's header, from the `for`
/// keyword: with `do`, up to the end of `do`; without it, up to the first
/// newline after `in`, or just past the first `;` when that comes first, or
/// to the end of the source. No newline, and no `;` but a last one, lies
/// in the replaced range after `in`, so the loop's body is left as it is.
/// The new header is `COLLECTION.each do |VARIABLE|`, with the trimmed text
/// between `in` and the header's end as the collection and the trimmed text
/// between `for` and `in` as the variable.
pub proof fn lemma_for_fix_replaces_header(f: ForNode, source: Seq<u8>)
    requires
        source.len() <= usize::MAX,
    ensures
        spec_build_fix(f, source) matches Some(reps) ==> {
            let e = reps[0].1 as int;
            let b = f.in_keyword_loc.end as int;
            let q = match f.do_keyword_loc {
                Some(d) => d.start as int,
                None => if source[e - 1] == 59u8 {
                    e - 1
                } else {
                    e
                },
            };
            let v = f.for_keyword_loc.end as int;
            let w = f.in_keyword_loc.start as int;
            &&& reps.len() == 1
            &&& reps[0].0 == f.for_keyword_loc.start
            &&& b < q <= source.len() && valid_utf8(source.subrange(b, q))
            &&& v < w <= source.len() && valid_utf8(source.subrange(v, w))
            &&& reps[0].2 == trim_ws(decode_utf8(source.subrange(b, q))) + ".each do |"@ + trim_ws(
                decode_utf8(source.subrange(v, w)),
            ) + "|"@
            &&& (f.do_keyword_loc matches Some(d) ==> e == d.end)
            &&& (f.do_keyword_loc is None ==> {
                &&& b < e <= source.len()
                &&& forall|j: int|
                    b <= j < e ==> #[trigger] source[j] != 10u8 && (source[j] == 59u8 ==> j == e - 1)
                &&& (e == source.len() || source[e] == 10u8 || source[e - 1] == 59u8)
            })
        },
{
    let b = f.in_keyword_loc.end as int;
    if f.do_keyword_loc is None && b <= source.len() {
        lemma_first_delimiter(source, b);
    }
}

} // verus!
