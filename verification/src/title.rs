//! Best-effort extraction of a display title from a progress line.
//!
//! The downloader logs the output file it writes as
//! `... Destination: <path>`.  The title is the final segment of that path,
//! without its extension and without a trailing ` [...]` identifier tag.
//! Absence of the marker is the normal case, not an error.

use vstd::prelude::*;

verus! {

/// The marker that introduces the output path in a progress line.
pub open spec fn dest_marker() -> Seq<char> {
    "Destination: "@
}

/// `pat` occurs in `s` at position `i`.
pub open spec fn occurs_at(s: Seq<char>, pat: Seq<char>, i: int) -> bool {
    0 <= i && i + pat.len() <= s.len() && s.subrange(i, i + pat.len()) == pat
}

/// The first position at or after `i` where `pat` occurs in `s`.
pub open spec fn find_pat_from(s: Seq<char>, pat: Seq<char>, i: int) -> Option<int>
    decreases s.len() - i,
    via find_pat_from_decreases
{
    if i < 0 || i + pat.len() > s.len() {
        None
    } else if s.subrange(i, i + pat.len()) == pat {
        Some(i)
    } else {
        find_pat_from(s, pat, i + 1)
    }
}

#[via_fn]
proof fn find_pat_from_decreases(s: Seq<char>, pat: Seq<char>, i: int) {
    if i >= 0 && i + pat.len() <= s.len() && pat.len() == 0 {
        assert(s.subrange(i, i + pat.len()) =~= pat);
    }
}

/// What [`find_pat_from`] returns is the first occurrence at or after `i`,
/// and `None` means there is none.
pub proof fn lemma_find_pat_from(s: Seq<char>, pat: Seq<char>, i: int)
    requires
        0 <= i,
    ensures
        match find_pat_from(s, pat, i) {
            Some(j) => occurs_at(s, pat, j) && i <= j && forall|k: int|
                i <= k < j ==> !occurs_at(s, pat, k),
            None => forall|k: int| i <= k ==> !occurs_at(s, pat, k),
        },
    decreases s.len() - i,
{
    if i + pat.len() > s.len() {
        assert forall|k: int| i <= k implies !occurs_at(s, pat, k) by {}
    } else if s.subrange(i, i + pat.len()) == pat {
    } else {
        if pat.len() == 0 {
            assert(s.subrange(i, i + pat.len()) =~= pat);
        }
        lemma_find_pat_from(s, pat, i + 1);
    }
}

/// The last position at or before `k` where `c` occurs in `s`.
pub open spec fn rfind_char_from(s: Seq<char>, c: char, k: int) -> Option<int>
    decreases k + 1,
{
    if k < 0 {
        None
    } else if k < s.len() && s[k] == c {
        Some(k)
    } else {
        rfind_char_from(s, c, k - 1)
    }
}

/// What [`rfind_char_from`] returns is the last occurrence at or before
/// `k`, and `None` means there is none.
pub proof fn lemma_rfind_char_from(s: Seq<char>, c: char, k: int)
    ensures
        match rfind_char_from(s, c, k) {
            Some(r) => 0 <= r <= k && r < s.len() && s[r] == c && forall|j: int|
                r < j <= k && j < s.len() ==> s[j] != c,
            None => forall|j: int| 0 <= j <= k && j < s.len() ==> s[j] != c,
        },
    decreases k + 1,
{
    if k < 0 {
    } else if k < s.len() && s[k] == c {
    } else {
        lemma_rfind_char_from(s, c, k - 1);
    }
}

/// The last position at or before `k` where the two-character pattern
/// `c0 c1` occurs in `s`.
pub open spec fn rfind_pair_from(s: Seq<char>, c0: char, c1: char, k: int) -> Option<int>
    decreases k + 1,
{
    if k < 0 {
        None
    } else if k + 1 < s.len() && s[k] == c0 && s[k + 1] == c1 {
        Some(k)
    } else {
        rfind_pair_from(s, c0, c1, k - 1)
    }
}

/// What [`rfind_pair_from`] returns is a genuine occurrence of the pair.
pub proof fn lemma_rfind_pair_from(s: Seq<char>, c0: char, c1: char, k: int)
    ensures
        match rfind_pair_from(s, c0, c1, k) {
            Some(r) => 0 <= r <= k && r + 1 < s.len() && s[r] == c0 && s[r + 1] == c1,
            None => true,
        },
    decreases k + 1,
{
    if k < 0 {
    } else if k + 1 < s.len() && s[k] == c0 && s[k + 1] == c1 {
    } else {
        lemma_rfind_pair_from(s, c0, c1, k - 1);
    }
}

/// The path with every `\` separator rewritten to `/`, so that both
/// separator conventions read as one.
pub open spec fn normalized(p: Seq<char>) -> Seq<char> {
    Seq::new(p.len(), |i: int| if p[i] == '\\' { '/' } else { p[i] })
}

/// The final segment of the path: everything after the last separator of
/// the normalized path, or the whole path when it has none.
pub open spec fn file_name_of(p: Seq<char>) -> Seq<char> {
    let n = normalized(p);
    match rfind_char_from(n, '/', n.len() - 1) {
        Some(k) => n.subrange(k + 1, n.len() as int),
        None => n,
    }
}

/// The candidate with its last `.`-delimited extension removed, if any.
pub open spec fn sans_extension(f: Seq<char>) -> Seq<char> {
    match rfind_char_from(f, '.', f.len() - 1) {
        Some(d) => f.subrange(0, d),
        None => f,
    }
}

/// The candidate with a trailing identifier tag removed: when the text
/// ends with `]` and its last ` [` opens a non-empty bracketed group that
/// the final `]` closes, everything from that ` [` on is dropped.
pub open spec fn sans_bracket_tag(t: Seq<char>) -> Seq<char> {
    match rfind_pair_from(t, ' ', '[', t.len() - 2) {
        Some(k) => if t.len() >= k + 4 && t[t.len() - 1] == ']' {
            t.subrange(0, k)
        } else {
            t
        },
        None => t,
    }
}

/// The display title hidden in an output path.
pub open spec fn title_of_path(p: Seq<char>) -> Seq<char> {
    sans_bracket_tag(sans_extension(file_name_of(p)))
}

/// The title a progress line yields: the part after the first
/// `Destination: ` marker, read as a path — or nothing when the marker is
/// absent.
pub open spec fn spec_extract_title(line: Seq<char>) -> Option<Seq<char>> {
    match find_pat_from(line, dest_marker(), 0) {
        Some(i) => Some(
            title_of_path(line.subrange(i + dest_marker().len(), line.len() as int)),
        ),
        None => None,
    }
}

/// A line in which `Destination: ` nowhere occurs never yields a title,
/// whatever else it contains.
pub proof fn lemma_no_marker_no_title(line: Seq<char>)
    requires
        forall|i: int| !occurs_at(line, dest_marker(), i),
    ensures
        spec_extract_title(line) is None,
{
    lemma_find_pat_from(line, dest_marker(), 0);
    if let Some(i) = find_pat_from(line, dest_marker(), 0) {
        assert(occurs_at(line, dest_marker(), i));
    }
}

/// The characters of `s`, in order.
pub(crate) fn chars_of(s: &str) -> (r: Vec<char>)
    ensures
        r@ == s@,
{
    let n = s.unicode_len();
    let mut r: Vec<char> = Vec::new();
    let mut i: usize = 0;
    while i < n
        invariant
            i <= n,
            n == s@.len(),
            r@ == s@.subrange(0, i as int),
        decreases n - i,
    {
        let c = s.get_char(i);
        r.push(c);
        i = i + 1;
        proof {
            assert(r@ =~= s@.subrange(0, i as int));
        }
    }
    proof {
        assert(r@ =~= s@);
    }
    r
}

/// The characters of `v` from `from` up to `to`, in order.
fn subvec(v: &Vec<char>, from: usize, to: usize) -> (r: Vec<char>)
    requires
        from <= to <= v@.len(),
    ensures
        r@ == v@.subrange(from as int, to as int),
{
    let mut r: Vec<char> = Vec::new();
    let mut i: usize = from;
    while i < to
        invariant
            from <= i <= to <= v@.len(),
            r@ == v@.subrange(from as int, i as int),
        decreases to - i,
    {
        r.push(v[i]);
        i = i + 1;
        proof {
            assert(r@ =~= v@.subrange(from as int, i as int));
        }
    }
    r
}

/// Whether `pat` occurs in `hay` at position `i`.
fn match_at(hay: &Vec<char>, pat: &Vec<char>, i: usize) -> (r: bool)
    requires
        i + pat@.len() <= hay@.len(),
    ensures
        r == (hay@.subrange(i as int, i as int + pat@.len() as int) == pat@),
{
    let hn = hay.len();
    let m = pat.len();
    let mut j: usize = 0;
    while j < m
        invariant
            j <= m,
            m == pat@.len(),
            hn == hay@.len(),
            i + m <= hn,
            forall|t: int| 0 <= t < j ==> hay@[i + t] == pat@[t],
        decreases m - j,
    {
        if hay[i + j] != pat[j] {
            proof {
                assert(hay@.subrange(i as int, i as int + m as int)[j as int] == hay@[i + j]);
            }
            return false;
        }
        j = j + 1;
    }
    proof {
        assert(hay@.subrange(i as int, i as int + m as int) =~= pat@);
    }
    true
}

/// The first occurrence of `pat` in `hay`, if any.
pub(crate) fn find_pattern(hay: &Vec<char>, pat: &Vec<char>) -> (r: Option<usize>)
    ensures
        match r {
            Some(i) => find_pat_from(hay@, pat@, 0) == Some(i as int),
            None => find_pat_from(hay@, pat@, 0) is None,
        },
{
    let n = hay.len();
    let m = pat.len();
    if m > n {
        return None;
    }
    if m == 0 {
        proof {
            assert(hay@.subrange(0, 0) =~= pat@);
        }
        return Some(0);
    }
    let mut i: usize = 0;
    while i <= n - m
        invariant
            1 <= m <= n,
            n == hay@.len(),
            m == pat@.len(),
            i <= n - m + 1,
            find_pat_from(hay@, pat@, 0) == find_pat_from(hay@, pat@, i as int),
        decreases n - m + 1 - i,
    {
        if match_at(hay, pat, i) {
            return Some(i);
        }
        i = i + 1;
    }
    None
}

/// The last occurrence of `c` in `v`, if any.
fn rfind_char(v: &Vec<char>, c: char) -> (r: Option<usize>)
    ensures
        match r {
            Some(k) => rfind_char_from(v@, c, v@.len() - 1) == Some(k as int),
            None => rfind_char_from(v@, c, v@.len() - 1) is None,
        },
{
    let mut k = v.len();
    while k > 0
        invariant
            k <= v@.len(),
            rfind_char_from(v@, c, v@.len() - 1) == rfind_char_from(v@, c, k as int - 1),
        decreases k,
    {
        let idx = k - 1;
        if v[idx] == c {
            return Some(idx);
        }
        k = idx;
    }
    None
}

/// The last occurrence of the two-character pattern `c0 c1` in `v`, if
/// any.
fn rfind_pair(v: &Vec<char>, c0: char, c1: char) -> (r: Option<usize>)
    ensures
        match r {
            Some(k) => rfind_pair_from(v@, c0, c1, v@.len() - 2) == Some(k as int),
            None => rfind_pair_from(v@, c0, c1, v@.len() - 2) is None,
        },
{
    let n = v.len();
    if n < 2 {
        return None;
    }
    let mut k = n - 1;
    while k > 0
        invariant
            2 <= n == v@.len(),
            k <= n - 1,
            rfind_pair_from(v@, c0, c1, v@.len() - 2) == rfind_pair_from(v@, c0, c1, k as int - 1),
        decreases k,
    {
        let idx = k - 1;
        if v[idx] == c0 && v[idx + 1] == c1 {
            return Some(idx);
        }
        k = idx;
    }
    None
}

/// The path with every `\` rewritten to `/`.
fn normalize_path(p: &Vec<char>) -> (n: Vec<char>)
    ensures
        n@ == normalized(p@),
{
    let mut n: Vec<char> = Vec::new();
    let mut i: usize = 0;
    while i < p.len()
        invariant
            i <= p@.len(),
            n@ == normalized(p@).subrange(0, i as int),
        decreases p@.len() - i,
    {
        let c = p[i];
        if c == '\\' {
            n.push('/');
        } else {
            n.push(c);
        }
        i = i + 1;
        proof {
            assert(n@ =~= normalized(p@).subrange(0, i as int));
        }
    }
    proof {
        assert(n@ =~= normalized(p@));
    }
    n
}

/// The display title a progress line yields, when the line names the
/// output path after a `Destination: ` marker: the path's final segment
/// without extension and without a trailing bracketed tag.  A line
/// without the marker yields nothing, whatever it contains.
#[verifier::rlimit(50)]
pub fn extract_title_from_line(line: &str) -> (r: Option<String>)
    ensures
        r.deep_view() == spec_extract_title(line@),
{
    let cs = chars_of(line);
    let marker = chars_of("Destination: ");
    match find_pattern(&cs, &marker) {
        None => None,
        Some(i) => {
            proof {
                lemma_find_pat_from(cs@, marker@, 0);
            }
            let n = cs.len();
            let start = i + marker.len();
            let path = subvec(&cs, start, n);
            let norm = normalize_path(&path);
            proof {
                lemma_rfind_char_from(norm@, '/', norm@.len() - 1);
            }
            let fstart = match rfind_char(&norm, '/') {
                Some(k) => k + 1,
                None => 0,
            };
            let fname = subvec(&norm, fstart, norm.len());
            proof {
                assert(fname@ == file_name_of(path@));
                assert(fname@ =~= normalized(path@).subrange(fstart as int, norm@.len() as int));
            }
            proof {
                lemma_rfind_char_from(fname@, '.', fname@.len() - 1);
            }
            let cut = match rfind_char(&fname, '.') {
                Some(d) => d,
                None => fname.len(),
            };
            let stem = subvec(&fname, 0, cut);
            proof {
                assert(stem@ == sans_extension(fname@));
                assert(stem@ =~= fname@.subrange(0, cut as int));
            }
            proof {
                lemma_rfind_pair_from(stem@, ' ', '[', stem@.len() - 2);
            }
            let cut2 = match rfind_pair(&stem, ' ', '[') {
                Some(k) => {
                    if stem.len() - k >= 4 && stem[stem.len() - 1] == ']' {
                        k
                    } else {
                        stem.len()
                    }
                },
                None => stem.len(),
            };
            proof {
                assert(sans_bracket_tag(stem@) == stem@.subrange(0, cut2 as int));
            }
            // The title region of the normalized path holds no separator,
            // so those characters are unchanged from the line itself.
            let abs_start = start + fstart;
            let abs_end = abs_start + cut2;
            proof {
                lemma_rfind_char_from(norm@, '/', norm@.len() - 1);
                assert forall|j: int| fstart <= j < norm@.len() implies path@[j] == norm@[j] by {
                    assert(norm@[j] != '/');
                }
                assert(line@.subrange(abs_start as int, abs_end as int) =~= stem@.subrange(
                    0,
                    cut2 as int,
                ));
            }
            let title = line.substring_char(abs_start, abs_end);
            Some(String::from_str(title))
        },
    }
}

/// The cheap pre-filter is safe: a line in which the bare `Destination:`
/// marker nowhere occurs cannot contain `Destination: ` either, so it
/// yields no title.
pub proof fn lemma_prefilter_covers(line: Seq<char>)
    requires
        find_pat_from(line, "Destination:"@, 0) is None,
    ensures
        spec_extract_title(line) is None,
{
    lemma_find_pat_from(line, "Destination:"@, 0);
    lemma_find_pat_from(line, dest_marker(), 0);
    if let Some(i) = find_pat_from(line, dest_marker(), 0) {
        assert(occurs_at(line, dest_marker(), i));
        reveal_strlit("Destination: ");
        reveal_strlit("Destination:");
        assert forall|t: int| 0 <= t < 12 implies line.subrange(i, i + 12)[t]
            == "Destination:"@[t] by {
            assert(line.subrange(i, i + 13)[t] == dest_marker()[t]);
        }
        assert(line.subrange(i, i + 12) =~= "Destination:"@);
        assert(occurs_at(line, "Destination:"@, i));
    }
}

} // verus!
