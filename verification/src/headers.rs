//! Parser for the compact header encoding: a comma-separated list of
//! colon-separated key/value pairs, e.g. `"Authorization: Bearer x, X-Foo: bar"`.
//!
//! Each entry is split on its first `:`; key and value are trimmed of
//! surrounding whitespace.  An entry with no `:`, or with an empty key,
//! is a parse failure.  An input that is empty (or all whitespace)
//! parses to the empty list of pairs.  Duplicate keys are kept in
//! order; as a mapping, the last occurrence wins (see [`map_of`]).

use vstd::prelude::*;
use vstd::string::*;

verus! {

/// A whitespace character, as trimming treats it: the four ASCII
/// whitespace characters that occur in header text (space, tab,
/// carriage return, line feed).
pub open spec fn is_space(c: char) -> bool {
    c == ' ' || c == '\t' || c == '\n' || c == '\r'
}

pub open spec fn all_spaces(s: Seq<char>) -> bool {
    forall|i: int| 0 <= i < s.len() ==> is_space(s[i])
}

/// Drop leading whitespace.
pub open spec fn trim_front(s: Seq<char>) -> Seq<char>
    decreases s.len(),
{
    if s.len() > 0 && is_space(s[0]) {
        trim_front(s.subrange(1, s.len() as int))
    } else {
        s
    }
}

/// Drop trailing whitespace.
pub open spec fn trim_back(s: Seq<char>) -> Seq<char>
    decreases s.len(),
{
    if s.len() > 0 && is_space(s[s.len() - 1]) {
        trim_back(s.subrange(0, s.len() - 1))
    } else {
        s
    }
}

/// Drop surrounding whitespace.
pub open spec fn trim_spec(s: Seq<char>) -> Seq<char> {
    trim_back(trim_front(s))
}

/// `c` occurs at position `i` of `s` and nowhere earlier.
pub open spec fn first_at(s: Seq<char>, c: char, i: int) -> bool {
    0 <= i < s.len() && s[i] == c && (forall|j: int| 0 <= j < i ==> s[j] != c)
}

/// Split one entry on its first `:` and trim both sides; the key must
/// be non-empty.
pub open spec fn entry_kv(e: Seq<char>) -> Option<(Seq<char>, Seq<char>)> {
    if exists|i: int| first_at(e, ':', i) {
        let i = choose|i: int| first_at(e, ':', i);
        let k = trim_spec(e.subrange(0, i));
        let v = trim_spec(e.subrange(i + 1, e.len() as int));
        if k.len() > 0 {
            Some((k, v))
        } else {
            None
        }
    } else {
        None
    }
}

/// Parse a non-empty list of comma-separated entries.
pub open spec fn parse_entries(s: Seq<char>) -> Option<Seq<(Seq<char>, Seq<char>)>>
    decreases s.len(),
{
    if exists|i: int| first_at(s, ',', i) {
        let i = choose|i: int| first_at(s, ',', i);
        match entry_kv(s.subrange(0, i)) {
            Some(kv) => match parse_entries(s.subrange(i + 1, s.len() as int)) {
                Some(rest) => Some(seq![kv] + rest),
                None => None,
            },
            None => None,
        }
    } else {
        match entry_kv(s) {
            Some(kv) => Some(seq![kv]),
            None => None,
        }
    }
}

/// What [`parse_header_map`] returns: the ordered key/value pairs, or
/// `None` for a malformed input.
pub open spec fn parse_spec(s: Seq<char>) -> Option<Seq<(Seq<char>, Seq<char>)>> {
    if all_spaces(s) {
        Some(Seq::empty())
    } else {
        parse_entries(s)
    }
}

/// The views of a vector of owned pairs.
pub open spec fn pairs_view(ps: Seq<(String, String)>) -> Seq<(Seq<char>, Seq<char>)> {
    ps.map_values(|p: (String, String)| (p.0@, p.1@))
}

/// The pairs as a mapping: the last occurrence of a key wins.
pub open spec fn map_of(ps: Seq<(Seq<char>, Seq<char>)>) -> Map<Seq<char>, Seq<char>>
    decreases ps.len(),
{
    if ps.len() == 0 {
        Map::empty()
    } else {
        map_of(ps.drop_last()).insert(ps.last().0, ps.last().1)
    }
}

/// The pair at `i` is the one the mapping keeps for its key: no later
/// pair has the same key.
pub open spec fn last_occurrence(ps: Seq<(Seq<char>, Seq<char>)>, i: int) -> bool {
    0 <= i < ps.len() && (forall|j: int| i < j < ps.len() ==> (#[trigger] ps[j]).0 != ps[i].0)
}

/// Decide whether the pair at `i` is the last occurrence of its key.
pub fn is_last_occurrence_at(pairs: &Vec<(String, String)>, i: usize) -> (r: bool)
    requires
        i < pairs@.len(),
    ensures
        r == last_occurrence(pairs_view(pairs@), i as int),
{
    let ghost pv = pairs_view(pairs@);
    let n = pairs.len();
    let mut j: usize = i + 1;
    while j < n
        invariant
            i < j <= n == pairs.len(),
            pv == pairs_view(pairs@),
            forall|m: int| i < m < j ==> (#[trigger] pv[m]).0 != pv[i as int].0,
        decreases n - j,
    {
        proof {
            assert(pv[j as int] == (pairs@[j as int].0@, pairs@[j as int].1@));
            assert(pv[i as int] == (pairs@[i as int].0@, pairs@[i as int].1@));
        }
        if str_eq(pairs[j].0.as_str(), pairs[i].0.as_str()) {
            return false;
        }
        j = j + 1;
    }
    true
}

proof fn lemma_map_of_last(ps: Seq<(Seq<char>, Seq<char>)>, k: Seq<char>, i: int)
    requires
        0 <= i < ps.len(),
        ps[i].0 == k,
        forall|j: int| i < j < ps.len() ==> (#[trigger] ps[j]).0 != k,
    ensures
        map_of(ps).contains_key(k),
        map_of(ps)[k] == ps[i].1,
    decreases ps.len(),
{
    if i < ps.len() - 1 {
        lemma_map_of_last(ps.drop_last(), k, i);
    }
}

proof fn lemma_map_of_absent(ps: Seq<(Seq<char>, Seq<char>)>, k: Seq<char>)
    requires
        forall|j: int| 0 <= j < ps.len() ==> (#[trigger] ps[j]).0 != k,
    ensures
        !map_of(ps).contains_key(k),
    decreases ps.len(),
{
    if ps.len() > 0 {
        lemma_map_of_absent(ps.drop_last(), k);
    }
}

/// Compare two strings character by character.
fn str_eq(a: &str, b: &str) -> (r: bool)
    ensures
        r == (a@ == b@),
{
    let na = a.unicode_len();
    let nb = b.unicode_len();
    if na != nb {
        return false;
    }
    let mut i: usize = 0;
    while i < na
        invariant
            i <= na,
            na == a@.len(),
            na == b@.len(),
            forall|j: int| 0 <= j < i ==> a@[j] == b@[j],
        decreases na - i,
    {
        if a.get_char(i) != b.get_char(i) {
            return false;
        }
        i = i + 1;
    }
    proof {
        assert(a@ =~= b@);
    }
    true
}

/// Look a key up among parsed pairs, reading them as a mapping: the
/// value of the last occurrence of the key, if the key occurs at all.
pub fn lookup_header<'a>(pairs: &'a Vec<(String, String)>, key: &str) -> (r: Option<&'a String>)
    ensures
        match r {
            Some(v) => map_of(pairs_view(pairs@)).contains_key(key@) && v@ == map_of(
                pairs_view(pairs@),
            )[key@],
            None => !map_of(pairs_view(pairs@)).contains_key(key@),
        },
{
    let ghost pv = pairs_view(pairs@);
    let mut i: usize = pairs.len();
    while i > 0
        invariant
            i <= pairs.len(),
            pv == pairs_view(pairs@),
            forall|j: int| i <= j < pv.len() ==> (#[trigger] pv[j]).0 != key@,
        decreases i,
    {
        i = i - 1;
        proof {
            assert(pv[i as int] == (pairs@[i as int].0@, pairs@[i as int].1@));
        }
        if str_eq(pairs[i].0.as_str(), key) {
            proof {
                lemma_map_of_last(pv, key@, i as int);
            }
            return Some(&pairs[i].1);
        }
    }
    proof {
        lemma_map_of_absent(pv, key@);
    }
    None
}

proof fn lemma_first_at_unique(s: Seq<char>, c: char, i: int, j: int)
    requires
        first_at(s, c, i),
        first_at(s, c, j),
    ensures
        i == j,
{
    if i < j {
        assert(s[i] != c);
    }
    if j < i {
        assert(s[j] != c);
    }
}

fn is_space_at(s: &str, i: usize) -> (r: bool)
    requires
        i < s@.len(),
    ensures
        r == is_space(s@[i as int]),
{
    let c = s.get_char(i);
    c == ' ' || c == '\t' || c == '\n' || c == '\r'
}

/// Scan `s` for `c` in the index range `[from, to)`.
fn find_char(s: &str, c: char, from: usize, to: usize) -> (r: Option<usize>)
    requires
        from <= to <= s@.len(),
    ensures
        match r {
            Some(p) => from <= p < to && s@[p as int] == c && (forall|j: int|
                from <= j < p ==> s@[j] != c),
            None => forall|j: int| from <= j < to ==> s@[j] != c,
        },
{
    let mut p: usize = from;
    while p < to
        invariant
            from <= p <= to <= s@.len(),
            forall|j: int| from <= j < p ==> s@[j] != c,
        decreases to - p,
    {
        if s.get_char(p) == c {
            return Some(p);
        }
        p = p + 1;
    }
    None
}

/// Find the trimmed core `[r.0, r.1)` of the region `[a, b)` of `s`.
fn trim_range(s: &str, a: usize, b: usize) -> (r: (usize, usize))
    requires
        a <= b <= s@.len(),
    ensures
        a <= r.0 <= r.1 <= b,
        forall|k: int| a <= k < r.0 ==> is_space(s@[k]),
        forall|k: int| r.1 <= k < b ==> is_space(s@[k]),
        r.0 < r.1 ==> !is_space(s@[r.0 as int]) && !is_space(s@[r.1 - 1]),
{
    let mut lo: usize = a;
    while lo < b && is_space_at(s, lo)
        invariant
            a <= lo <= b <= s@.len(),
            forall|k: int| a <= k < lo ==> is_space(s@[k]),
        decreases b - lo,
    {
        lo = lo + 1;
    }
    if lo == b {
        return (lo, lo);
    }
    let mut hi: usize = b;
    while hi > lo && is_space_at(s, hi - 1)
        invariant
            a <= lo <= hi <= b <= s@.len(),
            lo < b,
            !is_space(s@[lo as int]),
            forall|k: int| hi <= k < b ==> is_space(s@[k]),
        decreases hi,
    {
        hi = hi - 1;
    }
    (lo, hi)
}

proof fn lemma_trim_front_len(s: Seq<char>)
    ensures
        trim_front(s).len() <= s.len(),
    decreases s.len(),
{
    if s.len() > 0 && is_space(s[0]) {
        lemma_trim_front_len(s.subrange(1, s.len() as int));
    }
}

proof fn lemma_trim_back_len(s: Seq<char>)
    ensures
        trim_back(s).len() <= s.len(),
    decreases s.len(),
{
    if s.len() > 0 && is_space(s[s.len() - 1]) {
        lemma_trim_back_len(s.subrange(0, s.len() - 1));
    }
}

/// A trim-stable sequence is left unchanged by each one-sided trim.
proof fn lemma_trim_stable(s: Seq<char>)
    requires
        trim_spec(s) == s,
    ensures
        trim_front(s) == s,
        trim_back(s) == s,
{
    lemma_trim_front_len(s);
    lemma_trim_back_len(trim_front(s));
    if s.len() > 0 && is_space(s[0]) {
        lemma_trim_front_len(s.subrange(1, s.len() as int));
        assert(trim_front(s).len() < s.len());
        assert(false);
    }
    assert(trim_front(s) == s);
}

/// Trimming ignores an all-space prefix: the first `k` characters.
proof fn lemma_trim_front_skips_spaces(s: Seq<char>, k: int)
    requires
        0 <= k <= s.len(),
        forall|m: int| 0 <= m < k ==> is_space(s[m]),
    ensures
        trim_front(s) == trim_front(s.subrange(k, s.len() as int)),
    decreases k,
{
    if k == 0 {
        assert(s.subrange(0, s.len() as int) =~= s);
    } else {
        let t = s.subrange(1, s.len() as int);
        lemma_trim_front_skips_spaces(t, k - 1);
        assert(t.subrange(k - 1, t.len() as int) =~= s.subrange(k, s.len() as int));
    }
}

/// Trimming ignores an all-space suffix: the characters from `k` on.
proof fn lemma_trim_back_skips_spaces(s: Seq<char>, k: int)
    requires
        0 <= k <= s.len(),
        forall|m: int| k <= m < s.len() ==> is_space(s[m]),
    ensures
        trim_back(s) == trim_back(s.subrange(0, k)),
    decreases s.len() - k,
{
    if k == s.len() {
        assert(s.subrange(0, s.len() as int) =~= s);
    } else {
        let t = s.subrange(0, s.len() - 1);
        assert(is_space(s[s.len() - 1]));
        lemma_trim_back_skips_spaces(t, k);
        assert(t.subrange(0, k) =~= s.subrange(0, k));
    }
}

proof fn lemma_trim_front_all_spaces(s: Seq<char>)
    requires
        all_spaces(s),
    ensures
        trim_front(s) == Seq::<char>::empty(),
{
    lemma_trim_front_skips_spaces(s, s.len() as int);
    assert(s.subrange(s.len() as int, s.len() as int) =~= Seq::<char>::empty());
}

/// The trim of a region whose core `[i, j)` is flanked by spaces and
/// starts and ends with a non-space is exactly that core.
proof fn lemma_trim_region(e: Seq<char>, i: int, j: int)
    requires
        0 <= i <= j <= e.len(),
        forall|k: int| 0 <= k < i ==> is_space(e[k]),
        forall|k: int| j <= k < e.len() ==> is_space(e[k]),
        i < j ==> !is_space(e[i]) && !is_space(e[j - 1]),
    ensures
        trim_spec(e) == e.subrange(i, j),
{
    if i == j {
        assert(all_spaces(e));
        lemma_trim_front_all_spaces(e);
        assert(e.subrange(i, j) =~= Seq::<char>::empty());
    } else {
        lemma_trim_front_skips_spaces(e, i);
        let t = e.subrange(i, e.len() as int);
        assert(!is_space(t[0]));
        assert(trim_front(t) == t);
        lemma_trim_back_skips_spaces(t, j - i);
        assert(t.subrange(0, j - i) =~= e.subrange(i, j));
        let u = e.subrange(i, j);
        assert(!is_space(u[u.len() - 1]));
        assert(trim_back(u) == u);
    }
}

/// Parse the header encoding.  Returns the key/value pairs in input
/// order, or `None` iff the input is malformed: some entry has no
/// colon, or an empty key.
#[verifier::rlimit(100)]
pub fn parse_header_map(s: &str) -> (r: Option<Vec<(String, String)>>)
    ensures
        r is Some <==> parse_spec(s@) is Some,
        r matches Some(v) ==> Some(pairs_view(v@)) == parse_spec(s@),
{
    let n = s.unicode_len();
    let (w0, w1) = trim_range(s, 0, n);
    if w0 == w1 {
        let empty_res: Vec<(String, String)> = Vec::new();
        proof {
            assert(all_spaces(s@));
            assert(pairs_view(empty_res@) =~= Seq::<(Seq<char>, Seq<char>)>::empty());
        }
        return Some(empty_res);
    }
    proof {
        assert(!is_space(s@[w0 as int]));
        assert(!all_spaces(s@));
    }
    let mut res: Vec<(String, String)> = Vec::new();
    let mut start: usize = 0;
    proof {
        assert(s@.subrange(0, n as int) =~= s@);
        assert(pairs_view(res@) =~= Seq::<(Seq<char>, Seq<char>)>::empty());
        if let Some(r) = parse_entries(s@) {
            assert(Seq::<(Seq<char>, Seq<char>)>::empty() + r =~= r);
        }
    }
    loop
        invariant
            start <= n == s@.len(),
            !all_spaces(s@),
            parse_entries(s@) == combine(pairs_view(res@), parse_entries(
                s@.subrange(start as int, n as int),
            )),
        decreases n - start,
    {
        let ghost suf = s@.subrange(start as int, n as int);
        let comma = find_char(s, ',', start, n);
        let end = match comma {
            Some(c) => c,
            None => n,
        };
        proof {
            match comma {
                Some(c) => {
                    assert(first_at(suf, ',', c - start)) by {
                        assert(suf[c - start] == s@[c as int]);
                        assert forall|j: int| 0 <= j < c - start implies suf[j] != ',' by {
                            assert(suf[j] == s@[start + j]);
                        }
                    }
                    let ci = choose|i: int| first_at(suf, ',', i);
                    lemma_first_at_unique(suf, ',', ci, c - start);
                },
                None => {
                    assert forall|i: int| !first_at(suf, ',', i) by {
                        if 0 <= i < suf.len() {
                            assert(suf[i] == s@[start + i]);
                        }
                    }
                },
            }
        }
        let ghost entry = s@.subrange(start as int, end as int);
        proof {
            match comma {
                Some(c) => {
                    assert(suf.subrange(0, c - start) =~= entry);
                },
                None => {
                    assert(suf =~= entry);
                },
            }
        }
        // parse one entry over [start, end)
        let colon = match find_char(s, ':', start, end) {
            Some(d) => d,
            None => {
                proof {
                    assert forall|i: int| !first_at(entry, ':', i) by {
                        if 0 <= i < entry.len() {
                            assert(entry[i] == s@[start + i]);
                        }
                    }
                    assert(entry_kv(entry) is None);
                }
                return None;
            },
        };
        proof {
            assert(first_at(entry, ':', colon - start)) by {
                assert(entry[colon - start] == s@[colon as int]);
                assert forall|j: int| 0 <= j < colon - start implies entry[j] != ':' by {
                    assert(entry[j] == s@[start + j]);
                }
            }
            let di = choose|i: int| first_at(entry, ':', i);
            lemma_first_at_unique(entry, ':', di, colon - start);
        }
        let (k0, k1) = trim_range(s, start, colon);
        proof {
            let kreg = entry.subrange(0, colon - start);
            assert(kreg =~= s@.subrange(start as int, colon as int));
            lemma_trim_region(kreg, k0 - start, k1 - start);
            assert(kreg.subrange(k0 - start, k1 - start) =~= s@.subrange(k0 as int, k1 as int));
        }
        if k0 == k1 {
            proof {
                assert(entry_kv(entry) is None);
            }
            return None;
        }
        let (v0, v1) = trim_range(s, colon + 1, end);
        proof {
            let vreg = entry.subrange(colon - start + 1, entry.len() as int);
            assert(vreg =~= s@.subrange(colon + 1, end as int));
            lemma_trim_region(vreg, v0 - (colon + 1), v1 - (colon + 1));
            assert(vreg.subrange(v0 - (colon + 1), v1 - (colon + 1)) =~= s@.subrange(
                v0 as int,
                v1 as int,
            ));
        }
        let key = String::from_str(s.substring_char(k0, k1));
        let val = String::from_str(s.substring_char(v0, v1));
        let ghost kv = (key@, val@);
        proof {
            assert(entry_kv(entry) == Some(kv));
        }
        let ghost old_pairs = pairs_view(res@);
        res.push((key, val));
        proof {
            assert(pairs_view(res@) =~= old_pairs.push(kv));
        }
        match comma {
            Some(c) => {
                proof {
                    let rest = suf.subrange(c - start + 1, suf.len() as int);
                    assert(rest =~= s@.subrange(c + 1, n as int));
                    assert(parse_entries(suf) == combine(seq![kv], parse_entries(rest)));
                    lemma_combine_assoc(old_pairs, kv, parse_entries(rest));
                }
                start = c + 1;
            },
            None => {
                proof {
                    assert(parse_entries(suf) == Some(seq![kv]));
                    assert(combine(old_pairs, Some(seq![kv])) =~= Some(pairs_view(res@)));
                    assert(parse_entries(s@) == Some(pairs_view(res@)));
                }
                return Some(res);
            },
        }
    }
}

/// Prepend already-parsed pairs to the outcome of the rest of the parse.
pub open spec fn combine(
    acc: Seq<(Seq<char>, Seq<char>)>,
    rest: Option<Seq<(Seq<char>, Seq<char>)>>,
) -> Option<Seq<(Seq<char>, Seq<char>)>> {
    match rest {
        Some(r) => Some(acc + r),
        None => None,
    }
}

/// A key that the round-trip law admits: non-empty, trim-stable, and
/// free of the two separator characters.
pub open spec fn clean_key(k: Seq<char>) -> bool {
    k.len() > 0 && trim_spec(k) == k && (forall|i: int|
        0 <= i < k.len() ==> k[i] != ',' && k[i] != ':')
}

/// A value that the round-trip law admits: trim-stable and free of the
/// two separator characters.
pub open spec fn clean_value(v: Seq<char>) -> bool {
    trim_spec(v) == v && (forall|i: int| 0 <= i < v.len() ==> v[i] != ',' && v[i] != ':')
}

/// One pair rendered as `"k: v"`.
pub open spec fn encode_pair(k: Seq<char>, v: Seq<char>) -> Seq<char> {
    k + seq![':', ' '] + v
}

/// Pairs rendered as `"k1: v1, k2: v2"`.
pub open spec fn encode_pairs(ps: Seq<(Seq<char>, Seq<char>)>) -> Seq<char>
    decreases ps.len(),
{
    if ps.len() == 0 {
        Seq::empty()
    } else if ps.len() == 1 {
        encode_pair(ps[0].0, ps[0].1)
    } else {
        encode_pair(ps[0].0, ps[0].1) + seq![',', ' '] + encode_pairs(ps.drop_first())
    }
}

proof fn lemma_entry_kv_encode(pre: Seq<char>, k: Seq<char>, v: Seq<char>)
    requires
        all_spaces(pre),
        clean_key(k),
        clean_value(v),
    ensures
        entry_kv(pre + encode_pair(k, v)) == Some((k, v)),
{
    let e = pre + encode_pair(k, v);
    let w = pre.len() + k.len();
    assert(e[w as int] == ':');
    assert(first_at(e, ':', w as int)) by {
        assert forall|j: int| 0 <= j < w implies e[j] != ':' by {
            if j < pre.len() {
                assert(is_space(pre[j]));
            } else {
                assert(e[j] == k[j - pre.len()]);
            }
        }
    }
    let ci = choose|i: int| first_at(e, ':', i);
    lemma_first_at_unique(e, ':', ci, w as int);
    // the key side
    let kreg = e.subrange(0, w as int);
    assert(kreg =~= pre + k);
    lemma_trim_front_skips_spaces(kreg, pre.len() as int);
    assert(kreg.subrange(pre.len() as int, kreg.len() as int) =~= k);
    lemma_trim_stable(k);
    assert(trim_spec(kreg) == k);
    // the value side
    let vreg = e.subrange(w as int + 1, e.len() as int);
    assert(vreg =~= seq![' '] + v);
    lemma_trim_front_skips_spaces(vreg, 1);
    assert(vreg.subrange(1, vreg.len() as int) =~= v);
    lemma_trim_stable(v);
    assert(trim_spec(vreg) == v);
}

proof fn lemma_parse_entries_encode(pre: Seq<char>, ps: Seq<(Seq<char>, Seq<char>)>)
    requires
        all_spaces(pre),
        ps.len() >= 1,
        forall|i: int| 0 <= i < ps.len() ==> clean_key(#[trigger] ps[i].0) && clean_value(
            ps[i].1,
        ),
    ensures
        parse_entries(pre + encode_pairs(ps)) == Some(ps),
    decreases ps.len(),
{
    let k = ps[0].0;
    let v = ps[0].1;
    if ps.len() == 1 {
        let s = pre + encode_pairs(ps);
        assert(s =~= pre + encode_pair(k, v));
        assert forall|i: int| !first_at(s, ',', i) by {
            if 0 <= i < s.len() {
                if i < pre.len() {
                    assert(is_space(pre[i]));
                    assert(s[i] != ',');
                } else {
                    let j = i - pre.len();
                    if j < k.len() {
                        assert(s[i] == k[j]);
                    } else if j == k.len() {
                        assert(s[i] == ':');
                    } else if j == k.len() + 1 {
                        assert(s[i] == ' ');
                    } else {
                        assert(s[i] == v[j - k.len() - 2]);
                    }
                }
            }
        }
        lemma_entry_kv_encode(pre, k, v);
        assert(ps =~= seq![(k, v)]);
    } else {
        let s = pre + encode_pairs(ps);
        let rest = ps.drop_first();
        let w = pre.len() + k.len() + 2 + v.len();
        assert(s =~= pre + encode_pair(k, v) + seq![',', ' '] + encode_pairs(rest));
        assert(first_at(s, ',', w as int)) by {
            assert(s[w as int] == ',');
            assert forall|j: int| 0 <= j < w implies s[j] != ',' by {
                if j < pre.len() {
                    assert(is_space(pre[j]));
                    assert(s[j] != ',');
                } else {
                    let m = j - pre.len();
                    if m < k.len() {
                        assert(s[j] == k[m]);
                    } else if m == k.len() {
                        assert(s[j] == ':');
                    } else if m == k.len() + 1 {
                        assert(s[j] == ' ');
                    } else {
                        assert(s[j] == v[m - k.len() - 2]);
                    }
                }
            }
        }
        let ci = choose|i: int| first_at(s, ',', i);
        lemma_first_at_unique(s, ',', ci, w as int);
        assert(s.subrange(0, w as int) =~= pre + encode_pair(k, v));
        lemma_entry_kv_encode(pre, k, v);
        assert(s.subrange(w as int + 1, s.len() as int) =~= seq![' '] + encode_pairs(rest));
        assert(all_spaces(seq![' ']));
        lemma_parse_entries_encode(seq![' '], rest);
        assert(seq![(k, v)] + rest =~= ps);
    }
}

/// Law: encoding key/value pairs as `"k1: v1, k2: v2"` and parsing the
/// result recovers the same pairs, hence the same mapping, for every
/// list of pairs whose keys are non-empty, whose keys and values carry
/// no surrounding whitespace, and where neither holds a `,` or a `:`.
pub proof fn lemma_parse_encode_round_trip(ps: Seq<(Seq<char>, Seq<char>)>)
    requires
        forall|i: int| 0 <= i < ps.len() ==> clean_key(#[trigger] ps[i].0) && clean_value(
            ps[i].1,
        ),
    ensures
        parse_spec(encode_pairs(ps)) == Some(ps),
        ps.len() > 0 ==> map_of(parse_spec(encode_pairs(ps)).unwrap()) == map_of(ps),
{
    if ps.len() == 0 {
        assert(all_spaces(encode_pairs(ps)));
        assert(parse_spec(encode_pairs(ps)) == Some(Seq::<(Seq<char>, Seq<char>)>::empty()));
        assert(ps =~= Seq::<(Seq<char>, Seq<char>)>::empty());
    } else {
        let s = encode_pairs(ps);
        let k = ps[0].0;
        assert(s[k.len() as int] == ':');
        assert(!all_spaces(s)) by {
            assert(!is_space(s[k.len() as int]));
        }
        assert(Seq::<char>::empty() + s =~= s);
        assert(all_spaces(Seq::<char>::empty()));
        lemma_parse_entries_encode(Seq::<char>::empty(), ps);
    }
}

proof fn lemma_combine_assoc(
    acc: Seq<(Seq<char>, Seq<char>)>,
    kv: (Seq<char>, Seq<char>),
    rest: Option<Seq<(Seq<char>, Seq<char>)>>,
)
    ensures
        combine(acc, combine(seq![kv], rest)) == combine(acc.push(kv), rest),
{
    match rest {
        Some(r) => {
            assert(acc + (seq![kv] + r) =~= acc.push(kv) + r);
        },
        None => {},
    }
}

} // verus!
