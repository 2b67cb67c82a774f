//! Character-sequence utilities shared by the path and text logic:
//! substring search, suffix tests and path-segment extraction.

use vstd::prelude::*;

verus! {

use vstd::string::StrSliceExecFns;

/// `sub` occurs in `s` starting at index `i`.
pub open spec fn matches_at(s: Seq<char>, sub: Seq<char>, i: int) -> bool {
    0 <= i && i + sub.len() <= s.len() && s.subrange(i, i + sub.len() as int) == sub
}

/// `sub` occurs somewhere in `s`.
pub open spec fn has_substring(s: Seq<char>, sub: Seq<char>) -> bool {
    exists|i: int| matches_at(s, sub, i)
}

/// `c` occurs in `s`.
pub open spec fn contains_char(s: Seq<char>, c: char) -> bool {
    exists|i: int| 0 <= i < s.len() && s[i] == c
}

/// `s` ends with `suffix`.
pub open spec fn ends_with(s: Seq<char>, suffix: Seq<char>) -> bool {
    s.len() >= suffix.len() && s.subrange(s.len() - suffix.len(), s.len() as int) == suffix
}

/// Collects the characters of a string slice into a vector.
pub fn chars_of(s: &str) -> (v: Vec<char>)
    ensures
        v@ == s@,
{
    let n: usize = s.unicode_len();
    let mut v: Vec<char> = Vec::new();
    let mut i: usize = 0;
    while i < n
        invariant
            n == s@.len(),
            i <= n,
            v@ == s@.take(i as int),
        decreases n - i,
    {
        v.push(s.get_char(i));
        proof {
            assert(v@ =~= s@.take(i + 1));
        }
        i = i + 1;
    }
    proof {
        assert(v@ =~= s@);
    }
    v
}

/// Compares the window of `s` starting at `i` against `sub`.
fn window_eq(s: &Vec<char>, sub: &Vec<char>, i: usize) -> (b: bool)
    requires
        i + sub@.len() <= s@.len(),
    ensures
        b == matches_at(s@, sub@, i as int),
{
    let m: usize = sub.len();
    let n: usize = s.len();
    let mut j: usize = 0;
    while j < m
        invariant
            m == sub@.len(),
            n == s@.len(),
            i + m <= n,
            j <= m,
            forall|k: int| 0 <= k < j ==> s@[i + k] == sub@[k],
        decreases m - j,
    {
        if s[i + j] != sub[j] {
            proof {
                assert(s@.subrange(i as int, i + sub@.len() as int)[j as int] == s@[i + j]);
            }
            return false;
        }
        j = j + 1;
    }
    proof {
        assert(s@.subrange(i as int, i + sub@.len() as int) =~= sub@);
    }
    true
}

/// Finds the first index at or after `from` where `sub` occurs in `s`.
pub fn find_from(s: &Vec<char>, sub: &Vec<char>, from: usize) -> (r: Option<usize>)
    requires
        sub@.len() > 0,
        from <= s@.len(),
    ensures
        match r {
            Some(m) => {
                &&& from <= m
                &&& matches_at(s@, sub@, m as int)
                &&& forall|k: int| from <= k < m ==> !matches_at(s@, sub@, k)
            },
            None => forall|k: int| from <= k ==> !matches_at(s@, sub@, k),
        },
{
    let n: usize = s.len();
    let m: usize = sub.len();
    if m > n {
        return None;
    }
    let bound: usize = n - m;
    if from > bound {
        return None;
    }
    let mut i: usize = from;
    while i <= bound
        invariant
            n == s@.len(),
            m == sub@.len(),
            m >= 1,
            m <= n,
            bound == n - m,
            from <= i,
            i <= bound + 1,
            forall|k: int| from <= k < i ==> !matches_at(s@, sub@, k),
        decreases bound + 1 - i,
    {
        if window_eq(s, sub, i) {
            return Some(i);
        }
        i = i + 1;
    }
    None
}

/// True when `sub` occurs in `s`.
pub fn contains_str(s: &str, sub: &str) -> (b: bool)
    ensures
        b == has_substring(s@, sub@),
{
    let sv: Vec<char> = chars_of(s);
    let bv: Vec<char> = chars_of(sub);
    if bv.len() == 0 {
        proof {
            assert(s@.subrange(0, 0) =~= sub@);
            assert(matches_at(s@, sub@, 0));
        }
        return true;
    }
    let r: Option<usize> = find_from(&sv, &bv, 0);
    match r {
        Some(m) => {
            proof {
                assert(matches_at(s@, sub@, m as int));
            }
            true
        },
        None => false,
    }
}

/// True when the character `c` occurs in `s`.
pub fn str_contains_char(s: &str, c: char) -> (b: bool)
    ensures
        b == contains_char(s@, c),
{
    let v: Vec<char> = chars_of(s);
    let n: usize = v.len();
    let mut i: usize = 0;
    while i < n
        invariant
            v@ == s@,
            n == s@.len(),
            i <= n,
            forall|k: int| 0 <= k < i ==> s@[k] != c,
        decreases n - i,
    {
        if v[i] == c {
            return true;
        }
        i = i + 1;
    }
    false
}

/// True when `s` ends with `suffix`.
pub fn ends_with_str(s: &str, suffix: &str) -> (b: bool)
    ensures
        b == ends_with(s@, suffix@),
{
    let sv: Vec<char> = chars_of(s);
    let fv: Vec<char> = chars_of(suffix);
    if fv.len() > sv.len() {
        return false;
    }
    let start: usize = sv.len() - fv.len();
    window_eq(&sv, &fv, start)
}

/// The part of `s` after the last `'/'` separator (all of `s` when there is
/// none, empty when `s` ends with a separator).
pub open spec fn last_segment(s: Seq<char>) -> Seq<char>
    decreases s.len(),
{
    if s.len() == 0 {
        s
    } else if s[s.len() - 1] == '/' {
        Seq::<char>::empty()
    } else {
        last_segment(s.drop_last()).push(s[s.len() - 1])
    }
}

/// `s` without its final segment and the separator before it.
pub open spec fn parent_of(s: Seq<char>) -> Seq<char> {
    s.subrange(0, s.len() - last_segment(s).len() - 1)
}

/// When no separator occurs at or after `cut`, and `cut` is either the start
/// of `s` or preceded by a separator, the last segment is the tail from `cut`.
pub proof fn lemma_last_segment_subrange(s: Seq<char>, cut: int)
    requires
        0 <= cut <= s.len(),
        cut > 0 ==> s[cut - 1] == '/',
        forall|k: int| cut <= k < s.len() ==> s[k] != '/',
    ensures
        last_segment(s) == s.subrange(cut, s.len() as int),
    decreases s.len(),
{
    if s.len() == cut {
        if cut == 0 {
            assert(last_segment(s) =~= s.subrange(0, 0));
        } else {
            assert(s[s.len() - 1] == '/');
            assert(last_segment(s) =~= s.subrange(cut, s.len() as int));
        }
    } else {
        assert(s[s.len() - 1] != '/');
        lemma_last_segment_subrange(s.drop_last(), cut);
        assert(last_segment(s) =~= s.subrange(cut, s.len() as int));
    }
}

/// The index right after the last separator of `v` (0 when there is none).
pub(crate) fn last_seg_start(v: &Vec<char>) -> (cut: usize)
    ensures
        cut <= v@.len(),
        cut > 0 ==> v@[cut - 1] == '/',
        forall|k: int| cut <= k < v@.len() ==> v@[k] != '/',
{
    let mut i: usize = v.len();
    while i > 0
        invariant
            i <= v@.len(),
            forall|k: int| i <= k < v@.len() ==> v@[k] != '/',
        decreases i,
    {
        if v[i - 1] == '/' {
            return i;
        }
        i = i - 1;
    }
    0
}

/// The final path segment of `s`.
pub fn last_segment_str(s: &str) -> (r: String)
    ensures
        r@ == last_segment(s@),
{
    let v: Vec<char> = chars_of(s);
    let cut: usize = last_seg_start(&v);
    let n: usize = s.unicode_len();
    proof {
        lemma_last_segment_subrange(s@, cut as int);
    }
    s.substring_char(cut, n).to_owned()
}

/// The result of replacing every non-overlapping occurrence of `from` in
/// `s` with `to`, scanning left to right.  When `from` is empty, `s` is
/// returned unchanged.
pub open spec fn replace_all_spec(s: Seq<char>, from: Seq<char>, to: Seq<char>) -> Seq<char>
    decreases s.len(),
{
    if from.len() == 0 || s.len() < from.len() {
        s
    } else if s.subrange(0, from.len() as int) == from {
        to + replace_all_spec(s.skip(from.len() as int), from, to)
    } else {
        seq![s[0]] + replace_all_spec(s.skip(1), from, to)
    }
}

/// Occurrences in a tail of `s` are occurrences in `s`, shifted.
pub proof fn lemma_matches_shift(s: Seq<char>, sub: Seq<char>, j: int, k: int)
    requires
        0 <= j <= s.len(),
        0 <= k,
    ensures
        matches_at(s.skip(j), sub, k) == matches_at(s, sub, j + k),
{
    if k + sub.len() <= s.skip(j).len() {
        assert(s.skip(j).subrange(k, k + sub.len() as int) =~= s.subrange(
            j + k,
            j + k + sub.len() as int,
        ));
    }
}

/// A text without any occurrence of `from` is left unchanged by replacement.
pub proof fn lemma_replace_all_no_match(s: Seq<char>, from: Seq<char>, to: Seq<char>)
    requires
        forall|k: int| !matches_at(s, from, k),
    ensures
        replace_all_spec(s, from, to) == s,
    decreases s.len(),
{
    if from.len() == 0 || s.len() < from.len() {
    } else {
        assert(!matches_at(s, from, 0));
        assert(s.subrange(0, from.len() as int) != from);
        assert forall|k: int| !matches_at(s.skip(1), from, k) by {
            if 0 <= k {
                lemma_matches_shift(s, from, 1, k);
            }
        }
        lemma_replace_all_no_match(s.skip(1), from, to);
        assert(seq![s[0]] + s.skip(1) =~= s);
    }
}

/// Replacement around the first occurrence of `from`: the text up to it is
/// kept, `to` is put in its place, and the rest is replaced recursively.
pub proof fn lemma_replace_all_first_match(s: Seq<char>, from: Seq<char>, to: Seq<char>, m: int)
    requires
        from.len() > 0,
        matches_at(s, from, m),
        forall|k: int| 0 <= k < m ==> !matches_at(s, from, k),
    ensures
        replace_all_spec(s, from, to) == s.subrange(0, m) + to + replace_all_spec(
            s.skip(m + from.len()),
            from,
            to,
        ),
    decreases s.len(),
{
    if m == 0 {
        assert(s.subrange(0, from.len() as int) == from);
        assert(s.subrange(0, 0) + to + replace_all_spec(s.skip(from.len() as int), from, to) =~= to
            + replace_all_spec(s.skip(from.len() as int), from, to));
    } else {
        assert(!matches_at(s, from, 0));
        assert(s.len() >= m + from.len());
        assert(s.subrange(0, from.len() as int) != from);
        lemma_matches_shift(s, from, 1, m - 1);
        assert forall|k: int| 0 <= k < m - 1 implies !matches_at(s.skip(1), from, k) by {
            lemma_matches_shift(s, from, 1, k);
        }
        lemma_replace_all_first_match(s.skip(1), from, to, m - 1);
        assert(s.skip(1).skip(m - 1 + from.len()) =~= s.skip(m + from.len()));
        assert(seq![s[0]] + (s.skip(1).subrange(0, m - 1) + to + replace_all_spec(
            s.skip(m + from.len()),
            from,
            to,
        )) =~= s.subrange(0, m) + to + replace_all_spec(s.skip(m + from.len()), from, to));
    }
}

/// Replaces every non-overlapping occurrence of `from` in `s` with `to`,
/// scanning left to right.
pub fn replace_all(s: &str, from: &str, to: &str) -> (r: String)
    requires
        from@.len() > 0,
    ensures
        r@ == replace_all_spec(s@, from@, to@),
{
    let sv: Vec<char> = chars_of(s);
    let fv: Vec<char> = chars_of(from);
    let n: usize = s.unicode_len();
    let flen: usize = from.unicode_len();
    let mut r: String = String::new();
    let mut pos: usize = 0;
    proof {
        assert(s@.skip(0) =~= s@);
        assert(r@ + replace_all_spec(s@, from@, to@) =~= replace_all_spec(s@, from@, to@));
    }
    loop
        invariant
            sv@ == s@,
            fv@ == from@,
            n == s@.len(),
            flen == from@.len(),
            flen > 0,
            pos <= n,
            replace_all_spec(s@, from@, to@) == r@ + replace_all_spec(
                s@.skip(pos as int),
                from@,
                to@,
            ),
        decreases n - pos,
    {
        let found: Option<usize> = find_from(&sv, &fv, pos);
        match found {
            None => {
                proof {
                    assert forall|k: int| !matches_at(s@.skip(pos as int), from@, k) by {
                        if 0 <= k {
                            lemma_matches_shift(s@, from@, pos as int, k);
                        }
                    }
                    lemma_replace_all_no_match(s@.skip(pos as int), from@, to@);
                }
                let tail: &str = s.substring_char(pos, n);
                r.append(tail);
                proof {
                    assert(s@.subrange(pos as int, n as int) =~= s@.skip(pos as int));
                }
                return r;
            },
            Some(m) => {
                proof {
                    lemma_matches_shift(s@, from@, pos as int, m - pos);
                    assert forall|k: int| 0 <= k < m - pos implies !matches_at(
                        s@.skip(pos as int),
                        from@,
                        k,
                    ) by {
                        lemma_matches_shift(s@, from@, pos as int, k);
                    }
                    lemma_replace_all_first_match(s@.skip(pos as int), from@, to@, m - pos);
                    assert(s@.skip(pos as int).subrange(0, m - pos) =~= s@.subrange(
                        pos as int,
                        m as int,
                    ));
                    assert(s@.skip(pos as int).skip(m - pos + from@.len()) =~= s@.skip(
                        m + from@.len(),
                    ));
                }
                let chunk: &str = s.substring_char(pos, m);
                r.append(chunk);
                r.append(to);
                pos = m + flen;
            },
        }
    }
}

/// The index of the first occurrence of `sub` in `s`, or -1 when there is
/// none.
pub open spec fn first_match(s: Seq<char>, sub: Seq<char>) -> int
    decreases s.len(),
    via first_match_decreases
{
    if s.len() < sub.len() {
        -1
    } else if s.subrange(0, sub.len() as int) == sub {
        0
    } else {
        let r = first_match(s.skip(1), sub);
        if r < 0 {
            -1
        } else {
            r + 1
        }
    }
}

#[via_fn]
proof fn first_match_decreases(s: Seq<char>, sub: Seq<char>) {
    if s.len() >= sub.len() && s.subrange(0, sub.len() as int) != sub {
        if sub.len() == 0 {
            assert(s.subrange(0, 0) =~= sub);
        }
    }
}

/// The first occurrence index is an occurrence, and the earliest one.
pub proof fn lemma_first_match_props(s: Seq<char>, sub: Seq<char>)
    ensures
        ({
            let m = first_match(s, sub);
            &&& m == -1 ==> forall|k: int| !matches_at(s, sub, k)
            &&& m >= 0 ==> m + sub.len() <= s.len() && matches_at(s, sub, m) && (forall|k: int|
                0 <= k < m ==> !matches_at(s, sub, k))
        }),
    decreases s.len(),
{
    let m = first_match(s, sub);
    if s.len() < sub.len() {
        assert(forall|k: int| !matches_at(s, sub, k));
    } else if s.subrange(0, sub.len() as int) == sub {
        assert(matches_at(s, sub, 0));
    } else {
        assert(sub.len() > 0) by {
            if sub.len() == 0 {
                assert(s.subrange(0, 0) =~= sub);
            }
        }
        lemma_first_match_props(s.skip(1), sub);
        let r = first_match(s.skip(1), sub);
        assert(!matches_at(s, sub, 0));
        if r < 0 {
            assert forall|k: int| !matches_at(s, sub, k) by {
                if k >= 1 {
                    lemma_matches_shift(s, sub, 1, k - 1);
                }
            }
        } else {
            lemma_matches_shift(s, sub, 1, r);
            assert forall|k: int| 0 <= k < m implies !matches_at(s, sub, k) by {
                if k >= 1 {
                    lemma_matches_shift(s, sub, 1, k - 1);
                }
            }
        }
    }
}

/// The slices of `s` split after each occurrence of `sep`, each slice
/// keeping the separator that ends it.  An empty `s` has no slices.
pub open spec fn split_inclusive_spec(s: Seq<char>, sep: Seq<char>) -> Seq<Seq<char>>
    decreases s.len(),
    when sep.len() > 0
    via split_inclusive_decreases
{
    if s.len() == 0 {
        Seq::<Seq<char>>::empty()
    } else {
        let m = first_match(s, sep);
        if m < 0 {
            seq![s]
        } else {
            seq![s.take(m + sep.len() as int)] + split_inclusive_spec(
                s.skip(m + sep.len() as int),
                sep,
            )
        }
    }
}

#[via_fn]
proof fn split_inclusive_decreases(s: Seq<char>, sep: Seq<char>) {
    lemma_first_match_props(s, sep);
}

/// Every slice of a split is no longer than the split text.
pub proof fn lemma_split_parts_len(s: Seq<char>, sep: Seq<char>)
    requires
        sep.len() > 0,
    ensures
        forall|k: int|
            0 <= k < split_inclusive_spec(s, sep).len() ==> #[trigger] split_inclusive_spec(
                s,
                sep,
            )[k].len() <= s.len(),
    decreases s.len(),
{
    if s.len() > 0 {
        lemma_first_match_props(s, sep);
        let m = first_match(s, sep);
        if m >= 0 {
            let tail = s.skip(m + sep.len() as int);
            lemma_split_parts_len(tail, sep);
            assert forall|k: int|
                0 <= k < split_inclusive_spec(s, sep).len() implies #[trigger] split_inclusive_spec(
                s,
                sep,
            )[k].len() <= s.len() by {
                if k > 0 {
                    assert(split_inclusive_spec(s, sep)[k] == split_inclusive_spec(tail, sep)[k
                        - 1]);
                }
            }
        }
    }
}

/// The concatenation of all slices, in order.
pub open spec fn concat_all(parts: Seq<Seq<char>>) -> Seq<char>
    decreases parts.len(),
{
    if parts.len() == 0 {
        Seq::<char>::empty()
    } else {
        concat_all(parts.drop_last()) + parts.last()
    }
}

/// Splits `s` after each occurrence of `sep`, keeping the separator at the
/// end of each slice.
pub fn split_inclusive(s: &str, sep: &str) -> (parts: Vec<String>)
    requires
        sep@.len() > 0,
    ensures
        parts.deep_view() == split_inclusive_spec(s@, sep@),
{
    let sv: Vec<char> = chars_of(s);
    let pv: Vec<char> = chars_of(sep);
    let n: usize = s.unicode_len();
    let plen: usize = sep.unicode_len();
    let mut parts: Vec<String> = Vec::new();
    let mut pos: usize = 0;
    proof {
        assert(s@.skip(0) =~= s@);
        assert(parts.deep_view() + split_inclusive_spec(s@, sep@) =~= split_inclusive_spec(
            s@,
            sep@,
        ));
    }
    loop
        invariant
            sv@ == s@,
            pv@ == sep@,
            n == s@.len(),
            plen == sep@.len(),
            plen > 0,
            pos <= n,
            split_inclusive_spec(s@, sep@) == parts.deep_view() + split_inclusive_spec(
                s@.skip(pos as int),
                sep@,
            ),
        decreases n - pos,
    {
        let ghost suffix = s@.skip(pos as int);
        if pos == n {
            proof {
                assert(suffix.len() == 0);
                assert(parts.deep_view() + split_inclusive_spec(suffix, sep@)
                    =~= parts.deep_view());
            }
            return parts;
        }
        let found: Option<usize> = find_from(&sv, &pv, pos);
        proof {
            lemma_first_match_props(suffix, sep@);
        }
        match found {
            None => {
                proof {
                    assert forall|k: int| !matches_at(suffix, sep@, k) by {
                        if 0 <= k {
                            lemma_matches_shift(s@, sep@, pos as int, k);
                        }
                    }
                    assert(first_match(suffix, sep@) == -1) by {
                        if first_match(suffix, sep@) >= 0 {
                            assert(matches_at(suffix, sep@, first_match(suffix, sep@)));
                        }
                    }
                    assert(split_inclusive_spec(suffix, sep@) == seq![suffix]);
                }
                let tail: String = s.substring_char(pos, n).to_owned();
                parts.push(tail);
                proof {
                    assert(tail@ == suffix);
                    assert(parts.deep_view() =~= parts.deep_view().take(
                        parts.deep_view().len() - 1,
                    ) + seq![suffix]);
                }
                return parts;
            },
            Some(m) => {
                let ghost d = m - pos;
                proof {
                    lemma_matches_shift(s@, sep@, pos as int, d);
                    assert(matches_at(suffix, sep@, d));
                    assert forall|k: int| 0 <= k < d implies !matches_at(suffix, sep@, k) by {
                        lemma_matches_shift(s@, sep@, pos as int, k);
                    }
                    let fm = first_match(suffix, sep@);
                    assert(fm >= 0);
                    assert(fm == d) by {
                        if fm < d {
                            assert(!matches_at(suffix, sep@, fm));
                        }
                        if d < fm {
                            assert(!matches_at(suffix, sep@, d));
                        }
                    }
                }
                let end: usize = m + plen;
                let chunk: String = s.substring_char(pos, end).to_owned();
                parts.push(chunk);
                let ghost old_pos = pos;
                pos = end;
                proof {
                    assert(chunk@ =~= suffix.take(d + sep@.len() as int));
                    assert(suffix.skip(d + sep@.len() as int) =~= s@.skip(pos as int));
                    assert(split_inclusive_spec(suffix, sep@) == seq![chunk@]
                        + split_inclusive_spec(s@.skip(pos as int), sep@));
                    assert(parts.deep_view() =~= parts.deep_view().take(
                        parts.deep_view().len() - 1,
                    ) + seq![chunk@]);
                    assert(parts.deep_view() + split_inclusive_spec(s@.skip(pos as int), sep@)
                        =~= (parts.deep_view().take(parts.deep_view().len() - 1) + seq![chunk@])
                        + split_inclusive_spec(s@.skip(pos as int), sep@));
                }
            },
        }
    }
}

/// A slice prepended to some slices concatenates to the slice followed by
/// their concatenation.
proof fn lemma_concat_cons(x: Seq<char>, rest: Seq<Seq<char>>)
    ensures
        concat_all(seq![x] + rest) == x + concat_all(rest),
    decreases rest.len(),
{
    if rest.len() == 0 {
        assert(seq![x] + rest =~= seq![x]);
        assert(seq![x].drop_last() =~= Seq::<Seq<char>>::empty());
        assert(concat_all(seq![x]) == concat_all(Seq::<Seq<char>>::empty()) + x);
        assert(Seq::<char>::empty() + x =~= x);
        assert(x + concat_all(rest) =~= x);
    } else {
        lemma_concat_cons(x, rest.drop_last());
        assert((seq![x] + rest).drop_last() =~= seq![x] + rest.drop_last());
        assert((seq![x] + rest).last() == rest.last());
        assert(concat_all(seq![x] + rest) =~= x + concat_all(rest));
    }
}

/// Joining the slices of a split gives back the split text.
pub proof fn lemma_split_concat(s: Seq<char>, sep: Seq<char>)
    requires
        sep.len() > 0,
    ensures
        concat_all(split_inclusive_spec(s, sep)) == s,
    decreases s.len(),
{
    if s.len() > 0 {
        lemma_first_match_props(s, sep);
        let m = first_match(s, sep);
        if m < 0 {
            assert(seq![s].drop_last() =~= Seq::<Seq<char>>::empty());
            assert(concat_all(seq![s]) == concat_all(Seq::<Seq<char>>::empty()) + s);
            assert(Seq::<char>::empty() + s =~= s);
        } else {
            let head = s.take(m + sep.len() as int);
            let tail = s.skip(m + sep.len() as int);
            lemma_split_concat(tail, sep);
            lemma_concat_cons(head, split_inclusive_spec(tail, sep));
            assert(head + tail =~= s);
        }
    }
}

/// Joins the slices back into one string.
pub fn concat_parts(parts: &Vec<String>) -> (r: String)
    ensures
        r@ == concat_all(parts.deep_view()),
{
    let n: usize = parts.len();
    let mut r: String = String::new();
    let mut i: usize = 0;
    proof {
        assert(parts.deep_view().take(0) =~= Seq::<Seq<char>>::empty());
    }
    while i < n
        invariant
            n == parts@.len(),
            i <= n,
            r@ == concat_all(parts.deep_view().take(i as int)),
        decreases n - i,
    {
        r.append(parts[i].as_str());
        proof {
            assert(parts.deep_view().take(i + 1).drop_last() =~= parts.deep_view().take(
                i as int,
            ));
            assert(parts.deep_view().take(i + 1).last() == parts@[i as int]@);
        }
        i = i + 1;
    }
    proof {
        assert(parts.deep_view().take(n as int) =~= parts.deep_view());
    }
    r
}

/// True when the views of `a` and `b` are the same character sequence.
pub fn str_eq(a: &str, b: &str) -> (r: bool)
    ensures
        r == (a@ == b@),
{
    let av: Vec<char> = chars_of(a);
    let bv: Vec<char> = chars_of(b);
    if av.len() != bv.len() {
        return false;
    }
    let e: bool = window_eq(&av, &bv, 0);
    proof {
        if e {
            assert(a@.subrange(0, a@.len() as int) =~= a@);
        } else {
            assert(a@.subrange(0, b@.len() as int) =~= a@);
        }
    }
    e
}

} // verus!
