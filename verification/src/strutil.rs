//! Character-sequence utilities shared by the parsers and path policies:
//! splitting and joining on a separator, searching, trimming, and decimal
//! digit sequences.

use vstd::prelude::*;

verus! {

/// The parts of `s` between occurrences of `sep`.  An empty sequence has
/// one empty part; `n` separators give `n + 1` parts.
pub open spec fn spec_split(s: Seq<char>, sep: char) -> Seq<Seq<char>>
    decreases s.len(),
{
    if s.len() == 0 {
        seq![Seq::<char>::empty()]
    } else if s[0] == sep {
        seq![Seq::<char>::empty()] + spec_split(s.subrange(1, s.len() as int), sep)
    } else {
        let rest = spec_split(s.subrange(1, s.len() as int), sep);
        seq![seq![s[0]] + rest[0]] + rest.subrange(1, rest.len() as int)
    }
}

pub proof fn lemma_split_len(s: Seq<char>, sep: char)
    ensures
        spec_split(s, sep).len() >= 1,
    decreases s.len(),
{
    if s.len() != 0 {
        lemma_split_len(s.subrange(1, s.len() as int), sep);
    }
}

/// Appending one character extends the last part, or opens a new empty part
/// when the character is the separator.
pub proof fn lemma_split_push(s: Seq<char>, sep: char, c: char)
    ensures
        c == sep ==> spec_split(s.push(c), sep) == spec_split(s, sep).push(
            Seq::<char>::empty(),
        ),
        c != sep ==> spec_split(s.push(c), sep) == spec_split(s, sep).update(
            spec_split(s, sep).len() - 1,
            spec_split(s, sep).last().push(c),
        ),
    decreases s.len(),
{
    reveal_with_fuel(spec_split, 3);
    lemma_split_len(s, sep);
    if s.len() == 0 {
        assert(s =~= Seq::<char>::empty());
        assert(s.push(c) =~= seq![c]);
        assert(s.push(c).subrange(1, 1) =~= Seq::<char>::empty());
        if c == sep {
            assert(spec_split(s.push(c), sep) =~~= spec_split(s, sep).push(
                Seq::<char>::empty(),
            ));
        } else {
            assert(seq![c] + spec_split(Seq::<char>::empty(), sep)[0] =~= seq![c]);
            assert(spec_split(s, sep).last().push(c) =~= seq![c]);
            assert(spec_split(s.push(c), sep) =~~= spec_split(s, sep).update(
                0,
                spec_split(s, sep).last().push(c),
            ));
        }
    } else {
        let tail = s.subrange(1, s.len() as int);
        lemma_split_len(tail, sep);
        lemma_split_push(tail, sep, c);
        assert(s.push(c).subrange(1, s.push(c).len() as int) =~= tail.push(c));
        assert(s.push(c)[0] == s[0]);
        let st = spec_split(tail, sep);
        let stc = spec_split(tail.push(c), sep);
        if s[0] == sep {
            assert(spec_split(s, sep) =~= seq![Seq::<char>::empty()] + st);
            assert(spec_split(s.push(c), sep) =~= seq![Seq::<char>::empty()] + stc);
            assert(spec_split(s, sep).last() == st.last());
            if c == sep {
                assert(spec_split(s.push(c), sep) =~~= spec_split(s, sep).push(
                    Seq::<char>::empty(),
                ));
            } else {
                assert(spec_split(s.push(c), sep) =~~= spec_split(s, sep).update(
                    spec_split(s, sep).len() - 1,
                    spec_split(s, sep).last().push(c),
                ));
            }
        } else {
            assert(spec_split(s, sep) =~= seq![seq![s[0]] + st[0]] + st.subrange(
                1,
                st.len() as int,
            ));
            assert(spec_split(s.push(c), sep) =~= seq![seq![s[0]] + stc[0]] + stc.subrange(
                1,
                stc.len() as int,
            ));
            if st.len() == 1 {
                assert(spec_split(s, sep).last() == seq![s[0]] + st[0]);
            } else {
                assert(spec_split(s, sep).last() == st.last());
            }
            if c == sep {
                assert(stc[0] == st[0]);
                assert(spec_split(s.push(c), sep) =~~= spec_split(s, sep).push(
                    Seq::<char>::empty(),
                ));
            } else {
                if st.len() == 1 {
                    assert(stc[0] == st[0].push(c));
                    assert(seq![s[0]] + st[0].push(c) =~= (seq![s[0]] + st[0]).push(c));
                    assert(spec_split(s.push(c), sep) =~~= spec_split(s, sep).update(
                        spec_split(s, sep).len() - 1,
                        spec_split(s, sep).last().push(c),
                    ));
                } else {
                    assert(stc[0] == st[0]);
                    assert(spec_split(s.push(c), sep) =~~= spec_split(s, sep).update(
                        spec_split(s, sep).len() - 1,
                        spec_split(s, sep).last().push(c),
                    ));
                }
            }
        }
    }
}

/// Split `s` at every occurrence of `sep`.
pub fn split_str(s: &str, sep: char) -> (parts: Vec<String>)
    ensures
        parts@.map_values(|p: String| p@) == spec_split(s@, sep),
{
    let len = s.unicode_len();
    let mut parts: Vec<String> = Vec::new();
    let mut cur = String::new();
    let mut i: usize = 0;
    proof {
        assert(s@.subrange(0, 0) =~= Seq::<char>::empty());
        assert(parts@.map_values(|p: String| p@) + seq![cur@] =~= spec_split(
            s@.subrange(0, 0),
            sep,
        ));
    }
    while i < len
        invariant
            i <= len,
            len == s@.len(),
            parts@.map_values(|p: String| p@) + seq![cur@] == spec_split(
                s@.subrange(0, i as int),
                sep,
            ),
        decreases len - i,
    {
        let c = s.get_char(i);
        proof {
            lemma_split_push(s@.subrange(0, i as int), sep, c);
            assert(s@.subrange(0, i as int).push(c) =~= s@.subrange(0, i as int + 1));
            lemma_split_len(s@.subrange(0, i as int), sep);
        }
        if c == sep {
            parts.push(cur);
            cur = String::new();
            proof {
                assert(parts@.map_values(|p: String| p@) + seq![cur@] =~= spec_split(
                    s@.subrange(0, i as int),
                    sep,
                ).push(Seq::<char>::empty()));
            }
        } else {
            let piece = s.substring_char(i, i + 1);
            cur.append(piece);
            proof {
                let prev = spec_split(s@.subrange(0, i as int), sep);
                assert(piece@ =~= seq![c]);
                assert(cur@ == prev.last().push(c));
                assert(parts@.map_values(|p: String| p@) + seq![cur@] =~= prev.update(
                    prev.len() - 1,
                    prev.last().push(c),
                ));
            }
        }
        i = i + 1;
    }
    proof {
        assert(s@.subrange(0, len as int) =~= s@);
    }
    let ghost done = parts@.map_values(|p: String| p@);
    parts.push(cur);
    proof {
        assert(parts@.map_values(|p: String| p@) =~= done + seq![cur@]);
    }
    parts
}

/// The parts joined back with `sep` between them; inverse of `spec_split`.
pub open spec fn spec_join(parts: Seq<Seq<char>>, sep: char) -> Seq<char>
    decreases parts.len(),
{
    if parts.len() == 0 {
        Seq::<char>::empty()
    } else if parts.len() == 1 {
        parts[0]
    } else {
        parts[0] + seq![sep] + spec_join(parts.subrange(1, parts.len() as int), sep)
    }
}

/// Join the parts with `sep` between them.
pub fn join_strings(parts: &Vec<String>, sep: &str) -> (r: String)
    requires
        sep@.len() == 1,
    ensures
        r@ == spec_join(parts@.map_values(|p: String| p@), sep@[0]),
{
    let mut r = String::new();
    let mut i: usize = 0;
    while i < parts.len()
        invariant
            i <= parts@.len(),
            sep@.len() == 1,
            r@ == spec_join(parts@.subrange(0, i as int).map_values(|p: String| p@), sep@[0]),
            i == 0 ==> r@.len() == 0,
        decreases parts@.len() - i,
    {
        if i > 0 {
            r.append(sep);
        }
        r.append(parts[i].as_str());
        proof {
            let views = parts@.map_values(|p: String| p@);
            lemma_join_push(views.subrange(0, i as int), views[i as int], sep@[0]);
            assert(parts@.subrange(0, i as int).map_values(|p: String| p@) =~= views.subrange(
                0,
                i as int,
            ));
            assert(parts@.subrange(0, i as int + 1).map_values(|p: String| p@) =~= views.subrange(
                0,
                i as int,
            ).push(views[i as int]));
            if i == 0 {
                assert(r@ =~= spec_join(views.subrange(0, 1), sep@[0]));
            }
        }
        i = i + 1;
    }
    proof {
        assert(parts@.subrange(0, parts@.len() as int) =~= parts@);
    }
    r
}

pub proof fn lemma_join_push(parts: Seq<Seq<char>>, last: Seq<char>, sep: char)
    ensures
        parts.len() == 0 ==> spec_join(parts.push(last), sep) == last,
        parts.len() > 0 ==> spec_join(parts.push(last), sep) == spec_join(parts, sep)
            + seq![sep] + last,
    decreases parts.len(),
{
    reveal_with_fuel(spec_join, 3);
    if parts.len() == 0 {
        assert(spec_join(parts.push(last), sep) == parts.push(last)[0]);
        assert(parts.push(last)[0] == last);
    } else if parts.len() == 1 {
        let p = parts.push(last);
        assert(p.subrange(1, 2) =~= seq![last]);
        assert(spec_join(p, sep) == p[0] + seq![sep] + last);
    } else {
        let p = parts.push(last);
        lemma_join_push(parts.subrange(1, parts.len() as int), last, sep);
        assert(p.subrange(1, p.len() as int) =~= parts.subrange(1, parts.len() as int).push(
            last,
        ));
        assert(spec_join(p, sep) == p[0] + seq![sep] + spec_join(
            p.subrange(1, p.len() as int),
            sep,
        ));
        assert(p[0] + seq![sep] + (spec_join(parts.subrange(1, parts.len() as int), sep)
            + seq![sep] + last) =~= (parts[0] + seq![sep] + spec_join(
            parts.subrange(1, parts.len() as int),
            sep,
        )) + seq![sep] + last);
    }
}

/// Whether `c` counts as blank space when a specifier is trimmed.
pub open spec fn spec_is_space(c: char) -> bool {
    c == ' ' || c == '\t' || c == '\n' || c == '\r'
}

/// Whether `c` counts as blank space.
pub fn is_space_char(c: char) -> (r: bool)
    ensures
        r == spec_is_space(c),
{
    c == ' ' || c == '\t' || c == '\n' || c == '\r'
}

/// `s` with leading and trailing blank space removed.
pub open spec fn spec_trim(s: Seq<char>) -> Seq<char>
    decreases s.len(),
{
    if s.len() == 0 {
        s
    } else if spec_is_space(s[0]) {
        spec_trim(s.subrange(1, s.len() as int))
    } else if spec_is_space(s.last()) {
        spec_trim(s.subrange(0, s.len() - 1))
    } else {
        s
    }
}

/// Remove leading and trailing blank space.
pub fn trim_str(s: &str) -> (r: String)
    ensures
        r@ == spec_trim(s@),
{
    let len = s.unicode_len();
    let mut lo: usize = 0;
    proof {
        assert(s@.subrange(0, len as int) =~= s@);
    }
    while lo < len && is_space_char(s.get_char(lo))
        invariant
            lo <= len,
            len == s@.len(),
            spec_trim(s@) == spec_trim(s@.subrange(lo as int, len as int)),
        decreases len - lo,
    {
        proof {
            assert(s@.subrange(lo as int, len as int).subrange(
                1,
                s@.subrange(lo as int, len as int).len() as int,
            ) =~= s@.subrange(lo as int + 1, len as int));
        }
        lo = lo + 1;
    }
    let mut hi: usize = len;
    while hi > lo && is_space_char(s.get_char(hi - 1))
        invariant
            lo <= hi <= len,
            len == s@.len(),
            lo < len ==> !spec_is_space(s@[lo as int]),
            spec_trim(s@) == spec_trim(s@.subrange(lo as int, hi as int)),
        decreases hi,
    {
        proof {
            let cur = s@.subrange(lo as int, hi as int);
            assert(cur[0] == s@[lo as int]);
            assert(cur.last() == s@[hi as int - 1]);
            assert(cur.subrange(0, cur.len() - 1) =~= s@.subrange(lo as int, hi as int - 1));
        }
        hi = hi - 1;
    }
    let r = s.substring_char(lo, hi);
    proof {
        let cur = s@.subrange(lo as int, hi as int);
        if cur.len() > 0 {
            assert(!spec_is_space(cur[0]));
            assert(!spec_is_space(cur.last()));
        }
    }
    r.to_owned()
}

/// `s` with every leading occurrence of `c` removed.
pub open spec fn spec_strip_leading(s: Seq<char>, c: char) -> Seq<char>
    decreases s.len(),
{
    if s.len() > 0 && s[0] == c {
        spec_strip_leading(s.subrange(1, s.len() as int), c)
    } else {
        s
    }
}

/// Remove every leading occurrence of `c`.
pub fn strip_leading(s: &str, c: char) -> (r: String)
    ensures
        r@ == spec_strip_leading(s@, c),
{
    let len = s.unicode_len();
    let mut lo: usize = 0;
    proof {
        assert(s@.subrange(0, len as int) =~= s@);
    }
    while lo < len && s.get_char(lo) == c
        invariant
            lo <= len,
            len == s@.len(),
            spec_strip_leading(s@, c) == spec_strip_leading(s@.subrange(lo as int, len as int), c),
        decreases len - lo,
    {
        proof {
            assert(s@.subrange(lo as int, len as int).subrange(
                1,
                s@.subrange(lo as int, len as int).len() as int,
            ) =~= s@.subrange(lo as int + 1, len as int));
        }
        lo = lo + 1;
    }
    let r = s.substring_char(lo, len);
    r.to_owned()
}

/// Whether `sub` occurs in `s` starting at some offset.
pub open spec fn spec_contains_seq(s: Seq<char>, sub: Seq<char>) -> bool {
    exists|k: int|
        0 <= k <= s.len() - sub.len() && #[trigger] s.subrange(k, k + sub.len() as int) == sub
}

/// Whether `sub` occurs anywhere in `s`.
pub fn contains_str(s: &str, sub: &str) -> (r: bool)
    ensures
        r == spec_contains_seq(s@, sub@),
{
    let n = s.unicode_len();
    let m = sub.unicode_len();
    if m > n {
        return false;
    }
    if m == 0 {
        proof {
            assert(s@.subrange(0, 0 + sub@.len() as int) =~= sub@);
        }
        return true;
    }
    let mut k: usize = 0;
    while k <= n - m
        invariant
            1 <= m <= n,
            n == s@.len(),
            m == sub@.len(),
            k <= n - m + 1,
            forall|j: int|
                0 <= j < k ==> #[trigger] s@.subrange(j, j + sub@.len() as int) != sub@,
        decreases n - m + 1 - k,
    {
        let piece = s.substring_char(k, k + m);
        if str_eq(piece, sub) {
            proof {
                assert(s@.subrange(k as int, k as int + sub@.len() as int) == sub@);
            }
            return true;
        }
        k = k + 1;
    }
    proof {
        assert(forall|j: int|
            0 <= j <= s@.len() - sub@.len() ==> #[trigger] s@.subrange(j, j + sub@.len() as int)
                != sub@);
    }
    false
}

/// Character-wise equality of two string slices.
pub fn str_eq(a: &str, b: &str) -> (r: bool)
    ensures
        r == (a@ == b@),
{
    let a_owned = a.to_owned();
    let b_owned = b.to_owned();
    a_owned.eq(&b_owned)
}

/// Whether `s` begins with `prefix`.
pub open spec fn spec_starts_with(s: Seq<char>, prefix: Seq<char>) -> bool {
    s.len() >= prefix.len() && s.subrange(0, prefix.len() as int) == prefix
}

/// Whether `s` begins with `prefix`.
pub fn starts_with_str(s: &str, prefix: &str) -> (r: bool)
    ensures
        r == spec_starts_with(s@, prefix@),
{
    let n = s.unicode_len();
    let m = prefix.unicode_len();
    if m > n {
        return false;
    }
    let piece = s.substring_char(0, m);
    str_eq(piece, prefix)
}

/// Whether `s` ends with `suffix`.
pub open spec fn spec_ends_with(s: Seq<char>, suffix: Seq<char>) -> bool {
    s.len() >= suffix.len() && s.subrange(s.len() - suffix.len(), s.len() as int) == suffix
}

/// Whether `s` ends with `suffix`.
pub fn ends_with_str(s: &str, suffix: &str) -> (r: bool)
    ensures
        r == spec_ends_with(s@, suffix@),
{
    let n = s.unicode_len();
    let m = suffix.unicode_len();
    if m > n {
        return false;
    }
    let piece = s.substring_char(n - m, n);
    str_eq(piece, suffix)
}

/// The position of the first occurrence of `c` in `s`, if any.
pub fn find_char(s: &str, c: char) -> (r: Option<usize>)
    ensures
        match r {
            Some(i) => i < s@.len() && s@[i as int] == c && forall|j: int|
                0 <= j < i ==> s@[j] != c,
            None => forall|j: int| 0 <= j < s@.len() ==> s@[j] != c,
        },
{
    let len = s.unicode_len();
    let mut i: usize = 0;
    while i < len
        invariant
            i <= len,
            len == s@.len(),
            forall|j: int| 0 <= j < i ==> s@[j] != c,
        decreases len - i,
    {
        if s.get_char(i) == c {
            return Some(i);
        }
        i = i + 1;
    }
    None
}

/// The position of the last occurrence of `c` in `s`, if any.
pub fn rfind_char(s: &str, c: char) -> (r: Option<usize>)
    ensures
        match r {
            Some(i) => i < s@.len() && s@[i as int] == c && forall|j: int|
                i < j < s@.len() ==> s@[j] != c,
            None => forall|j: int| 0 <= j < s@.len() ==> s@[j] != c,
        },
{
    let len = s.unicode_len();
    let mut i: usize = len;
    while i > 0
        invariant
            i <= len,
            len == s@.len(),
            forall|j: int| i <= j < s@.len() ==> s@[j] != c,
        decreases i,
    {
        if s.get_char(i - 1) == c {
            return Some(i - 1);
        }
        i = i - 1;
    }
    None
}

/// `s` with every occurrence of `from` replaced by `to`.
pub open spec fn spec_replace(s: Seq<char>, from: char, to: char) -> Seq<char> {
    s.map_values(|c: char| if c == from { to } else { c })
}

/// Replace every occurrence of `from` with `to`.
pub fn replace_char(s: &str, from: char, to: &str) -> (r: String)
    requires
        to@.len() == 1,
    ensures
        r@ == spec_replace(s@, from, to@[0]),
{
    let len = s.unicode_len();
    let mut r = String::new();
    let mut i: usize = 0;
    proof {
        assert(r@ =~= s@.subrange(0, 0).map_values(
            |c: char| if c == from { to@[0] } else { c },
        ));
    }
    while i < len
        invariant
            i <= len,
            len == s@.len(),
            to@.len() == 1,
            r@ == s@.subrange(0, i as int).map_values(
                |c: char| if c == from { to@[0] } else { c },
            ),
        decreases len - i,
    {
        let c = s.get_char(i);
        if c == from {
            r.append(to);
        } else {
            let piece = s.substring_char(i, i + 1);
            proof {
                assert(piece@ =~= seq![c]);
            }
            r.append(piece);
        }
        proof {
            assert(s@.subrange(0, i as int + 1) =~= s@.subrange(0, i as int).push(s@[i as int]));
            assert(r@ =~= s@.subrange(0, i as int + 1).map_values(
                |c: char| if c == from { to@[0] } else { c },
            ));
        }
        i = i + 1;
    }
    proof {
        assert(s@.subrange(0, len as int) =~= s@);
    }
    r
}

/// Whether `c` is a decimal digit.
pub open spec fn spec_is_digit(c: char) -> bool {
    '0' <= c && c <= '9'
}

/// Whether every character of `s` is a decimal digit.
pub open spec fn spec_all_digits(s: Seq<char>) -> bool {
    forall|j: int| 0 <= j < s.len() ==> spec_is_digit(#[trigger] s[j])
}

/// Whether `c` is a decimal digit.
pub fn is_digit(c: char) -> (r: bool)
    ensures
        r == spec_is_digit(c),
{
    '0' <= c && c <= '9'
}

/// The numeric value of a sequence of decimal digits, most significant
/// first.
pub open spec fn spec_digits_value(s: Seq<char>) -> nat
    decreases s.len(),
{
    if s.len() == 0 {
        0
    } else {
        spec_digits_value(s.subrange(0, s.len() - 1)) * 10 + ((s.last() as int - '0' as int)
            as nat)
    }
}

/// Parse a non-empty all-digit sequence as a `u32`; `None` when the value
/// does not fit.
pub fn parse_u32_digits(s: &str) -> (r: Option<u32>)
    requires
        s@.len() > 0,
        spec_all_digits(s@),
    ensures
        match r {
            Some(v) => v == spec_digits_value(s@) && spec_digits_value(s@) <= u32::MAX,
            None => spec_digits_value(s@) > u32::MAX,
        },
{
    let len = s.unicode_len();
    let mut acc: u32 = 0;
    let mut i: usize = 0;
    proof {
        assert(s@.subrange(0, 0) =~= Seq::<char>::empty());
    }
    while i < len
        invariant
            i <= len,
            len == s@.len(),
            spec_all_digits(s@),
            acc == spec_digits_value(s@.subrange(0, i as int)),
        decreases len - i,
    {
        let c = s.get_char(i);
        let d = (c as u32) - ('0' as u32);
        proof {
            assert(spec_is_digit(s@[i as int]));
            assert(d <= 9);
            assert(s@.subrange(0, i as int + 1).subrange(0, i as int) =~= s@.subrange(
                0,
                i as int,
            ));
            assert(s@.subrange(0, i as int + 1).last() == s@[i as int]);
        }
        if acc > (u32::MAX - d) / 10 {
            proof {
                let pre = s@.subrange(0, i as int + 1);
                assert(spec_digits_value(pre) == acc * 10 + d);
                lemma_digits_value_monotone(s@, i as int + 1);
            }
            return None;
        }
        acc = acc * 10 + d;
        i = i + 1;
    }
    proof {
        assert(s@.subrange(0, len as int) =~= s@);
    }
    Some(acc)
}

/// A digit sequence's value never shrinks as more digits follow.
proof fn lemma_digits_value_monotone(s: Seq<char>, i: int)
    requires
        0 <= i <= s.len(),
        spec_all_digits(s),
    ensures
        spec_digits_value(s.subrange(0, i)) <= spec_digits_value(s),
    decreases s.len() - i,
{
    if i < s.len() {
        lemma_digits_value_monotone(s, i + 1);
        let shorter = s.subrange(0, i);
        let longer = s.subrange(0, i + 1);
        assert(longer.subrange(0, longer.len() - 1) =~= shorter);
        assert(spec_digits_value(longer) == spec_digits_value(shorter) * 10 + (longer.last()
            as nat - '0' as nat));
    } else {
        assert(s.subrange(0, i) =~= s);
    }
}


/// The position of the first occurrence of `needle` in `s`, if any.
pub fn find_sub(s: &str, needle: &str) -> (r: Option<usize>)
    requires
        needle@.len() > 0,
    ensures
        match r {
            Some(i) => i + needle@.len() <= s@.len() && s@.subrange(
                i as int,
                i as int + needle@.len() as int,
            ) == needle@ && forall|j: int|
                0 <= j < i ==> #[trigger] s@.subrange(j, j + needle@.len() as int) != needle@,
            None => forall|j: int|
                0 <= j <= s@.len() - needle@.len() ==> #[trigger] s@.subrange(
                    j,
                    j + needle@.len() as int,
                ) != needle@,
        },
{
    let n = s.unicode_len();
    let m = needle.unicode_len();
    if m > n {
        return None;
    }
    let mut k: usize = 0;
    while k <= n - m
        invariant
            1 <= m <= n,
            n == s@.len(),
            m == needle@.len(),
            k <= n - m + 1,
            forall|j: int|
                0 <= j < k ==> #[trigger] s@.subrange(j, j + needle@.len() as int) != needle@,
        decreases n - m + 1 - k,
    {
        let piece = s.substring_char(k, k + m);
        if str_eq(piece, needle) {
            proof {
                assert(s@.subrange(k as int, k as int + needle@.len() as int) == needle@);
            }
            return Some(k);
        }
        k = k + 1;
    }
    None
}

/// Replace the first occurrence of `needle` with `replacement`; without
/// an occurrence the text is returned unchanged.
pub fn replace_first(s: &str, needle: &str, replacement: &str) -> (r: String)
    requires
        needle@.len() > 0,
    ensures
        (exists|j: int|
            0 <= j <= s@.len() - needle@.len() && #[trigger] s@.subrange(
                j,
                j + needle@.len() as int,
            ) == needle@) ==> exists|i: int|
            {
                &&& 0 <= i <= s@.len() - needle@.len()
                &&& #[trigger] s@.subrange(i, i + needle@.len() as int) == needle@
                &&& forall|j: int|
                    0 <= j < i ==> #[trigger] s@.subrange(j, j + needle@.len() as int) != needle@
                &&& r@ == s@.subrange(0, i) + replacement@ + s@.subrange(
                    i + needle@.len(),
                    s@.len() as int,
                )
            },
        !(exists|j: int|
            0 <= j <= s@.len() - needle@.len() && #[trigger] s@.subrange(
                j,
                j + needle@.len() as int,
            ) == needle@) ==> r@ == s@,
{
    let n = s.unicode_len();
    let m = needle.unicode_len();
    match find_sub(s, needle) {
        Some(i) => {
            let mut r = s.substring_char(0, i).to_owned();
            r.append(replacement);
            r.append(s.substring_char(i + m, n));
            proof {
                assert(s@.subrange(i as int, i as int + needle@.len() as int) == needle@);
            }
            r
        },
        None => s.to_owned(),
    }
}

} // verus!
