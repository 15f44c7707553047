//! Runtime version specifiers: parsing, matching a specifier against
//! published versions, ordering, and picking the newest match.

use vstd::prelude::*;
use crate::strutil::{
    spec_split, spec_trim, spec_strip_leading, spec_all_digits, spec_digits_value, split_str,
    trim_str, strip_leading, parse_u32_digits, is_digit, lemma_split_len,
};

verus! {

/// A version specifier such as `23`, `23.5` or `22.1.0`: a major number
/// with optional minor and patch numbers.
#[derive(Debug, Clone, Copy, PartialEq, Eq)]
pub struct ParsedVersion {
    pub major: u32,
    pub minor: Option<u32>,
    pub patch: Option<u32>,
}

/// Why a version specifier was rejected.
#[derive(Debug, Clone, Copy, PartialEq, Eq, Structural)]
pub enum VersionError {
    /// More than three dot-separated parts.
    TooManyParts,
    /// A part that is empty, not all digits, or too large.
    InvalidNumber,
    /// No published version matches the specifier.
    NoMatchingVersion,
}

impl ParsedVersion {
    pub fn new(major: u32, minor: Option<u32>, patch: Option<u32>) -> (r: Self)
        ensures
            r.major == major,
            r.minor == minor,
            r.patch == patch,
    {
        Self { major, minor, patch }
    }

    /// Whether a specifier accepts a concrete version: every component the
    /// specifier pins must be present in the other and equal.
    pub open spec fn spec_matches(self, other: ParsedVersion) -> bool {
        &&& self.major == other.major
        &&& match self.minor {
            Some(sm) => match other.minor {
                Some(om) => sm == om,
                None => false,
            },
            None => true,
        }
        &&& match self.patch {
            Some(sp) => match other.patch {
                Some(op) => sp == op,
                None => false,
            },
            None => true,
        }
    }

    /// Whether this specifier accepts `other`.
    pub fn matches(&self, other: &ParsedVersion) -> (r: bool)
        ensures
            r == self.spec_matches(*other),
    {
        if self.major != other.major {
            return false;
        }
        if let Some(self_minor) = self.minor {
            match other.minor {
                Some(other_minor) => {
                    if self_minor != other_minor {
                        return false;
                    }
                },
                None => {
                    return false;
                },
            }
        }
        if let Some(self_patch) = self.patch {
            match other.patch {
                Some(other_patch) => {
                    if self_patch != other_patch {
                        return false;
                    }
                },
                None => {
                    return false;
                },
            }
        }
        true
    }
}

/// Order on optional components: absent sorts before present.
pub open spec fn spec_opt_cmp(a: Option<u32>, b: Option<u32>) -> core::cmp::Ordering {
    match (a, b) {
        (Some(x), Some(y)) => if x < y {
            core::cmp::Ordering::Less
        } else if x > y {
            core::cmp::Ordering::Greater
        } else {
            core::cmp::Ordering::Equal
        },
        (Some(_), None) => core::cmp::Ordering::Greater,
        (None, Some(_)) => core::cmp::Ordering::Less,
        (None, None) => core::cmp::Ordering::Equal,
    }
}

/// Lexicographic order on (major, minor, patch).
pub open spec fn spec_version_cmp(a: ParsedVersion, b: ParsedVersion) -> core::cmp::Ordering {
    if a.major < b.major {
        core::cmp::Ordering::Less
    } else if a.major > b.major {
        core::cmp::Ordering::Greater
    } else if spec_opt_cmp(a.minor, b.minor) != core::cmp::Ordering::Equal {
        spec_opt_cmp(a.minor, b.minor)
    } else {
        spec_opt_cmp(a.patch, b.patch)
    }
}

impl PartialOrd for ParsedVersion {
    fn partial_cmp(&self, other: &Self) -> (r: Option<core::cmp::Ordering>)
        ensures
            r == Some(spec_version_cmp(*self, *other)),
    {
        if self.major < other.major {
            return Some(core::cmp::Ordering::Less);
        }
        if self.major > other.major {
            return Some(core::cmp::Ordering::Greater);
        }
        match (self.minor, other.minor) {
            (Some(a), Some(b)) => {
                if a < b {
                    return Some(core::cmp::Ordering::Less);
                }
                if a > b {
                    return Some(core::cmp::Ordering::Greater);
                }
            },
            (Some(_), None) => {
                return Some(core::cmp::Ordering::Greater);
            },
            (None, Some(_)) => {
                return Some(core::cmp::Ordering::Less);
            },
            (None, None) => {},
        }
        match (self.patch, other.patch) {
            (Some(a), Some(b)) => {
                if a < b {
                    Some(core::cmp::Ordering::Less)
                } else if a > b {
                    Some(core::cmp::Ordering::Greater)
                } else {
                    Some(core::cmp::Ordering::Equal)
                }
            },
            (Some(_), None) => Some(core::cmp::Ordering::Greater),
            (None, Some(_)) => Some(core::cmp::Ordering::Less),
            (None, None) => Some(core::cmp::Ordering::Equal),
        }
    }
}

impl vstd::std_specs::cmp::PartialOrdSpecImpl for ParsedVersion {
    open spec fn obeys_partial_cmp_spec() -> bool {
        true
    }

    open spec fn partial_cmp_spec(&self, other: &Self) -> Option<core::cmp::Ordering> {
        Some(spec_version_cmp(*self, *other))
    }
}

/// A specifier with blank space trimmed and leading `v`s removed.
pub open spec fn spec_cleaned(s: Seq<char>) -> Seq<char> {
    spec_strip_leading(spec_trim(s), 'v')
}

/// Whether one dot-separated part is a well-formed number that fits.
pub open spec fn spec_part_ok(p: Seq<char>) -> bool {
    p.len() > 0 && spec_all_digits(p) && spec_digits_value(p) <= u32::MAX
}

/// The parsed form of a specifier, if it is well formed: one to three
/// dot-separated numeric parts, after cleaning.
pub open spec fn spec_parse_version(s: Seq<char>) -> Option<ParsedVersion> {
    let parts = spec_split(spec_cleaned(s), '.');
    if 1 <= parts.len() <= 3 && (forall|i: int| 0 <= i < parts.len() ==> spec_part_ok(#[trigger] parts[i])) {
        Some(ParsedVersion {
            major: spec_digits_value(parts[0]) as u32,
            minor: if parts.len() >= 2 {
                Some(spec_digits_value(parts[1]) as u32)
            } else {
                None
            },
            patch: if parts.len() >= 3 {
                Some(spec_digits_value(parts[2]) as u32)
            } else {
                None
            },
        })
    } else {
        None
    }
}

/// Check one dot-separated part and parse its value.
fn parse_numeric_part(p: &str) -> (r: Option<u32>)
    ensures
        r matches Some(v) ==> spec_part_ok(p@) && v == spec_digits_value(p@),
        r is None ==> !spec_part_ok(p@),
{
    let len = p.unicode_len();
    if len == 0 {
        return None;
    }
    let mut i: usize = 0;
    while i < len
        invariant
            i <= len,
            len == p@.len(),
            forall|j: int| 0 <= j < i ==> crate::strutil::spec_is_digit(#[trigger] p@[j]),
        decreases len - i,
    {
        if !is_digit(p.get_char(i)) {
            return None;
        }
        i = i + 1;
    }
    parse_u32_digits(p)
}

/// Parse a version specifier such as `23`, `23.5` or `v22.1.0`.
///
/// Returns `Ok` exactly when the cleaned specifier consists of one to
/// three dot-separated parts, each a non-empty digit string whose value
/// fits in 32 bits.
pub fn parse_version_spec(spec_str: &str) -> (r: Result<ParsedVersion, VersionError>)
    ensures
        match r {
            Ok(v) => spec_parse_version(spec_str@) == Some(v),
            Err(e) => spec_parse_version(spec_str@) is None && e != VersionError::NoMatchingVersion
                && (e == VersionError::TooManyParts <==> spec_split(
                spec_cleaned(spec_str@),
                '.',
            ).len() > 3),
        },
{
    let trimmed = trim_str(spec_str);
    let cleaned = strip_leading(trimmed.as_str(), 'v');
    let parts = split_str(cleaned.as_str(), '.');
    let ghost sparts = spec_split(spec_cleaned(spec_str@), '.');
    proof {
        assert(parts@.map_values(|p: String| p@) == sparts);
        assert(parts@.len() == sparts.len());
        lemma_split_len(spec_cleaned(spec_str@), '.');
    }
    if parts.len() > 3 {
        return Err(VersionError::TooManyParts);
    }
    proof {
        assert(parts@.map_values(|p: String| p@)[0] == parts@[0]@);
    }
    let major = match parse_numeric_part(parts[0].as_str()) {
        Some(v) => v,
        None => {
            return Err(VersionError::InvalidNumber);
        },
    };
    let minor = if parts.len() >= 2 {
        proof {
            assert(parts@.map_values(|p: String| p@)[1] == parts@[1]@);
        }
        match parse_numeric_part(parts[1].as_str()) {
            Some(v) => Some(v),
            None => {
                return Err(VersionError::InvalidNumber);
            },
        }
    } else {
        None
    };
    let patch = if parts.len() >= 3 {
        proof {
            assert(parts@.map_values(|p: String| p@)[2] == parts@[2]@);
        }
        match parse_numeric_part(parts[2].as_str()) {
            Some(v) => Some(v),
            None => {
                return Err(VersionError::InvalidNumber);
            },
        }
    } else {
        None
    };
    Ok(ParsedVersion { major, minor, patch })
}

/// Clean a raw version specifier read from a version file: trim blank
/// space and drop leading `v`s.
pub fn normalize_node_version_spec(raw: &str) -> (r: String)
    ensures
        r@ == spec_cleaned(raw@),
{
    let trimmed = trim_str(raw);
    strip_leading(trimmed.as_str(), 'v')
}

/// Whether the cleaned specifier already names a full `a.b.c` version:
/// exactly three dot-separated parts, all digits.
pub open spec fn spec_is_full_version(s: Seq<char>) -> bool {
    let parts = spec_split(spec_cleaned(s), '.');
    parts.len() == 3 && (forall|i: int|
        0 <= i < parts.len() ==> spec_all_digits(#[trigger] parts[i]))
}

/// The cleaned specifier, when it already names a full `a.b.c` version;
/// `None` when it still needs resolving against the published index.
pub fn parse_full_version_spec(spec_str: &str) -> (r: Option<String>)
    ensures
        match r {
            Some(v) => spec_is_full_version(spec_str@) && v@ == spec_cleaned(spec_str@),
            None => !spec_is_full_version(spec_str@),
        },
{
    let trimmed = trim_str(spec_str);
    let cleaned = strip_leading(trimmed.as_str(), 'v');
    let parts = split_str(cleaned.as_str(), '.');
    let ghost sparts = spec_split(spec_cleaned(spec_str@), '.');
    proof {
        assert(parts@.map_values(|p: String| p@) == sparts);
    }
    if parts.len() != 3 {
        return None;
    }
    let mut k: usize = 0;
    while k < 3
        invariant
            k <= 3,
            parts@.len() == 3,
            sparts.len() == 3,
            sparts == spec_split(spec_cleaned(spec_str@), '.'),
            parts@.map_values(|p: String| p@) == sparts,
            forall|i: int| 0 <= i < k ==> spec_all_digits(#[trigger] sparts[i]),
        decreases 3 - k,
    {
        proof {
            assert(sparts[k as int] == parts@.map_values(|p: String| p@)[k as int]);
        }
        let plen = parts[k].as_str().unicode_len();
        let mut j: usize = 0;
        while j < plen
            invariant
                j <= plen,
                k < 3,
                parts@.len() == 3,
                sparts.len() == 3,
                sparts == spec_split(spec_cleaned(spec_str@), '.'),
                parts@.map_values(|p: String| p@) == sparts,
                plen == sparts[k as int].len(),
                parts@[k as int]@ == sparts[k as int],
                forall|i: int|
                    0 <= i < j ==> crate::strutil::spec_is_digit(#[trigger] sparts[k as int][i]),
            decreases plen - j,
        {
            if !is_digit(parts[k].as_str().get_char(j)) {
                proof {
                    assert(sparts[k as int][j as int] == parts@[k as int]@[j as int]);
                    assert(!crate::strutil::spec_is_digit(sparts[k as int][j as int]));
                    assert(!spec_all_digits(sparts[k as int]));
                    assert(!spec_is_full_version(spec_str@)) by {
                        assert(!spec_all_digits(
                            spec_split(spec_cleaned(spec_str@), '.')[k as int],
                        ));
                    }
                }
                return None;
            }
            j = j + 1;
        }
        proof {
            assert(spec_all_digits(sparts[k as int]));
        }
        k = k + 1;
    }
    Some(cleaned)
}

/// One entry of the published version index.
#[derive(Debug)]
pub struct NodeVersion {
    pub version: String,
    pub date: String,
}

impl Clone for NodeVersion {
    fn clone(&self) -> (r: Self)
        ensures
            r == *self,
    {
        NodeVersion { version: self.version.clone(), date: self.date.clone() }
    }
}

/// Whether an index entry parses and is accepted by the specifier.
pub open spec fn spec_entry_matches(e: NodeVersion, sp: ParsedVersion) -> bool {
    match spec_parse_version(e.version@) {
        Some(p) => sp.spec_matches(p),
        None => false,
    }
}

/// The parsed form of an entry known to parse.
pub open spec fn spec_entry_version(e: NodeVersion) -> ParsedVersion {
    spec_parse_version(e.version@)->0
}

/// Entry order: by parsed version.
pub open spec fn spec_entry_le(a: NodeVersion, b: NodeVersion) -> bool {
    spec_version_cmp(spec_entry_version(a), spec_entry_version(b)) != core::cmp::Ordering::Greater
}

/// The index entries accepted by the specifier, in ascending version
/// order.
pub fn find_matching_versions(versions: &Vec<NodeVersion>, sp: &ParsedVersion) -> (r: Vec<
    NodeVersion,
>)
    ensures
        r@.to_multiset() == versions@.filter(
            |e: NodeVersion| spec_entry_matches(e, *sp),
        ).to_multiset(),
        forall|i: int, j: int| 0 <= i <= j < r@.len() ==> spec_entry_le(r@[i], r@[j]),
        forall|i: int| 0 <= i < r@.len() ==> spec_entry_matches(#[trigger] r@[i], *sp),
{
    let mut matching: Vec<NodeVersion> = Vec::new();
    let mut i: usize = 0;
    proof {
        assert(versions@.subrange(0, 0) =~= Seq::<NodeVersion>::empty());
    }
    while i < versions.len()
        invariant
            i <= versions@.len(),
            matching@ == versions@.subrange(0, i as int).filter(
                |e: NodeVersion| spec_entry_matches(e, *sp),
            ),
        decreases versions@.len() - i,
    {
        let entry = &versions[i];
        let accept = match parse_version_spec(entry.version.as_str()) {
            Ok(p) => sp.matches(&p),
            Err(_) => false,
        };
        proof {
            let pred = |e: NodeVersion| spec_entry_matches(e, *sp);
            assert(versions@.subrange(0, i as int + 1).drop_last() =~= versions@.subrange(
                0,
                i as int,
            ));
            reveal(Seq::filter);
            assert(versions@.subrange(0, i as int + 1).last() == versions@[i as int]);
        }
        if accept {
            matching.push(entry.clone());
        }
        i = i + 1;
    }
    proof {
        assert(versions@.subrange(0, versions@.len() as int) =~= versions@);
    }
    sort_entries(matching, Ghost(*sp))
}

/// Insertion sort by parsed version, keeping the element multiset.
fn sort_entries(input: Vec<NodeVersion>, Ghost(sp): Ghost<ParsedVersion>) -> (r: Vec<NodeVersion>)
    requires
        forall|i: int| 0 <= i < input@.len() ==> spec_entry_matches(#[trigger] input@[i], sp),
    ensures
        r@.to_multiset() == input@.to_multiset(),
        forall|i: int, j: int| 0 <= i <= j < r@.len() ==> spec_entry_le(r@[i], r@[j]),
        forall|i: int| 0 <= i < r@.len() ==> spec_entry_matches(#[trigger] r@[i], sp),
{
    let mut out: Vec<NodeVersion> = Vec::new();
    let mut i: usize = 0;
    proof {
        assert(input@.subrange(0, 0) =~= Seq::<NodeVersion>::empty());
        input@.subrange(0, 0).to_multiset_ensures();
        out@.to_multiset_ensures();
        assert(out@.to_multiset() =~= input@.subrange(0, 0).to_multiset());
    }
    while i < input.len()
        invariant
            i <= input@.len(),
            forall|k: int| 0 <= k < input@.len() ==> spec_entry_matches(#[trigger] input@[k], sp),
            out@.to_multiset() == input@.subrange(0, i as int).to_multiset(),
            forall|a: int, b: int| 0 <= a <= b < out@.len() ==> spec_entry_le(out@[a], out@[b]),
            forall|k: int| 0 <= k < out@.len() ==> spec_entry_matches(#[trigger] out@[k], sp),
        decreases input@.len() - i,
    {
        let entry = input[i].clone();
        proof {
            assert(entry == input@[i as int]);
            assert(spec_entry_matches(entry, sp));
        }
        // Scan back from the end for the insertion point.
        let mut pos: usize = out.len();
        loop
            invariant
                pos <= out@.len(),
                forall|a: int, b: int| 0 <= a <= b < out@.len() ==> spec_entry_le(out@[a], out@[b]),
                forall|k: int| 0 <= k < out@.len() ==> spec_entry_matches(#[trigger] out@[k], sp),
                spec_entry_matches(entry, sp),
                forall|k: int| pos <= k < out@.len() ==> spec_entry_le(entry, #[trigger] out@[k]),
            ensures
                pos <= out@.len(),
                pos > 0 ==> spec_entry_le(out@[pos as int - 1], entry),
                forall|k: int| pos <= k < out@.len() ==> spec_entry_le(entry, #[trigger] out@[k]),
            decreases pos,
        {
            if pos == 0 {
                break;
            }
            let prev = &out[pos - 1];
            let stop = match compare_entries(prev, &entry) {
                core::cmp::Ordering::Greater => false,
                _ => true,
            };
            if stop {
                proof {
                    lemma_version_cmp_total(spec_entry_version(out@[pos as int - 1]),
                        spec_entry_version(entry));
                }
                break;
            }
            proof {
                lemma_cmp_flip(spec_entry_version(out@[pos as int - 1]), spec_entry_version(entry));
                assert(spec_entry_le(entry, out@[pos as int - 1]));
            }
            pos = pos - 1;
        }
        let ghost before = out@;
        out.insert(pos, entry);
        proof {
            assert(out@ =~= before.subrange(0, pos as int).push(entry) + before.subrange(
                pos as int,
                before.len() as int,
            ));
            lemma_insert_multiset(before, pos as int, entry);
            assert(input@.subrange(0, i as int + 1) =~= input@.subrange(0, i as int).push(
                input@[i as int],
            ));
            input@.subrange(0, i as int).to_multiset_ensures();
            assert(input@.subrange(0, i as int + 1).to_multiset() == input@.subrange(
                0,
                i as int,
            ).to_multiset().insert(input@[i as int]));
            assert forall|a: int, b: int| 0 <= a <= b < out@.len() implies spec_entry_le(
                out@[a],
                out@[b],
            ) by {
                if b < pos {
                    assert(out@[a] == before[a]);
                    assert(out@[b] == before[b]);
                } else if a > pos {
                    assert(out@[a] == before[a - 1]);
                    assert(out@[b] == before[b - 1]);
                } else if a < pos && b > pos {
                    assert(out@[a] == before[a]);
                    assert(out@[b] == before[b - 1]);
                    assert(spec_entry_le(before[a], before[pos as int - 1]));
                    lemma_cmp_trans(spec_entry_version(before[a]), spec_entry_version(
                        before[pos as int - 1],
                    ), spec_entry_version(entry));
                    lemma_cmp_trans(spec_entry_version(before[a]), spec_entry_version(entry),
                        spec_entry_version(before[b - 1]));
                } else if a == pos && b > pos {
                    assert(out@[a] == entry);
                    assert(out@[b] == before[b - 1]);
                    assert(spec_entry_le(entry, before[b - 1]));
                } else if a < pos && b == pos {
                    assert(out@[a] == before[a]);
                    assert(out@[b] == entry);
                    assert(spec_entry_le(before[a], before[pos as int - 1]));
                    lemma_cmp_trans(spec_entry_version(before[a]), spec_entry_version(
                        before[pos as int - 1],
                    ), spec_entry_version(entry));
                }
            }
        }
        i = i + 1;
    }
    proof {
        assert(input@.subrange(0, input@.len() as int) =~= input@);
    }
    out
}

/// Compare two index entries whose versions parse.
fn compare_entries(a: &NodeVersion, b: &NodeVersion) -> (r: core::cmp::Ordering)
    requires
        spec_parse_version(a.version@) is Some,
        spec_parse_version(b.version@) is Some,
    ensures
        r == spec_version_cmp(spec_entry_version(*a), spec_entry_version(*b)),
{
    let pa = match parse_version_spec(a.version.as_str()) {
        Ok(p) => p,
        Err(_) => {
            proof {
                assert(false);
            }
            ParsedVersion { major: 0, minor: None, patch: None }
        },
    };
    let pb = match parse_version_spec(b.version.as_str()) {
        Ok(p) => p,
        Err(_) => {
            proof {
                assert(false);
            }
            ParsedVersion { major: 0, minor: None, patch: None }
        },
    };
    match pa.partial_cmp(&pb) {
        Some(o) => o,
        None => {
            proof {
                assert(false);
            }
            core::cmp::Ordering::Equal
        },
    }
}

/// Flipping the arguments flips the comparison.
proof fn lemma_cmp_flip(a: ParsedVersion, b: ParsedVersion)
    ensures
        (spec_version_cmp(a, b) == core::cmp::Ordering::Greater) <==> (spec_version_cmp(b, a)
            == core::cmp::Ordering::Less),
{
}

/// The version order is total.
proof fn lemma_version_cmp_total(a: ParsedVersion, b: ParsedVersion)
    ensures
        spec_version_cmp(a, b) == core::cmp::Ordering::Greater || spec_version_cmp(b, a)
            != core::cmp::Ordering::Less,
{
}

/// The version order is transitive.
proof fn lemma_cmp_trans(a: ParsedVersion, b: ParsedVersion, c: ParsedVersion)
    requires
        spec_version_cmp(a, b) != core::cmp::Ordering::Greater,
        spec_version_cmp(b, c) != core::cmp::Ordering::Greater,
    ensures
        spec_version_cmp(a, c) != core::cmp::Ordering::Greater,
{
}

/// Inserting at `pos` adds one occurrence to the multiset.
proof fn lemma_insert_multiset(s: Seq<NodeVersion>, pos: int, e: NodeVersion)
    requires
        0 <= pos <= s.len(),
    ensures
        (s.subrange(0, pos).push(e) + s.subrange(pos, s.len() as int)).to_multiset()
            == s.to_multiset().insert(e),
{
    let left = s.subrange(0, pos);
    let right = s.subrange(pos, s.len() as int);
    vstd::seq_lib::lemma_multiset_commutative(left.push(e), right);
    vstd::seq_lib::lemma_multiset_commutative(left, right);
    left.push(e).to_multiset_ensures();
    left.to_multiset_ensures();
    assert(s =~= left + right);
    assert(left.push(e).to_multiset() =~= left.to_multiset().insert(e));
    assert((left.push(e) + right).to_multiset() =~= s.to_multiset().insert(e));
}


/// Whether some index entry is accepted by the specifier.
pub open spec fn spec_some_match(versions: Seq<NodeVersion>, sp: ParsedVersion) -> bool {
    exists|i: int| 0 <= i < versions.len() && spec_entry_matches(#[trigger] versions[i], sp)
}

/// Whether `e` is accepted and no accepted entry is newer.
pub open spec fn spec_is_max_match(versions: Seq<NodeVersion>, sp: ParsedVersion, e: NodeVersion) -> bool {
    &&& spec_entry_matches(e, sp)
    &&& forall|j: int|
        0 <= j < versions.len() && spec_entry_matches(#[trigger] versions[j], sp)
            ==> spec_entry_le(versions[j], e)
}

/// Every member of a filtered sequence is a member of the sequence
/// it was filtered from.
proof fn lemma_filter_subset(s: Seq<NodeVersion>, pred: spec_fn(NodeVersion) -> bool, x: NodeVersion)
    requires
        s.filter(pred).contains(x),
    ensures
        s.contains(x),
    decreases s.len(),
{
    reveal(Seq::filter);
    if s.len() > 0 {
        if pred(s.last()) && x == s.last() {
            assert(s.contains(x)) by {
                assert(s[s.len() - 1] == x);
            }
        } else {
            assert(s.drop_last().filter(pred).contains(x));
            lemma_filter_subset(s.drop_last(), pred, x);
            let k = choose|k: int| 0 <= k < s.drop_last().len() && s.drop_last()[k] == x;
            assert(s[k] == x);
        }
    }
}

/// A sequence with an accepted member filters to something non-empty.
proof fn lemma_filter_nonempty(s: Seq<NodeVersion>, pred: spec_fn(NodeVersion) -> bool, i: int)
    requires
        0 <= i < s.len(),
        pred(s[i]),
    ensures
        s.filter(pred).len() > 0,
{
    broadcast use vstd::seq_lib::group_filter_ensures;

    assert(s.filter(pred).contains(s[i]));
}

/// Resolve a version specifier against the published index: pick the
/// newest published version the specifier accepts, and return it with any
/// leading `v` removed.
///
/// Returns `Ok` exactly when the specifier is well formed and at least
/// one published entry matches it.
pub fn resolve_version_from_list(versions: &Vec<NodeVersion>, spec_str: &str) -> (r: Result<
    String,
    VersionError,
>)
    ensures
        match r {
            Ok(v) => {
                &&& spec_parse_version(spec_str@) is Some
                &&& exists|i: int|
                    0 <= i < versions@.len() && spec_is_max_match(
                        versions@,
                        spec_parse_version(spec_str@)->0,
                        #[trigger] versions@[i],
                    ) && v@ == spec_strip_leading(versions@[i].version@, 'v')
            },
            Err(e) => match e {
                VersionError::NoMatchingVersion => spec_parse_version(spec_str@) matches Some(sp)
                    && !spec_some_match(versions@, sp),
                _ => spec_parse_version(spec_str@) is None,
            },
        },
{
    let sp = match parse_version_spec(spec_str) {
        Ok(p) => p,
        Err(e) => {
            return Err(e);
        },
    };
    let matching = find_matching_versions(versions, &sp);
    let ghost pred = |e: NodeVersion| spec_entry_matches(e, sp);
    if matching.len() == 0 {
        proof {
            matching@.to_multiset_ensures();
            versions@.filter(pred).to_multiset_ensures();
            if spec_some_match(versions@, sp) {
                let i = choose|i: int|
                    0 <= i < versions@.len() && spec_entry_matches(#[trigger] versions@[i], sp);
                lemma_filter_nonempty(versions@, pred, i);
                assert(versions@.filter(pred).to_multiset().len() > 0);
                assert(matching@.to_multiset().len() == 0);
            }
        }
        return Err(VersionError::NoMatchingVersion);
    }
    let best = &matching[matching.len() - 1];
    let result = strip_leading(best.version.as_str(), 'v');
    proof {
        let last = matching@[matching@.len() - 1];
        matching@.to_multiset_ensures();
        versions@.filter(pred).to_multiset_ensures();
        broadcast use vstd::seq_lib::group_filter_ensures;

        // The chosen entry is one of the published entries.
        assert(matching@.contains(last)) by {
            assert(matching@[matching@.len() - 1] == last);
        }
        assert(matching@.to_multiset().contains(last));
        assert(versions@.filter(pred).to_multiset().contains(last));
        assert(versions@.filter(pred).contains(last));
        lemma_filter_subset(versions@, pred, last);
        let i = choose|i: int| 0 <= i < versions@.len() && versions@[i] == last;
        // The chosen entry dominates every accepted entry.
        assert forall|j: int|
            0 <= j < versions@.len() && spec_entry_matches(#[trigger] versions@[j], sp) implies
            spec_entry_le(versions@[j], last) by {
            assert(versions@.filter(pred).contains(versions@[j]));
            assert(versions@.filter(pred).to_multiset().contains(versions@[j]));
            assert(matching@.to_multiset().contains(versions@[j]));
            assert(matching@.contains(versions@[j]));
            let k = choose|k: int| 0 <= k < matching@.len() && matching@[k] == versions@[j];
            assert(spec_entry_le(matching@[k], last));
        }
        assert(spec_is_max_match(versions@, sp, versions@[i]));
        assert(result@ == spec_strip_leading(versions@[i].version@, 'v'));
    }
    Ok(result)
}


/// The first candidate version-file content that is non-blank, scanning
/// from `i`.
pub open spec fn spec_first_version_from(cands: Seq<Option<String>>, i: int) -> Option<int>
    decreases cands.len() - i,
{
    if i < 0 || i >= cands.len() {
        None
    } else {
        match cands[i] {
            Some(c) => if spec_trim(c@).len() > 0 {
                Some(i)
            } else {
                spec_first_version_from(cands, i + 1)
            },
            None => spec_first_version_from(cands, i + 1),
        }
    }
}

/// Find the version specifier for the project: the candidates are the
/// contents of the version files of the project and its ancestors, in
/// probing order; the first whose content is not blank wins, cleaned of
/// blank space and a leading `v`.  Without one, the caller falls back to
/// its built-in default.
pub fn find_node_version_spec(candidates: &Vec<Option<String>>) -> (r: Option<String>)
    ensures
        match spec_first_version_from(candidates@, 0) {
            Some(i) => r matches Some(v) && v@ == spec_cleaned(candidates@[i]->0@),
            None => r is None,
        },
{
    let mut i: usize = 0;
    while i < candidates.len()
        invariant
            i <= candidates@.len(),
            spec_first_version_from(candidates@, 0) == spec_first_version_from(
                candidates@,
                i as int,
            ),
        decreases candidates@.len() - i,
    {
        match &candidates[i] {
            Some(content) => {
                let trimmed = trim_str(content.as_str());
                if trimmed.as_str().unicode_len() > 0 {
                    let cleaned = strip_leading(trimmed.as_str(), 'v');
                    proof {
                        assert(cleaned@ == spec_cleaned(candidates@[i as int]->0@));
                    }
                    return Some(cleaned);
                }
            },
            None => {},
        }
        i = i + 1;
    }
    None
}

} // verus!
